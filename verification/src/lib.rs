//! A client for a license validation service, without the transport.
//!
//! A `LicenseGate` knows the account, the server and, optionally, the
//! server's public key. For a `LicenseGateConfig` (a license key with an
//! optional scope and metadata) it says which address to GET (`request`), and
//! for what came back it says what the license is (`verify`): a
//! `ValidationType`, or a `LicenseGateError`. With a key set the server has to
//! sign a challenge, the time of the request, and the signature is checked.
//!
//! Sending the request is left to the caller.

pub mod clock;
pub mod gate;
pub mod json;
pub mod licensegate_config;
pub mod lines;
pub mod outcome;
pub mod pem;
pub mod signature;
pub mod text;
pub mod url;

pub use gate::{Delivery, LicenseGate, Request};
pub use outcome::{LicenseGateError, ValidationType};
