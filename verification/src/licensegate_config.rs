//! What one verification is asked about: the license key, and optionally a
//! scope and a metadata text.

use vstd::prelude::*;

verus! {

/// The parameters of one verification. Nothing is checked here: the key is
/// passed on as it is, an empty one too.
#[derive(Debug)]
pub struct LicenseGateConfig {
    pub license: String,
    pub scope: Option<String>,
    pub metadata: Option<String>,
}

/// A `LicenseGateConfig` with its texts as sequences of characters.
pub struct LicenseGateConfigView {
    pub license: Seq<char>,
    pub scope: Option<Seq<char>>,
    pub metadata: Option<Seq<char>>,
}

/// The characters of an optional text.
pub open spec fn text_view(text: Option<String>) -> Option<Seq<char>> {
    match text {
        Some(t) => Some(t@),
        None => None,
    }
}

impl View for LicenseGateConfig {
    type V = LicenseGateConfigView;

    open spec fn view(&self) -> LicenseGateConfigView {
        LicenseGateConfigView {
            license: self.license@,
            scope: text_view(self.scope),
            metadata: text_view(self.metadata),
        }
    }
}

impl LicenseGateConfig {
    /// A configuration for the key `license`, without scope or metadata.
    pub fn new(license: &str) -> (config: LicenseGateConfig)
        ensures
            config@ == (LicenseGateConfigView { license: license@, scope: None, metadata: None }),
    {
        LicenseGateConfig { license: license.to_owned(), scope: None, metadata: None }
    }

    /// The same configuration with `scope` as its scope, in place of any
    /// earlier one.
    pub fn set_scope(self, scope: &str) -> (config: LicenseGateConfig)
        ensures
            config@ == (LicenseGateConfigView { scope: Some(scope@), ..self@ }),
    {
        LicenseGateConfig {
            license: self.license,
            scope: Some(scope.to_owned()),
            metadata: self.metadata,
        }
    }

    /// The same configuration with `metadata` as its metadata text, in place
    /// of any earlier one. It is the metadata that this sets, whatever the
    /// name suggests.
    pub fn set_validation_server(self, metadata: &str) -> (config: LicenseGateConfig)
        ensures
            config@ == (LicenseGateConfigView { metadata: Some(metadata@), ..self@ }),
    {
        LicenseGateConfig {
            license: self.license,
            scope: self.scope,
            metadata: Some(metadata.to_owned()),
        }
    }
}

impl Default for LicenseGateConfig {
    /// The configuration for the empty key.
    fn default() -> (config: LicenseGateConfig)
        ensures
            config@ == (LicenseGateConfigView {
                license: Seq::<char>::empty(),
                scope: None,
                metadata: None,
            }),
    {
        LicenseGateConfig { license: String::new(), scope: None, metadata: None }
    }
}

} // verus!
