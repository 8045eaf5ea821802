//! The verifier: who asks (the account), where (the server), and whether the
//! server has to prove itself by signing a challenge.
//!
//! A verification is one GET. The library says what to send (`request`) and
//! what the answer means (`verify`); sending is the caller's part.

use crate::clock::unix_millis;
use crate::json::{answer_in, Answer, AnswerView};
use crate::licensegate_config::{text_view, LicenseGateConfig, LicenseGateConfigView};
use crate::outcome::{outcome_of, LicenseGateError, ValidationType};
use crate::pem::normalized_pem;
use crate::signature::{
    base64_decode, base64_decoding, public_key_from_pem, rsa_public_key_from_pem,
    rsa_public_key_to_pem, sha256, verifier_for, verifier_update, verifier_verify,
};
use crate::text::{decimal, decimal_text};
use crate::url::{join_text, param_text, query_params, url_text, views};
use vstd::prelude::*;
use vstd::utf8::encode_utf8;

verus! {

/// A verifier for the licenses of one account.
pub struct LicenseGate {
    user_id: String,
    public_rsa_key: Option<String>,
    validation_server: String,
    use_challenge: bool,
    debug_mode: bool,
}

/// A `LicenseGate` with its texts as sequences of characters.
pub struct LicenseGateView {
    pub user_id: Seq<char>,
    pub public_rsa_key: Option<Seq<char>>,
    pub validation_server: Seq<char>,
    pub use_challenge: bool,
    pub debug_mode: bool,
}

impl View for LicenseGate {
    type V = LicenseGateView;

    closed spec fn view(&self) -> LicenseGateView {
        LicenseGateView {
            user_id: self.user_id@,
            public_rsa_key: text_view(self.public_rsa_key),
            validation_server: self.validation_server@,
            use_challenge: self.use_challenge,
            debug_mode: self.debug_mode,
        }
    }
}

/// What is to be sent for one verification.
pub struct Request {
    /// The address to GET.
    pub url: String,
    /// The challenge that the address carries, where challenge mode is on.
    pub challenge: Option<String>,
}

/// A `Request` with its texts as sequences of characters.
pub struct RequestView {
    pub url: Seq<char>,
    pub challenge: Option<Seq<char>>,
}

impl View for Request {
    type V = RequestView;

    open spec fn view(&self) -> RequestView {
        RequestView { url: self.url@, challenge: text_view(self.challenge) }
    }
}

/// What came of sending a request.
pub enum Delivery {
    /// The request could not be sent, or no response arrived.
    Unreachable,
    /// A response arrived, and its body could not be read.
    Unreadable,
    /// A response arrived with this body.
    Body(Vec<u8>),
}

/// The challenge of a verification that starts `millis` milliseconds after
/// the Unix epoch: that number in decimal, where challenge mode is on.
pub open spec fn challenge_for(gate: LicenseGateView, millis: int) -> Option<Seq<char>> {
    if gate.use_challenge {
        Some(decimal(millis))
    } else {
        None
    }
}

/// The request for `config` of a verification that starts at `millis`.
pub open spec fn request_for(gate: LicenseGateView, config: LicenseGateConfigView, millis: int)
    -> RequestView {
    RequestView {
        url: url_text(
            gate.validation_server,
            gate.user_id,
            config.license,
            config.metadata,
            config.scope,
            challenge_for(gate, millis),
        ),
        challenge: challenge_for(gate, millis),
    }
}

/// What an answer comes to. `challenged` says whether challenge mode is on,
/// `accepted` whether the answer carries a signed challenge that verified.
///
/// An `error` member makes it a server error. Else the `valid` flag, on
/// where the answer has none, and the `result` text, `SERVER_ERROR` where the
/// answer has none, give the classification; it is the end only where the
/// flag is on and, in challenge mode, the challenge was met.
pub open spec fn concluded(challenged: bool, answer: AnswerView, accepted: bool) -> Result<
    ValidationType,
    LicenseGateError,
> {
    let valid = match answer.valid {
        Some(v) => v,
        None => true,
    };
    let result = match answer.result {
        Some(t) => t,
        None => "SERVER_ERROR"@,
    };
    if answer.error {
        Err(LicenseGateError::ServerError)
    } else if !valid {
        Err(LicenseGateError::Validation(outcome_of(result, valid)))
    } else if challenged && !accepted {
        Err(LicenseGateError::ChallengeFailed)
    } else {
        Ok(outcome_of(result, valid))
    }
}

/// What a delivery comes to, `accepted` as in `concluded`.
pub open spec fn verdict(gate: LicenseGateView, delivery: Delivery, accepted: bool) -> Result<
    ValidationType,
    LicenseGateError,
> {
    match delivery {
        Delivery::Unreachable => Err(LicenseGateError::ConnectionError),
        Delivery::Unreadable => Err(LicenseGateError::ServerError),
        Delivery::Body(body) => match answer_in(body@) {
            Some(answer) => concluded(gate.use_challenge, answer, accepted),
            None => Err(LicenseGateError::ServerError),
        },
    }
}

/// Whether a signature can be checked at all: a key is set, its normalized
/// form is not too long to hand to OpenSSL, and `signed` is base64.
pub open spec fn checkable(key: Option<Seq<char>>, signed: Seq<char>) -> bool {
    &&& key matches Some(k)
    &&& encode_utf8(normalized_pem(k)).len() <= 0x7fff_ffff
    &&& base64_decoding(signed) is Some
}

/// Whether the delivery can pass a challenge: the request carried one, the
/// body is JSON with a signed challenge, and the signature is checkable.
pub open spec fn may_pass(gate: LicenseGateView, request: RequestView, delivery: Delivery) -> bool {
    &&& request.challenge is Some
    &&& delivery matches Delivery::Body(body)
    &&& answer_in(body@) matches Some(answer)
    &&& answer.signed_challenge matches Some(signed)
    &&& checkable(gate.public_rsa_key, signed)
}

/// Whether `end` is an end that `verify` can give for this delivery: what
/// the delivery comes to with a signature that did not verify, or, only where
/// a signature can be checked at all, with one that did.
pub open spec fn allowed(
    gate: LicenseGateView,
    request: RequestView,
    delivery: Delivery,
    end: Result<ValidationType, LicenseGateError>,
) -> bool {
    ||| end == verdict(gate, delivery, false)
    ||| may_pass(gate, request, delivery) && end == verdict(gate, delivery, true)
}

/// Whether `end` is the one success, `Ok(Valid)`.
pub open spec fn is_success(end: Result<ValidationType, LicenseGateError>) -> bool {
    end == Ok::<ValidationType, LicenseGateError>(ValidationType::Valid)
}

impl LicenseGate {
    /// Whoever holds a key asks for challenges.
    #[verifier::type_invariant]
    spec fn key_forces_challenge(&self) -> bool {
        self.public_rsa_key is Some ==> self.use_challenge
    }

    /// A verifier for the account `user_id`: the public server, no key, no
    /// challenges, no diagnostics.
    pub fn new(user_id: &str) -> (gate: LicenseGate)
        ensures
            gate@ == (LicenseGateView {
                user_id: user_id@,
                public_rsa_key: None,
                validation_server: "https://api.licensegate.io"@,
                use_challenge: false,
                debug_mode: false,
            }),
    {
        LicenseGate {
            user_id: user_id.to_owned(),
            public_rsa_key: None,
            validation_server: "https://api.licensegate.io".to_owned(),
            use_challenge: false,
            debug_mode: false,
        }
    }

    /// The same verifier with `key` as the server's public key (PEM), and
    /// with challenge mode on.
    pub fn set_public_rsa_key(self, key: &str) -> (gate: LicenseGate)
        ensures
            gate@ == (LicenseGateView {
                public_rsa_key: Some(key@),
                use_challenge: true,
                ..self@
            }),
    {
        LicenseGate {
            user_id: self.user_id,
            public_rsa_key: Some(key.to_owned()),
            validation_server: self.validation_server,
            use_challenge: true,
            debug_mode: self.debug_mode,
        }
    }

    /// The same verifier, asking `server` in place of the public server.
    pub fn set_validation_server(self, server: &str) -> (gate: LicenseGate)
        ensures
            gate@ == (LicenseGateView { validation_server: server@, ..self@ }),
    {
        proof {
            use_type_invariant(&self);
        }
        LicenseGate {
            user_id: self.user_id,
            public_rsa_key: self.public_rsa_key,
            validation_server: server.to_owned(),
            use_challenge: self.use_challenge,
            debug_mode: self.debug_mode,
        }
    }

    /// The same verifier with challenge mode on, key or no key. Without a
    /// key every challenge fails.
    pub fn use_challenges(self) -> (gate: LicenseGate)
        ensures
            gate@ == (LicenseGateView { use_challenge: true, ..self@ }),
    {
        LicenseGate {
            user_id: self.user_id,
            public_rsa_key: self.public_rsa_key,
            validation_server: self.validation_server,
            use_challenge: true,
            debug_mode: self.debug_mode,
        }
    }

    /// The same verifier with diagnostics on.
    pub fn debug(self) -> (gate: LicenseGate)
        ensures
            gate@ == (LicenseGateView { debug_mode: true, ..self@ }),
    {
        proof {
            use_type_invariant(&self);
        }
        LicenseGate {
            user_id: self.user_id,
            public_rsa_key: self.public_rsa_key,
            validation_server: self.validation_server,
            use_challenge: self.use_challenge,
            debug_mode: true,
        }
    }

    /// The `User-Agent` header that every request carries.
    pub fn user_agent() -> (agent: &'static str)
        ensures
            agent@ == "RohitSangwan/LicenseGate-Rust"@,
    {
        "RohitSangwan/LicenseGate-Rust"
    }

    /// Whether diagnostics are on.
    pub fn debug_mode(&self) -> (on: bool)
        ensures
            on == self@.debug_mode,
    {
        self.debug_mode
    }
}

impl LicenseGate {
    /// The address of the request for `license_key`.
    pub fn build_url(
        &self,
        license_key: &str,
        scope: Option<String>,
        metadata: Option<String>,
        challenge: Option<&str>,
    ) -> (url: String)
        ensures
            url@ == url_text(
                self@.validation_server,
                self@.user_id,
                license_key@,
                text_view(metadata),
                text_view(scope),
                match challenge {
                    Some(c) => Some(c@),
                    None => None,
                },
            ),
    {
        let mut query: Vec<String> = Vec::new();
        if let Some(meta) = metadata {
            query.push(param_text("metadata", meta.as_str()));
        }
        if let Some(sc) = scope {
            query.push(param_text("scope", sc.as_str()));
        }
        if let Some(ch) = challenge {
            query.push(param_text("challenge", ch));
        }
        assert(views(query@) =~= query_params(
            text_view(metadata),
            text_view(scope),
            match challenge {
                Some(c) => Some(c@),
                None => None,
            },
        ));
        let mut url = self.validation_server.clone();
        url.append("/license/");
        url.append(self.user_id.as_str());
        url.append("/");
        url.append(license_key);
        url.append("/verify");
        if query.len() > 0 {
            url.append("?");
            let params = join_text(&query, "&");
            url.append(params.as_str());
        }
        url
    }

    /// The challenge of a verification that starts `millis` milliseconds
    /// after the Unix epoch.
    pub fn challenge_at(&self, millis: i64) -> (challenge: Option<String>)
        ensures
            text_view(challenge) == challenge_for(self@, millis as int),
    {
        if self.use_challenge {
            Some(decimal_text(millis))
        } else {
            None
        }
    }

    /// The request for `config` of a verification that starts `millis`
    /// milliseconds after the Unix epoch.
    pub fn request_at(&self, config: LicenseGateConfig, millis: i64) -> (request: Request)
        ensures
            request@ == request_for(self@, config@, millis as int),
    {
        let challenge = self.challenge_at(millis);
        let url = match &challenge {
            Some(c) => self.build_url(
                config.license.as_str(),
                config.scope,
                config.metadata,
                Some(c.as_str()),
            ),
            None => self.build_url(config.license.as_str(), config.scope, config.metadata, None),
        };
        Request { url, challenge }
    }

    /// The request for `config` of a verification that starts now. The clock
    /// is read only where challenge mode is on. Whoever holds a key sends a
    /// challenge.
    pub fn request(&self, config: LicenseGateConfig) -> (request: Request)
        ensures
            exists|millis: i64| request@ == #[trigger] request_for(self@, config@, millis as int),
            self@.public_rsa_key is Some ==> request@.challenge is Some,
    {
        proof {
            use_type_invariant(self);
        }
        let millis: i64 = if self.use_challenge {
            unix_millis()
        } else {
            0
        };
        self.request_at(config, millis)
    }

    /// Whether OpenSSL takes `signed_base64` for a signature of `challenge`
    /// under the key of this verifier. The key is normalized, read as an RSA
    /// public key, written out and read again as a public key; the signature
    /// is decoded from base64 and checked over SHA-256.
    ///
    /// What OpenSSL answers is not part of the contract. What is: `true`
    /// comes only where a key is set and `signed_base64` is base64. Every
    /// failure on the way gives `false`.
    pub fn verify_challenge(&self, challenge: &[u8], signed_base64: &str) -> (ok: bool)
        ensures
            ok ==> checkable(self@.public_rsa_key, signed_base64@),
    {
        let key = match &self.public_rsa_key {
            Some(key) => key,
            None => {
                return false;
            },
        };
        let pem = LicenseGate::normalize_pem_format(key.as_str());
        let pem_bytes = pem.as_str().as_bytes();
        if pem_bytes.len() > 0x7fff_ffff {
            return false;
        }
        let rsa = match rsa_public_key_from_pem(pem_bytes) {
            Ok(rsa) => rsa,
            Err(_) => {
                return false;
            },
        };
        let key_pem = match rsa_public_key_to_pem(&rsa) {
            Ok(key_pem) => key_pem,
            Err(_) => {
                return false;
            },
        };
        if key_pem.len() > 0x7fff_ffff {
            return false;
        }
        let public_key = match public_key_from_pem(key_pem.as_slice()) {
            Ok(public_key) => public_key,
            Err(_) => {
                return false;
            },
        };
        let mut verifier = match verifier_for(sha256(), &public_key) {
            Ok(verifier) => verifier,
            Err(_) => {
                return false;
            },
        };
        if verifier_update(&mut verifier, challenge).is_err() {
            return false;
        }
        let signature = match base64_decode(signed_base64) {
            Ok(signature) => signature,
            Err(_) => {
                return false;
            },
        };
        match verifier_verify(&verifier, signature.as_slice()) {
            Ok(verified) => verified,
            Err(_) => false,
        }
    }

    /// What `answer` comes to, where `accepted` says whether it carries a
    /// signed challenge that verified.
    pub fn conclude(&self, answer: &Answer, accepted: bool) -> (end: Result<
        ValidationType,
        LicenseGateError,
    >)
        ensures
            end == concluded(self@.use_challenge, answer@, accepted),
    {
        if answer.error {
            return Err(LicenseGateError::ServerError);
        }
        let valid = match answer.valid {
            Some(v) => v,
            None => true,
        };
        let outcome = match &answer.result {
            Some(t) => ValidationType::from_result(t.as_str(), valid),
            None => ValidationType::from_result("SERVER_ERROR", valid),
        };
        if !valid {
            return Err(LicenseGateError::Validation(outcome));
        }
        if self.use_challenge && !accepted {
            return Err(LicenseGateError::ChallengeFailed);
        }
        Ok(outcome)
    }

    /// What came of the verification for which `request` was sent and
    /// `delivery` came back.
    ///
    /// Without challenge mode this is `verdict` exactly. With it, the end is
    /// `verdict` for a signature that verified or for one that did not, and
    /// the first only where a signature could be checked at all.
    pub fn verify(&self, request: &Request, delivery: &Delivery) -> (end: Result<
        ValidationType,
        LicenseGateError,
    >)
        ensures
            allowed(self@, request@, *delivery, end),
            !self@.use_challenge ==> end == verdict(self@, *delivery, true),
    {
        let body = match delivery {
            Delivery::Unreachable => {
                return Err(LicenseGateError::ConnectionError);
            },
            Delivery::Unreadable => {
                return Err(LicenseGateError::ServerError);
            },
            Delivery::Body(body) => body,
        };
        let answer = match Answer::parse(body.as_slice()) {
            Some(answer) => answer,
            None => {
                return Err(LicenseGateError::ServerError);
            },
        };
        let wanted = self.use_challenge && !answer.error && match answer.valid {
            Some(v) => v,
            None => true,
        };
        let accepted = wanted && match (&request.challenge, &answer.signed_challenge) {
            (Some(challenge), Some(signed)) => self.verify_challenge(
                challenge.as_str().as_bytes(),
                signed.as_str(),
            ),
            _ => false,
        };
        self.conclude(&answer, accepted)
    }

    /// Whether an end of a verification is the one success: `Ok(Valid)`.
    pub fn is_valid(end: &Result<ValidationType, LicenseGateError>) -> (ok: bool)
        ensures
            ok == is_success(*end),
    {
        match end {
            Ok(ValidationType::Valid) => true,
            _ => false,
        }
    }

    /// Whether the verification for which `request` was sent and `delivery`
    /// came back ended in `Ok(Valid)`: every other end, the errors too, gives
    /// `false`.
    pub fn verify_simple(&self, request: &Request, delivery: &Delivery) -> (ok: bool)
        ensures
            exists|end: Result<ValidationType, LicenseGateError>|
                #[trigger] allowed(self@, request@, *delivery, end) && ok == is_success(end),
            !self@.use_challenge ==> ok == is_success(verdict(self@, *delivery, true)),
    {
        let end = self.verify(request, delivery);
        LicenseGate::is_valid(&end)
    }
}

/// An answer whose `valid` flag is off never ends in a classification. Unless
/// it has an `error` member, it ends in `Validation` of what its `result`
/// maps to, whatever the challenge mode and the signature.
pub proof fn lemma_invalid_ends_in_validation(
    challenged: bool,
    answer: AnswerView,
    accepted: bool,
)
    requires
        answer.valid == Some(false),
    ensures
        concluded(challenged, answer, accepted) is Err,
        !answer.error ==> concluded(challenged, answer, accepted) == Err::<
            ValidationType,
            LicenseGateError,
        >(
            LicenseGateError::Validation(
                outcome_of(
                    match answer.result {
                        Some(t) => t,
                        None => "SERVER_ERROR"@,
                    },
                    false,
                ),
            ),
        ),
{
}

/// In challenge mode, a body that is valid and has no `error` member fails
/// the challenge wherever no signature can be checked: no challenge was sent,
/// the body has no `signedChallenge`, it is no base64, or no key is set.
pub proof fn lemma_unchecked_challenge_fails(
    gate: LicenseGateView,
    request: RequestView,
    delivery: Delivery,
    end: Result<ValidationType, LicenseGateError>,
)
    requires
        gate.use_challenge,
        allowed(gate, request, delivery, end),
        delivery matches Delivery::Body(body) && answer_in(body@) matches Some(answer)
            && !answer.error && answer.valid != Some(false),
        !may_pass(gate, request, delivery),
    ensures
        end == Err::<ValidationType, LicenseGateError>(LicenseGateError::ChallengeFailed),
{
}

/// Without challenge mode the signature plays no part: `verify` has one end.
pub proof fn lemma_unchallenged_is_exact(
    gate: LicenseGateView,
    request: RequestView,
    delivery: Delivery,
    end: Result<ValidationType, LicenseGateError>,
)
    requires
        !gate.use_challenge,
        allowed(gate, request, delivery, end),
    ensures
        end == verdict(gate, delivery, true),
        end == verdict(gate, delivery, false),
{
}

} // verus!
