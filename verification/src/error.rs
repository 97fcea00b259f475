//! What can go wrong.
use vstd::prelude::*;
use vstd::std_specs::convert::FromSpecImpl;

verus! {

/// The error of the Nostr client.
#[verifier::external_type_specification]
#[verifier::external_body]
pub struct ExNostrClientError(nostr_sdk::client::Error);

/// The error of Nostr keys.
#[verifier::external_type_specification]
#[verifier::external_body]
pub struct ExNostrKeyError(nostr_sdk::nostr::key::Error);

/// The error of the Nostr event builder.
#[verifier::external_type_specification]
#[verifier::external_body]
pub struct ExNostrEventBuilderError(nostr_sdk::nostr::event::builder::Error);

/// The error of Nostr tags.
#[verifier::external_type_specification]
#[verifier::external_body]
pub struct ExNostrTagError(nostr_sdk::nostr::event::tag::Error);

/// The error of JSON serialization.
#[verifier::external_type_specification]
#[verifier::external_body]
pub struct ExJsonError(serde_json::Error);

/// An error of this library: of the relays, of JSON, of a card, of a payment or of the
/// configuration.
#[derive(Debug)]
pub enum ElisymError {
    Nostr(nostr_sdk::client::Error),
    NostrKey(nostr_sdk::nostr::key::Error),
    NostrEventBuilder(nostr_sdk::nostr::event::builder::Error),
    NostrTag(nostr_sdk::nostr::event::tag::Error),
    Json(serde_json::Error),
    InvalidCapabilityCard(String),
    Payment(String),
    Config(String),
}

impl From<nostr_sdk::client::Error> for ElisymError {
    fn from(error: nostr_sdk::client::Error) -> (made: Self) {
        ElisymError::Nostr(error)
    }
}

impl FromSpecImpl<nostr_sdk::client::Error> for ElisymError {
    open spec fn obeys_from_spec() -> bool {
        true
    }

    open spec fn from_spec(error: nostr_sdk::client::Error) -> Self {
        ElisymError::Nostr(error)
    }
}

impl From<nostr_sdk::nostr::key::Error> for ElisymError {
    fn from(error: nostr_sdk::nostr::key::Error) -> (made: Self) {
        ElisymError::NostrKey(error)
    }
}

impl FromSpecImpl<nostr_sdk::nostr::key::Error> for ElisymError {
    open spec fn obeys_from_spec() -> bool {
        true
    }

    open spec fn from_spec(error: nostr_sdk::nostr::key::Error) -> Self {
        ElisymError::NostrKey(error)
    }
}

impl From<nostr_sdk::nostr::event::builder::Error> for ElisymError {
    fn from(error: nostr_sdk::nostr::event::builder::Error) -> (made: Self) {
        ElisymError::NostrEventBuilder(error)
    }
}

impl FromSpecImpl<nostr_sdk::nostr::event::builder::Error> for ElisymError {
    open spec fn obeys_from_spec() -> bool {
        true
    }

    open spec fn from_spec(error: nostr_sdk::nostr::event::builder::Error) -> Self {
        ElisymError::NostrEventBuilder(error)
    }
}

impl From<nostr_sdk::nostr::event::tag::Error> for ElisymError {
    fn from(error: nostr_sdk::nostr::event::tag::Error) -> (made: Self) {
        ElisymError::NostrTag(error)
    }
}

impl FromSpecImpl<nostr_sdk::nostr::event::tag::Error> for ElisymError {
    open spec fn obeys_from_spec() -> bool {
        true
    }

    open spec fn from_spec(error: nostr_sdk::nostr::event::tag::Error) -> Self {
        ElisymError::NostrTag(error)
    }
}

impl From<serde_json::Error> for ElisymError {
    fn from(error: serde_json::Error) -> (made: Self) {
        ElisymError::Json(error)
    }
}

impl FromSpecImpl<serde_json::Error> for ElisymError {
    open spec fn obeys_from_spec() -> bool {
        true
    }

    open spec fn from_spec(error: serde_json::Error) -> Self {
        ElisymError::Json(error)
    }
}

/// Calls `to_string` on the client's error. Nothing is said of the text.
#[verifier::external_body]
pub fn client_error_text(error: &nostr_sdk::client::Error) -> (text: String) {
    error.to_string()
}

/// Calls `to_string` on the key error. Nothing is said of the text.
#[verifier::external_body]
pub fn key_error_text(error: &nostr_sdk::nostr::key::Error) -> (text: String) {
    error.to_string()
}

/// Calls `to_string` on the event builder's error. Nothing is said of the text.
#[verifier::external_body]
pub fn builder_error_text(error: &nostr_sdk::nostr::event::builder::Error) -> (text: String) {
    error.to_string()
}

/// Calls `to_string` on the tag error. Nothing is said of the text.
#[verifier::external_body]
pub fn tag_error_text(error: &nostr_sdk::nostr::event::tag::Error) -> (text: String) {
    error.to_string()
}

/// Calls `to_string` on the JSON error. Nothing is said of the text.
#[verifier::external_body]
pub fn json_error_text(error: &serde_json::Error) -> (text: String) {
    error.to_string()
}

impl ElisymError {
    /// What the message begins with.
    pub open spec fn heading(self) -> Seq<char> {
        match self {
            ElisymError::Nostr(_) => "Nostr client error: "@,
            ElisymError::NostrKey(_) => "Nostr key error: "@,
            ElisymError::NostrEventBuilder(_) => "Nostr event builder error: "@,
            ElisymError::NostrTag(_) => "Nostr tag error: "@,
            ElisymError::Json(_) => "JSON serialization error: "@,
            ElisymError::InvalidCapabilityCard(_) => "Invalid capability card: "@,
            ElisymError::Payment(_) => "Payment error: "@,
            ElisymError::Config(_) => "Configuration error: "@,
        }
    }

    /// What follows the heading, where the library wrote it.
    pub open spec fn detail(self) -> Option<Seq<char>> {
        match self {
            ElisymError::InvalidCapabilityCard(detail) => Some(detail@),
            ElisymError::Payment(detail) => Some(detail@),
            ElisymError::Config(detail) => Some(detail@),
            _ => None,
        }
    }

    /// Whether an error of another crate is inside and says `said` of itself.
    pub open spec fn quotes(self, said: String) -> bool {
        match self {
            ElisymError::Nostr(error) => call_ensures(client_error_text, (&error,), said),
            ElisymError::NostrKey(error) => call_ensures(key_error_text, (&error,), said),
            ElisymError::NostrEventBuilder(error) => call_ensures(
                builder_error_text,
                (&error,),
                said,
            ),
            ElisymError::NostrTag(error) => call_ensures(tag_error_text, (&error,), said),
            ElisymError::Json(error) => call_ensures(json_error_text, (&error,), said),
            _ => false,
        }
    }

    /// The message: the heading, then the detail or what the error inside says of itself.
    pub fn to_string(&self) -> (message: String)
        ensures
            match self.detail() {
                Some(detail) => message@ == self.heading() + detail,
                None => exists|said: String| #[trigger]
                    self.quotes(said) && message@ == self.heading() + said@,
            },
    {
        let (heading, detail) = match self {
            ElisymError::Nostr(e) => ("Nostr client error: ", client_error_text(e)),
            ElisymError::NostrKey(e) => ("Nostr key error: ", key_error_text(e)),
            ElisymError::NostrEventBuilder(e) => (
                "Nostr event builder error: ",
                builder_error_text(e),
            ),
            ElisymError::NostrTag(e) => ("Nostr tag error: ", tag_error_text(e)),
            ElisymError::Json(e) => ("JSON serialization error: ", json_error_text(e)),
            ElisymError::InvalidCapabilityCard(d) => ("Invalid capability card: ", d.clone()),
            ElisymError::Payment(d) => ("Payment error: ", d.clone()),
            ElisymError::Config(d) => ("Configuration error: ", d.clone()),
        };
        assert(self.detail() is None ==> self.quotes(detail));
        heading.to_owned().concat(detail.as_str())
    }
}

/// Whether a result is the payment error with the given detail.
pub open spec fn is_payment_error<T>(result: Result<T, ElisymError>, detail: Seq<char>) -> bool {
    result matches Err(ElisymError::Payment(said)) && said@ == detail
}

/// The payment error whose detail is `said` followed by `cause`.
pub(crate) fn payment_error(said: &str, cause: &str) -> (error: ElisymError)
    ensures
        error matches ElisymError::Payment(detail) && detail@ == said@ + cause@,
{
    ElisymError::Payment(said.to_owned().concat(cause))
}

/// A payment error with a detail is just that: no other error and no success is one.
pub proof fn payment_error_has_its_detail<T>(result: Result<T, ElisymError>, detail: Seq<char>)
    ensures
        is_payment_error(result, detail) <==> (result matches Err(ElisymError::Payment(said))
            && said@ == detail),
{
}

/// An error of the library's own carries the detail that it was made with, and one of another
/// crate carries none but quotes what that crate's error says.
pub proof fn details_are_kept(detail: String, error: ElisymError, said: String)
    ensures
        ElisymError::InvalidCapabilityCard(detail).detail() == Some(detail@),
        ElisymError::Payment(detail).detail() == Some(detail@),
        ElisymError::Config(detail).detail() == Some(detail@),
        error.detail() is Some <==> error is InvalidCapabilityCard || error is Payment
            || error is Config,
        error.detail() is Some ==> !error.quotes(said),
        error matches ElisymError::Nostr(inner) ==> (error.quotes(said) <==> call_ensures(
            client_error_text,
            (&inner,),
            said,
        )),
        error matches ElisymError::NostrKey(inner) ==> (error.quotes(said) <==> call_ensures(
            key_error_text,
            (&inner,),
            said,
        )),
        error matches ElisymError::NostrEventBuilder(inner) ==> (error.quotes(said)
            <==> call_ensures(builder_error_text, (&inner,), said)),
        error matches ElisymError::NostrTag(inner) ==> (error.quotes(said) <==> call_ensures(
            tag_error_text,
            (&inner,),
            said,
        )),
        error matches ElisymError::Json(inner) ==> (error.quotes(said) <==> call_ensures(
            json_error_text,
            (&inner,),
            said,
        )),
{
}

/// The heading of an error says what kind it is, whatever it carries.
pub proof fn heading_says_the_kind(error: ElisymError)
    ensures
        error is Nostr ==> error.heading() == "Nostr client error: "@,
        error is NostrKey ==> error.heading() == "Nostr key error: "@,
        error is NostrEventBuilder ==> error.heading() == "Nostr event builder error: "@,
        error is NostrTag ==> error.heading() == "Nostr tag error: "@,
        error is Json ==> error.heading() == "JSON serialization error: "@,
        error is InvalidCapabilityCard ==> error.heading() == "Invalid capability card: "@,
        error is Payment ==> error.heading() == "Payment error: "@,
        error is Config ==> error.heading() == "Configuration error: "@,
{
}

} // verus!
