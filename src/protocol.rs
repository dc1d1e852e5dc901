//! Wire-level rules: stream namespaces and pub/sub topic names.
use vstd::prelude::*;
use vstd::utf8::encode_utf8;

verus! {

/// Longest namespace, in bytes, that the rendezvous protocol carries.
pub const MAX_NAMESPACE_BYTES: usize = 255;

/// Time to live, in seconds, asked for when registering with the rendezvous node.
pub const REGISTRATION_TTL_SECS: u64 = 60;

/// Protocol name advertised through identify.
pub const IDENTIFY_PROTOCOL: &'static str = "/marecchia-identify/0.0.1";

/// Length of `s` in UTF-8 bytes.
pub open spec fn utf8_len(s: Seq<char>) -> nat {
    encode_utf8(s).len()
}

/// A namespace is valid when it holds between 1 and 255 bytes.
pub open spec fn namespace_ok(s: Seq<char>) -> bool {
    1 <= utf8_len(s) <= MAX_NAMESPACE_BYTES
}

/// Errors surfaced to the application.
#[derive(Debug, PartialEq, Eq)]
pub enum ClientError {
    /// The namespace is empty or longer than 255 bytes.
    BadNamespace,
    /// The node could not be configured.
    ConfigError(String),
    /// The node could not listen on an address.
    ListenError(String),
    /// A dial failed.
    DialError(String),
    /// The event loop has stopped.
    ConnectionClosed,
}

/// Relies on libp2p's `rendezvous::Namespace::new`, which refuses a value of
/// more than 255 bytes and accepts any other.
#[verifier::external_body]
fn rendezvous_accepts(value: &String) -> (r: bool)
    ensures
        r == (utf8_len(value@) <= MAX_NAMESPACE_BYTES),
{
    libp2p::rendezvous::Namespace::new(value.clone()).is_ok()
}

/// Relies on libp2p's gossipsub `IdentTopic`: an identity-hashed topic whose
/// hash is the topic string itself.
#[verifier::external_body]
fn ident_topic_hash(name: &String) -> (r: String)
    ensures
        r@ == name@,
{
    libp2p::gossipsub::IdentTopic::new(name.clone()).hash().into_string()
}

/// The pub/sub topic that carries the segment `segment_id`.
pub fn topic_for(segment_id: &String) -> (r: String)
    ensures
        r@ == segment_id@,
{
    ident_topic_hash(segment_id)
}

/// A stream namespace: a label of 1 to 255 UTF-8 bytes that scopes the
/// rendezvous registration and the topic space of one content stream.
pub struct Namespace {
    name: String,
}

impl Namespace {
    pub closed spec fn view(&self) -> Seq<char> {
        self.name@
    }

    /// Checks `value` and makes it a namespace.
    pub fn new(value: String) -> (r: Result<Namespace, ClientError>)
        ensures
            r.is_ok() == namespace_ok(value@),
            r.is_err() ==> r == Err::<Namespace, ClientError>(ClientError::BadNamespace),
            r matches Ok(ns) ==> ns@ == value@,
    {
        if value.as_str().len() == 0 {
            return Err(ClientError::BadNamespace);
        }
        if !rendezvous_accepts(&value) {
            return Err(ClientError::BadNamespace);
        }
        Ok(Namespace { name: value })
    }

    /// The namespace as text.
    pub fn as_str(&self) -> (r: &str)
        ensures
            r@ == self@,
    {
        self.name.as_str()
    }
}

} // verus!
