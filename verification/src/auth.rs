//! The credentials that the application presents when it asks upstream for
//! an access token of its own.

use vstd::prelude::*;
use vstd::utf8::encode_utf8;

verus! {

/// The standard base64 encoding, with padding, of a sequence of bytes: what
/// `base64::encode` returns for it.
pub uninterp spec fn base64_standard(input: Seq<u8>) -> Seq<char>;

/// Calls `base64::encode`, which encodes with the standard alphabet and
/// padding and is a function of the input bytes alone. It panics only when
/// the encoded size overflows `usize`; the precondition leaves those inputs
/// out.
#[verifier::external_body]
fn base64_encode(input: &[u8]) -> (encoded: String)
    requires
        input@.len() / 3 * 4 + 4 <= usize::MAX,
    ensures
        encoded@ == base64_standard(input@),
{
    base64::encode(input)
}

/// The credentials as they are encoded: the client id, a colon, the client
/// secret.
pub open spec fn credentials(client_id: Seq<char>, client_secret: Seq<char>) -> Seq<char> {
    client_id + ":"@ + client_secret
}

/// Whether the credentials are short enough for their encoding to have a
/// size that fits in `usize`.
pub open spec fn credentials_fit(client_id: Seq<char>, client_secret: Seq<char>) -> bool {
    encode_utf8(credentials(client_id, client_secret)).len() / 3 * 4 + 4 <= usize::MAX
}

/// The value of a basic `Authorization` header for encoded credentials.
pub open spec fn basic_authorization_of(encoded: Seq<char>) -> Seq<char> {
    "Basic "@ + encoded
}

/// The value of a basic `Authorization` header: `Basic`, a space, and the
/// encoded credentials.
pub fn basic_authorization_value(encoded: &str) -> (value: String)
    ensures
        value@ == basic_authorization_of(encoded@),
{
    let mut value = "Basic ".to_owned();
    value.append(encoded);
    value
}

/// The value of the `Authorization` header that identifies the application:
/// `Basic` and the base64 encoding of `<client id>:<client secret>`. `None`
/// for credentials too long to encode on this machine.
pub fn basic_authorization(client_id: &str, client_secret: &str) -> (value: Option<String>)
    ensures
        credentials_fit(client_id@, client_secret@) ==> (value matches Some(header) && header@
            == basic_authorization_of(
            base64_standard(encode_utf8(credentials(client_id@, client_secret@))),
        )),
        !credentials_fit(client_id@, client_secret@) ==> value is None,
{
    let mut joined = client_id.to_owned();
    joined.append(":");
    joined.append(client_secret);
    let bytes = joined.as_str().as_bytes();
    if bytes.len() / 3 > (usize::MAX - 4) / 4 {
        None
    } else {
        let encoded = base64_encode(bytes);
        Some(basic_authorization_value(encoded.as_str()))
    }
}

} // verus!
