//! Small pieces of an HTTP server: telling where the head of a request
//! ends, and answering the key of a WebSocket handshake.

use sha1::{Digest, Sha1};
use vstd::prelude::*;
use vstd::string::StrSliceExecFns;
use vstd::utf8::encode_utf8;

verus! {

pub const CR: u8 = 13;

pub const LF: u8 = 10;

/// Whether `s` begins with the blank line that ends a request's head: a
/// carriage return and a line feed, twice.
pub open spec fn double_crnl(s: Seq<u8>) -> bool {
    s.len() >= 4 && s[0] == CR && s[1] == LF && s[2] == CR && s[3] == LF
}

/// Whether the blank line that ends a request's head stands somewhere in `s`.
pub open spec fn holds_double_crnl(s: Seq<u8>) -> bool {
    exists|i: int| 0 <= i <= s.len() && double_crnl(#[trigger] s.skip(i))
}

/// Whether `window` begins with a carriage return and a line feed, twice.
pub fn is_double_crnl(window: &[u8]) -> (b: bool)
    ensures
        b == double_crnl(window@),
{
    window.len() >= 4 && window[0] == CR && window[1] == LF && window[2] == CR && window[3] == LF
}

/// Whether the head of the request in `buffer` is complete, that is whether
/// the blank line that ends it has arrived.
pub fn head_complete(buffer: &[u8]) -> (b: bool)
    ensures
        b == holds_double_crnl(buffer@),
{
    let n = buffer.len();
    let mut i: usize = 0;
    while n >= 4 && i <= n - 4
        invariant
            n == buffer@.len(),
            i <= n,
            forall|j: int| 0 <= j < i ==> !double_crnl(#[trigger] buffer@.skip(j)),
        decreases n - i,
    {
        if buffer[i] == CR && buffer[i + 1] == LF && buffer[i + 2] == CR && buffer[i + 3] == LF {
            assert(double_crnl(buffer@.skip(i as int)));
            return true;
        }
        i += 1;
    }
    assert forall|j: int| 0 <= j <= buffer@.len() implies !double_crnl(
        #[trigger] buffer@.skip(j),
    ) by {
        if j >= i {
            assert(buffer@.skip(j).len() < 4);
        }
    }
    false
}

/// One line of a request's head: a name and what is said under it.
#[derive(Debug, PartialEq, Eq)]
pub struct Header {
    pub name: String,
    pub value: String,
}

/// The names of `headers`, header by header.
pub open spec fn header_names(headers: Seq<Header>) -> Seq<Seq<char>> {
    headers.map_values(|h: Header| h.name@)
}

/// The value of the first header of `headers` that is called `name`, letter
/// for letter.
pub fn get_header<'a>(headers: &'a Vec<Header>, name: &String) -> (value: Option<&'a String>)
    ensures
        match header_names(headers@).index_of_first(name@) {
            Some(i) => value == Some(&headers@[i].value),
            None => value is None,
        },
{
    let mut i: usize = 0;
    while i < headers.len()
        invariant
            i <= headers.len(),
            forall|j: int| 0 <= j < i ==> header_names(headers@)[j] != name@,
        decreases headers.len() - i,
    {
        assert(header_names(headers@)[i as int] == headers@[i as int].name@);
        if headers[i].name == *name {
            proof {
                header_names(headers@).index_of_first_ensures(name@);
            }
            return Some(&headers[i].value);
        }
        i += 1;
    }
    proof {
        header_names(headers@).index_of_first_ensures(name@);
    }
    None
}

/// The SHA-1 digest of `message`.
pub uninterp spec fn sha1_digest(message: Seq<u8>) -> Seq<u8>;

/// The text that encodes `bytes` in base 64, with the standard alphabet and
/// with padding.
pub uninterp spec fn base64_text(bytes: Seq<u8>) -> Seq<char>;

/// The identifier that every WebSocket server appends to the key of a
/// handshake before it hashes it.
pub open spec fn websocket_guid() -> Seq<char> {
    "258EAFA5-E914-47DA-95CA-C5AB0DC85B11"@
}

/// The answer to the handshake key `key`.
pub open spec fn accept_of(key: Seq<char>) -> Seq<char> {
    base64_text(sha1_digest(encode_utf8(key) + encode_utf8(websocket_guid())))
}

/// Calls `Digest::digest` of the crate `sha1` for the hasher `Sha1`. What
/// is taken on trust: the digest depends on the message alone, and it is 20
/// bytes long.
#[verifier::external_body]
fn sha1(message: &[u8]) -> (digest: Vec<u8>)
    ensures
        digest@ == sha1_digest(message@),
        digest@.len() == 20,
{
    Sha1::digest(message).to_vec()
}

/// Calls `encode` of the crate `base64`. What is taken on trust: the text
/// depends on the bytes alone. The call is not made where the length of the
/// text would not fit the machine's word, since `encode` panics there.
#[verifier::external_body]
fn base64(bytes: &[u8]) -> (text: String)
    requires
        bytes@.len() / 3 * 4 + 4 <= usize::MAX,
    ensures
        text@ == base64_text(bytes@),
{
    base64::encode(bytes)
}

/// The value of the header by which a server accepts a WebSocket
/// handshake: the base 64 text of the SHA-1 digest of the key that the
/// client sent, followed by the protocol's identifier.
pub fn res_sec_websocket_accept(req_sec_websocket_key: &String) -> (accept: String)
    ensures
        accept@ == accept_of(req_sec_websocket_key@),
{
    let mut bytes = req_sec_websocket_key.as_str().as_bytes_vec();
    let mut guid = "258EAFA5-E914-47DA-95CA-C5AB0DC85B11".as_bytes_vec();
    bytes.append(&mut guid);
    let digest = sha1(bytes.as_slice());
    base64(digest.as_slice())
}

} // verus!
