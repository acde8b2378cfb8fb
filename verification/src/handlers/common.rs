//! What every handler needs of a request: the address of the client and the
//! text of the body.

use vstd::prelude::*;
use vstd::utf8::{decode_utf8, valid_utf8};
use crate::text::{first_index_of, index_of_char, str_eq, trim, trimmed};

verus! {

/// The text that a gzip stream unpacks to; nothing where the bytes are no
/// gzip stream, or where what they unpack to is no UTF-8.
pub uninterp spec fn gunzip_text(bytes: Seq<u8>) -> Option<Seq<char>>;

/// The text of the bytes read as UTF-8, with U+FFFD in place of what is no
/// UTF-8.
pub uninterp spec fn utf8_lossy(bytes: Seq<u8>) -> Seq<char>;

/// The model of an optional string slice.
pub open spec fn opt_str(text: Option<&str>) -> Option<Seq<char>> {
    match text {
        Some(t) => Some(t@),
        None => None,
    }
}

/// The address that a request is taken to come from: that of the peer;
/// else the first entry of the list in `X-Forwarded-For`, trimmed; else what
/// `X-Real-IP` holds; else `unknown`.
pub open spec fn client_ip_of(
    peer: Option<Seq<char>>,
    forwarded_for: Option<Seq<char>>,
    real_ip: Option<Seq<char>>,
) -> Seq<char> {
    match peer {
        Some(ip) => ip,
        None => match forwarded_for {
            Some(list) => trimmed(list.take(first_index_of(list, ','))),
            None => match real_ip {
                Some(ip) => ip,
                None => "unknown"@,
            },
        },
    }
}

/// The text of a request body: what it unpacks to where the content
/// encoding is `gzip` and the body is a gzip stream of UTF-8; else the body
/// itself, read as UTF-8.
pub open spec fn body_text(content_encoding: Seq<char>, body: Seq<u8>) -> Seq<char> {
    if content_encoding == "gzip"@ {
        match gunzip_text(body) {
            Some(text) => text,
            None => utf8_lossy(body),
        }
    } else {
        utf8_lossy(body)
    }
}

/// The address that a request is taken to come from. `peer` is the address
/// of the peer as text; the other two are the values of the headers
/// `X-Forwarded-For` and `X-Real-IP`, where the request has them as text.
pub fn get_client_ip(peer: Option<&str>, forwarded_for: Option<&str>, real_ip: Option<&str>) -> (ip:
    String)
    ensures
        ip@ == client_ip_of(opt_str(peer), opt_str(forwarded_for), opt_str(real_ip)),
{
    if let Some(ip) = peer {
        return String::from_str(ip);
    }
    if let Some(list) = forwarded_for {
        let first = list.substring_char(0, index_of_char(list, ','));
        return String::from_str(trim(first));
    }
    if let Some(ip) = real_ip {
        return String::from_str(ip);
    }
    String::from_str("unknown")
}

/// Unpacks a gzip stream into text.
///
/// The body reads `body` through `flate2::read::GzDecoder` with
/// `read_to_string`. The contract claims that the outcome depends on the
/// bytes alone: the text where the decoder reads the stream to its end as
/// UTF-8, nothing where it reports an error.
#[verifier::external_body]
fn gunzip(body: &[u8]) -> (text: Option<String>)
    ensures
        match text {
            Some(t) => gunzip_text(body@) == Some(t@),
            None => gunzip_text(body@) is None,
        },
{
    let mut decoder = flate2::read::GzDecoder::new(body);
    let mut text = String::new();
    match std::io::Read::read_to_string(&mut decoder, &mut text) {
        Ok(_) => Some(text),
        Err(_) => None,
    }
}

/// Reads bytes as UTF-8 text, with U+FFFD in place of what is no UTF-8.
///
/// The body calls `String::from_utf8_lossy`. The contract claims that the
/// outcome depends on the bytes alone, and that bytes which are UTF-8 give
/// the text they encode.
#[verifier::external_body]
fn lossy_text(body: &[u8]) -> (text: String)
    ensures
        text@ == utf8_lossy(body@),
        valid_utf8(body@) ==> text@ == decode_utf8(body@),
{
    String::from_utf8_lossy(body).into_owned()
}

/// The text of a body after an attempt to unpack it: what it unpacked to,
/// or the body itself, read as UTF-8, where it did not unpack.
pub fn unpacked_or_plain(unpacked: Option<String>, body: &[u8]) -> (text: String)
    ensures
        text@ == match unpacked {
            Some(t) => t@,
            None => utf8_lossy(body@),
        },
{
    match unpacked {
        Some(t) => t,
        None => lossy_text(body),
    }
}

/// The text of a request body. `content_encoding` is the value of the
/// header of that name, empty where the request has none.
///
/// A body that is marked as gzip and does not unpack is read as it stands:
/// no request is refused for its encoding.
pub fn decompress_body_if_needed(content_encoding: &str, body: &[u8]) -> (text: String)
    ensures
        text@ == body_text(content_encoding@, body@),
        !(content_encoding@ == "gzip"@) && valid_utf8(body@) ==> text@ == decode_utf8(body@),
{
    if str_eq(content_encoding, "gzip") {
        unpacked_or_plain(gunzip(body), body)
    } else {
        lossy_text(body)
    }
}

} // verus!
