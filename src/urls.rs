//! Addresses of the remote endpoints that the library's decisions lead to.

use vstd::prelude::*;
use vstd::utf8::encode_utf8;
use crate::text::joined;

verus! {

/// Bytes that percent-encoding keeps as they are: ASCII letters, digits and `-._~`.
pub open spec fn is_unreserved(b: u8) -> bool {
    (48 <= b <= 57) || (65 <= b <= 90) || (97 <= b <= 122) || b == 45 || b == 46 || b == 95
        || b == 126
}

/// Upper-case hexadecimal digit of `d` (below 16).
pub open spec fn hex_digit(d: u8) -> char {
    if d < 10 {
        (48 + d) as char
    } else {
        (55 + d) as char
    }
}

/// Percent-encoding of a byte string: kept bytes stand as their ASCII
/// character, every other byte as `%` and two upper-case hex digits.
pub open spec fn percent_encoded(bytes: Seq<u8>) -> Seq<char>
    decreases bytes.len(),
{
    if bytes.len() == 0 {
        Seq::empty()
    } else {
        let b = bytes[0];
        let head = if is_unreserved(b) {
            seq![b as char]
        } else {
            seq!['%', hex_digit(b / 16), hex_digit(b % 16)]
        };
        head + percent_encoded(bytes.drop_first())
    }
}

/// Relies on `urlencoding::encode`: it percent-encodes every byte of the UTF-8
/// form except ASCII letters, digits and `-`, `.`, `_`, `~`, with upper-case
/// hex digits.
#[verifier::external_body]
fn url_encode(s: &str) -> (r: String)
    ensures
        r@ == percent_encoded(encode_utf8(s@)),
{
    urlencoding::encode(s).into_owned()
}

/// The channel search request for `term`, at most ten channel results.
pub fn search_url(term: &str, api_key: &str) -> (r: String)
    ensures
        r@ == "https://www.googleapis.com/youtube/v3/search?part=snippet&q="@ + percent_encoded(
            encode_utf8(term@),
        ) + "&type=channel&maxResults=10&key="@ + api_key@,
{
    let mut s = String::from_str("https://www.googleapis.com/youtube/v3/search?part=snippet&q=");
    let encoded = url_encode(term);
    s.append(encoded.as_str());
    s.append("&type=channel&maxResults=10&key=");
    s.append(api_key);
    s
}

/// The request for a channel's title, description and statistics.
pub fn channel_details_url(channel_id: &str, api_key: &str) -> (r: String)
    ensures
        r@ == "https://www.googleapis.com/youtube/v3/channels?part=snippet,statistics&id="@
            + channel_id@ + "&key="@ + api_key@,
{
    let mut s = joined(
        "https://www.googleapis.com/youtube/v3/channels?part=snippet,statistics&id=",
        channel_id,
    );
    s.append("&key=");
    s.append(api_key);
    s
}

/// The page of a channel on the music site.
pub fn music_url(channel_id: &str) -> (r: String)
    ensures
        r@ == "https://music.youtube.com/channel/"@ + channel_id@,
{
    joined("https://music.youtube.com/channel/", channel_id)
}

} // verus!
