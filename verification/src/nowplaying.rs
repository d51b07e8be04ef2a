//! What Spotify is playing, as Windows' media session reports it: picking
//! Spotify's session and turning the cover art into a data URI.

use base64::Engine;
use vstd::prelude::*;
use crate::text::{contains, lowercase, lowercased, seq_contains};

verus! {

/// The track that Spotify is playing.
#[derive(Clone, PartialEq, Debug)]
pub struct Track {
    pub title: String,
    pub artist: String,
    /// The cover art as a `data:` URI, when there is one.
    pub art: Option<String>,
}

impl Default for Track {
    fn default() -> (t: Track)
        ensures
            t.title@ == Seq::<char>::empty(),
            t.artist@ == Seq::<char>::empty(),
            t.art is None,
    {
        Track { title: String::new(), artist: String::new(), art: None }
    }
}

/// The character of the standard base64 alphabet (RFC 4648) for the six-bit
/// value `v`: `A`-`Z`, `a`-`z`, `0`-`9`, `+`, `/`.
pub open spec fn base64_digit(v: int) -> char {
    if v < 26 {
        (65 + v) as char
    } else if v < 52 {
        (97 + v - 26) as char
    } else if v < 62 {
        (48 + v - 52) as char
    } else if v == 62 {
        '+'
    } else {
        '/'
    }
}

/// The standard base64 text of `bytes` (RFC 4648, with padding): each group of
/// three bytes becomes four characters, six bits each, most significant first;
/// a last group of one or two bytes is filled with zero bits and padded with `=`.
pub open spec fn base64_standard(bytes: Seq<u8>) -> Seq<char>
    decreases bytes.len(),
{
    if bytes.len() == 0 {
        Seq::empty()
    } else if bytes.len() == 1 {
        let b0 = bytes[0] as int;
        seq![base64_digit(b0 / 4), base64_digit((b0 % 4) * 16), '=', '=']
    } else if bytes.len() == 2 {
        let b0 = bytes[0] as int;
        let b1 = bytes[1] as int;
        seq![base64_digit(b0 / 4), base64_digit((b0 % 4) * 16 + b1 / 16), base64_digit((b1 % 16) * 4), '=']
    } else {
        let b0 = bytes[0] as int;
        let b1 = bytes[1] as int;
        let b2 = bytes[2] as int;
        seq![
            base64_digit(b0 / 4),
            base64_digit((b0 % 4) * 16 + b1 / 16),
            base64_digit((b1 % 16) * 4 + b2 / 64),
            base64_digit(b2 % 64),
        ] + base64_standard(bytes.skip(3))
    }
}

/// Calls `base64::engine::general_purpose::STANDARD.encode` (base64 0.22).
/// Trusted: the text is the standard padded base64 of `bytes` (RFC 4648), as
/// `base64_standard` spells it out. `encode` panics when the length of that
/// text (four characters per started group of three bytes, as `encoded_len`
/// computes it) overflows, which `requires` leaves out.
#[verifier::external_body]
fn base64_encode(bytes: &[u8]) -> (text: String)
    requires
        4 * ((bytes@.len() + 2) / 3) <= usize::MAX,
    ensures
        text@ == base64_standard(bytes@),
{
    base64::engine::general_purpose::STANDARD.encode(bytes)
}

/// The base64 text has four characters for every started group of three bytes.
pub proof fn lemma_base64_len(bytes: Seq<u8>)
    ensures
        base64_standard(bytes).len() == 4 * ((bytes.len() + 2) / 3),
    decreases bytes.len(),
{
    if bytes.len() >= 3 {
        lemma_base64_len(bytes.skip(3));
    }
}

/// The `data:` URI of the cover art, from its content type and bytes.
pub open spec fn data_uri(mime: Seq<char>, bytes: Seq<u8>) -> Seq<char> {
    "data:"@ + mime + ";base64,"@ + base64_standard(bytes)
}

/// The cover art as a `data:` URI.
pub fn art_data_uri(mime: &str, bytes: &[u8]) -> (uri: String)
    requires
        4 * ((bytes@.len() + 2) / 3) <= usize::MAX,
    ensures
        uri@ == data_uri(mime@, bytes@),
{
    let mut uri = String::from_str("data:");
    uri.append(mime);
    uri.append(";base64,");
    let encoded = base64_encode(bytes);
    uri.append(encoded.as_str());
    uri
}

/// A media session belongs to Spotify when its app id, lowercased, contains
/// "spotify".
pub open spec fn is_spotify_id(id: Seq<char>) -> bool {
    seq_contains(lowercased(id), "spotify"@)
}

/// Whether a media session, by its app id, is Spotify's.
pub fn is_spotify_session(id: &str) -> (b: bool)
    ensures
        b == is_spotify_id(id@),
{
    let lower = lowercase(id);
    contains(lower.as_str(), "spotify")
}

/// The track to show, from reading the media sessions: nothing when reading
/// failed or Spotify has no session.
pub fn current<E>(read: Result<Option<Track>, E>) -> (track: Option<Track>)
    ensures
        track == match read {
            Ok(t) => t,
            Err(_) => None::<Track>,
        },
{
    match read {
        Ok(t) => t,
        Err(_) => None,
    }
}

} // verus!
