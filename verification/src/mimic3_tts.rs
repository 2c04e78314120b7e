//! The query of a request to a local Mimic3 text-to-speech server.

use vstd::prelude::*;
use vstd::utf8::encode_utf8;
use crate::numfmt::hex_digit;
use crate::text::{append_str, chars_of, string_of};

verus! {

/// A byte that URL encoding leaves as it is: an ASCII letter or digit, `-`,
/// `.`, `_` or `~`.
pub open spec fn url_safe(b: u8) -> bool {
    ||| (48 <= b && b <= 57)
    ||| (65 <= b && b <= 90)
    ||| (97 <= b && b <= 122)
    ||| b == 45
    ||| b == 46
    ||| b == 95
    ||| b == 126
}

/// The percent-encoding of some bytes: each safe byte as its character,
/// every other byte as `%` and two upper-case hex digits.
pub open spec fn percent_encoded(bytes: Seq<u8>) -> Seq<char>
    decreases bytes.len(),
{
    if bytes.len() == 0 {
        seq![]
    } else {
        let b = bytes[0];
        (if url_safe(b) {
            seq![b as char]
        } else {
            seq!['%', hex_digit((b / 16) as nat, true), hex_digit((b % 16) as nat, true)]
        }) + percent_encoded(bytes.drop_first())
    }
}

/// Calls `urlencoding::encode`, which percent-encodes the UTF-8 bytes of the
/// text: every byte but ASCII letters, digits, `-`, `.`, `_` and `~` becomes
/// `%` and two upper-case hex digits, as the crate's documentation and source
/// give it.
#[verifier::external_body]
fn url_encode(s: &str) -> (r: String)
    ensures
        r@ == percent_encoded(encode_utf8(s@)),
{
    urlencoding::encode(s).into_owned()
}

/// The address of the Mimic3 server's speech endpoint.
pub open spec fn mimic3_endpoint() -> Seq<char> {
    "http://localhost:59125/api/tts"@
}

/// The request URL for a text: the endpoint, and the query with the
/// URL-encoded text, voice and audio target, the three numbers as written by
/// the caller, and the SSML flag. SSML defaults to false and the audio
/// target to "client".
pub open spec fn mimic3_url(
    text: Seq<char>,
    voice: Seq<char>,
    noise_scale: Seq<char>,
    noise_w: Seq<char>,
    length_scale: Seq<char>,
    ssml: Option<bool>,
    audio_target: Option<Seq<char>>,
) -> Seq<char> {
    let ssml_text = match ssml {
        Some(true) => "true"@,
        _ => "false"@,
    };
    let target = match audio_target {
        Some(t) => t,
        None => "client"@,
    };
    mimic3_endpoint() + seq!['?'] + "text="@ + percent_encoded(encode_utf8(text)) + "&voice="@
        + percent_encoded(encode_utf8(voice)) + "&noiseScale="@ + noise_scale + "&noiseW="@
        + noise_w + "&lengthScale="@ + length_scale + "&ssml="@ + ssml_text + "&audioTarget="@
        + percent_encoded(encode_utf8(target))
}

/// The characters of an optional string.
pub open spec fn opt_view(o: Option<String>) -> Option<Seq<char>> {
    match o {
        Some(t) => Some(t@),
        None => None,
    }
}

/// Builds the request URL for a text (see `mimic3_url`); the numbers come
/// written out by the caller.
pub fn mimic3_request_url(
    text: &str,
    voice: &str,
    noise_scale: &str,
    noise_w: &str,
    length_scale: &str,
    ssml: Option<bool>,
    audio_target: Option<String>,
) -> (r: String)
    ensures
        r@ == mimic3_url(
            text@,
            voice@,
            noise_scale@,
            noise_w@,
            length_scale@,
            ssml,
            opt_view(audio_target),
        ),
{
    let ssml_text = match ssml {
        Some(true) => "true",
        _ => "false",
    };
    let ghost tv = opt_view(audio_target);
    let target: String = match audio_target {
        Some(t) => t,
        None => string_of(chars_of("client").as_slice()),
    };
    let mut out: Vec<char> = Vec::new();
    append_str(&mut out, "http://localhost:59125/api/tts");
    out.push('?');
    append_str(&mut out, "text=");
    let t = url_encode(text);
    append_str(&mut out, t.as_str());
    append_str(&mut out, "&voice=");
    let v = url_encode(voice);
    append_str(&mut out, v.as_str());
    append_str(&mut out, "&noiseScale=");
    append_str(&mut out, noise_scale);
    append_str(&mut out, "&noiseW=");
    append_str(&mut out, noise_w);
    append_str(&mut out, "&lengthScale=");
    append_str(&mut out, length_scale);
    append_str(&mut out, "&ssml=");
    append_str(&mut out, ssml_text);
    append_str(&mut out, "&audioTarget=");
    let a = url_encode(target.as_str());
    append_str(&mut out, a.as_str());
    assert(out@ =~= mimic3_url(text@, voice@, noise_scale@, noise_w@, length_scale@, ssml, tv));
    string_of(out.as_slice())
}

} // verus!
