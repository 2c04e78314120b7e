//! Decisions of the image and speech pipeline.

use vstd::prelude::*;
use crate::numfmt::{dec_digits, push_dec_digits};
use crate::text::{append_str, string_of};

verus! {

/// The speech synthesiser a paragraph goes to.
#[derive(Clone, Copy, Debug, PartialEq, Eq, Structural)]
pub enum TtsBackend {
    /// The OpenAI speech service.
    OpenAi,
    /// A local Mimic3 server.
    Mimic3,
    /// The MetaVoice model.
    MetaVoice,
}

/// The synthesiser for the enabled options, or `None` when speech is off:
/// OpenAI when it is enabled, else Mimic3 when it or generic speech is
/// enabled, else MetaVoice.
pub open spec fn tts_choice(mimic3_tts: bool, oai_tts: bool, tts_enable: bool, metavoice_tts: bool) -> Option<TtsBackend> {
    if oai_tts {
        Some(TtsBackend::OpenAi)
    } else if mimic3_tts || tts_enable {
        Some(TtsBackend::Mimic3)
    } else if metavoice_tts {
        Some(TtsBackend::MetaVoice)
    } else {
        None
    }
}

/// Chooses the speech synthesiser (see `tts_choice`).
pub fn select_tts_backend(mimic3_tts: bool, oai_tts: bool, tts_enable: bool, metavoice_tts: bool) -> (r: Option<TtsBackend>)
    ensures
        r == tts_choice(mimic3_tts, oai_tts, tts_enable, metavoice_tts),
{
    if !(mimic3_tts || oai_tts || tts_enable || metavoice_tts) {
        return None;
    }
    if oai_tts {
        Some(TtsBackend::OpenAi)
    } else if mimic3_tts || tts_enable {
        Some(TtsBackend::Mimic3)
    } else {
        Some(TtsBackend::MetaVoice)
    }
}

/// The file an image of a paragraph is saved to:
/// "images/{output_id}_{paragraph_count}_{index}_.png".
pub open spec fn image_path(output_id: Seq<char>, paragraph_count: nat, index: nat) -> Seq<char> {
    "images/"@ + output_id + seq!['_'] + dec_digits(paragraph_count) + seq!['_'] + dec_digits(index)
        + "_.png"@
}

/// Names the file of an image (see `image_path`).
pub fn image_file_name(output_id: &str, paragraph_count: usize, index: usize) -> (r: String)
    ensures
        r@ == image_path(output_id@, paragraph_count as nat, index as nat),
{
    let mut out: Vec<char> = Vec::new();
    append_str(&mut out, "images/");
    append_str(&mut out, output_id);
    out.push('_');
    push_dec_digits(&mut out, paragraph_count);
    out.push('_');
    push_dec_digits(&mut out, index);
    append_str(&mut out, "_.png");
    string_of(out.as_slice())
}

/// The subtitle shown with the images of a paragraph: the paragraph when
/// subtitles are on, and nothing otherwise.
pub fn subtitle_text(subtitles: bool, paragraph: String) -> (r: String)
    ensures
        subtitles ==> r@ == paragraph@,
        !subtitles ==> r@ == Seq::<char>::empty(),
{
    if subtitles {
        paragraph
    } else {
        String::new()
    }
}

/// The sample rate of synthesised speech: 22050 Hz from Mimic3, 24000 Hz
/// otherwise.
pub fn speech_sample_rate(mimic3_tts: bool) -> (r: i32)
    ensures
        r == if mimic3_tts {
            22050i32
        } else {
            24000i32
        },
{
    if mimic3_tts {
        22050
    } else {
        24000
    }
}

} // verus!
