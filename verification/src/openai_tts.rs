//! Requests to the OpenAI text-to-speech service.

use vstd::prelude::*;
use crate::speech_text::{keep_alnum_space, keep_alnum_space_exec};
use crate::text::{chars_of, string_of};

verus! {

/// The audio format of the synthesised speech.
#[derive(Clone, Copy, Debug, PartialEq, Eq, Structural)]
pub enum ResponseFormat {
    Mp3,
    Opus,
    Aac,
    Flac,
}

/// The voice of the synthesised speech.
#[derive(Clone, Copy, Debug, PartialEq, Eq, Structural)]
pub enum Voice {
    Alloy,
    Echo,
    Fable,
    Onyx,
    Nova,
    Shimmer,
}

/// The name of a voice in requests and logs.
pub open spec fn voice_name(v: Voice) -> Seq<char> {
    match v {
        Voice::Alloy => "alloy"@,
        Voice::Echo => "echo"@,
        Voice::Fable => "fable"@,
        Voice::Onyx => "onyx"@,
        Voice::Nova => "nova"@,
        Voice::Shimmer => "shimmer"@,
    }
}

/// The name of an audio format in requests.
pub open spec fn format_name(f: ResponseFormat) -> Seq<char> {
    match f {
        ResponseFormat::Mp3 => "mp3"@,
        ResponseFormat::Opus => "opus"@,
        ResponseFormat::Aac => "aac"@,
        ResponseFormat::Flac => "flac"@,
    }
}

impl Voice {
    /// The name of the voice (what it displays as).
    pub fn as_str(&self) -> (r: &'static str)
        ensures
            r@ == voice_name(*self),
    {
        match self {
            Voice::Alloy => "alloy",
            Voice::Echo => "echo",
            Voice::Fable => "fable",
            Voice::Onyx => "onyx",
            Voice::Nova => "nova",
            Voice::Shimmer => "shimmer",
        }
    }
}

impl ResponseFormat {
    /// The name of the format in requests.
    pub fn as_str(&self) -> (r: &'static str)
        ensures
            r@ == format_name(*self),
    {
        match self {
            ResponseFormat::Mp3 => "mp3",
            ResponseFormat::Opus => "opus",
            ResponseFormat::Aac => "aac",
            ResponseFormat::Flac => "flac",
        }
    }
}

/// A request for speech: the model, the text, the voice and the audio
/// format.
pub struct Request {
    pub model: String,
    pub input: String,
    pub voice: Voice,
    pub response_format: ResponseFormat,
}

impl Request {
    /// A request for MP3 speech.
    pub fn new(model: String, input: String, voice: Voice) -> (r: Self)
        ensures
            r.model == model,
            r.input == input,
            r.voice == voice,
            r.response_format == ResponseFormat::Mp3,
    {
        Request { model, input, voice, response_format: ResponseFormat::Mp3 }
    }

    /// The same request with another audio format.
    pub fn with_response_format(self, response_format: ResponseFormat) -> (r: Self)
        ensures
            r.model == self.model,
            r.input == self.input,
            r.voice == self.voice,
            r.response_format == response_format,
    {
        Request { response_format, ..self }
    }

    /// The request as it is sent: its text keeps only alphanumeric and
    /// whitespace characters.
    pub fn speakable(self) -> (r: Self)
        ensures
            r.model == self.model,
            r.input@ == keep_alnum_space(self.input@),
            r.voice == self.voice,
            r.response_format == self.response_format,
    {
        let chars = chars_of(self.input.as_str());
        let kept = keep_alnum_space_exec(chars.as_slice());
        Request { input: string_of(kept.as_slice()), ..self }
    }
}

} // verus!
