//! RsLLM: text, caption and transport-stream logic of an AI stream analyzer,
//! with its behaviour stated in contracts and proved by Verus.

pub mod text;
pub mod tokens;
pub mod ts_payload;
pub mod speech_text;
pub mod openai_api;
pub mod numfmt;
pub mod hexdump;
pub mod mpegts;
pub mod stable_diffusion;
pub mod twitch_client;
pub mod openai_tts;
pub mod mimic3_tts;
pub mod images;
pub mod clock;
pub mod console;
pub mod pipeline;
pub mod candle_mistral;
pub mod ndi;
pub mod session;

pub use clock::current_unix_timestamp_ms;
pub use console::long_string_text;
pub use hexdump::{hexdump_ascii, hexdump_report};
pub use images::{convert_rgb_to_rgba, scale_image};
pub use speech_text::{adjust_caps, clean_tts_input};
pub use tokens::{count_tokens, truncate_tokens};

use vstd::prelude::*;

verus! {

/// The kind of statistics to fetch.
#[derive(Clone, Copy, Debug, PartialEq, Eq, Structural)]
pub enum StatsType {
    System,
}

} // verus!
