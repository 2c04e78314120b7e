//! Decisions of the NDI video and audio output.

use vstd::prelude::*;
use crate::text::str_equal;

verus! {

/// Integer division rounding toward zero, as Rust's `/` on `i32` does.
pub open spec fn div_trunc(a: int, b: int) -> int {
    if a >= 0 {
        a / b
    } else {
        -((-a) / b)
    }
}

/// The row at which subtitles start on a frame of the given height, for a
/// position name: 10 for "top", and otherwise the height less a half of a
/// half ("mid-top"), a half ("center" or "middle"), a third ("low-center"),
/// a quarter ("mid-bottom") or a fifth ("bottom") of it; any other name
/// falls back to the "low-center" row. Heights are taken as `i32`, as the
/// output does.
pub open spec fn subtitle_row(height: u32, position: Seq<char>) -> i32 {
    let h = (height as i32) as int;
    if position == "top"@ {
        10
    } else if position == "mid-top"@ {
        (h - div_trunc(div_trunc(h, 2), 2)) as i32
    } else if position == "center"@ || position == "middle"@ {
        (h - div_trunc(h, 2)) as i32
    } else if position == "low-center"@ {
        (h - div_trunc(h, 3)) as i32
    } else if position == "mid-bottom"@ {
        (h - div_trunc(h, 4)) as i32
    } else if position == "bottom"@ {
        (h - div_trunc(h, 5)) as i32
    } else {
        (h - div_trunc(h, 3)) as i32
    }
}

/// Whether the position name is one of the known ones.
pub open spec fn known_subtitle_position(position: Seq<char>) -> bool {
    position == "top"@ || position == "mid-top"@ || position == "center"@ || position == "middle"@
        || position == "low-center"@ || position == "mid-bottom"@ || position == "bottom"@
}

/// The row at which subtitles start (see `subtitle_row`), and whether the
/// position name was known (an unknown one is reported by the caller).
pub fn subtitle_start_row(height: u32, position: &str) -> (r: (i32, bool))
    ensures
        r.0 == subtitle_row(height, position@),
        r.1 == known_subtitle_position(position@),
{
    let h: i32 = #[verifier::truncate] (height as i32);
    if str_equal(position, "top") {
        (10, true)
    } else if str_equal(position, "mid-top") {
        (h - (h / 2) / 2, true)
    } else if str_equal(position, "center") || str_equal(position, "middle") {
        (h - h / 2, true)
    } else if str_equal(position, "low-center") {
        (h - h / 3, true)
    } else if str_equal(position, "mid-bottom") {
        (h - h / 4, true)
    } else if str_equal(position, "bottom") {
        (h - h / 5, true)
    } else {
        (h - h / 3, false)
    }
}

/// Whether an audio frame is sent: the sample rate lies in 8000 to 192000
/// Hz and the channel count in 1 to 16.
pub fn audio_format_supported(sample_rate: i32, no_channels: i32) -> (r: bool)
    ensures
        r == (8000 <= sample_rate <= 192000 && 1 <= no_channels <= 16),
{
    if sample_rate < 8000 || sample_rate > 192000 {
        return false;
    }
    if no_channels < 1 || no_channels > 16 {
        return false;
    }
    true
}

} // verus!
