//! Option and property values that the embedded player is given.
use vstd::prelude::*;
use crate::text;
use crate::text::{push_char, push_decimal};

verus! {

/// The "start" option that begins playback at a track: "#n".
pub fn start_arg(track_no: u8) -> (r: String)
    ensures
        r@ == seq!['#'] + text::dec_chars(track_no as nat),
{
    let mut r = String::new();
    push_char(&mut r, '#');
    push_decimal(&mut r, track_no as u64);
    r
}

/// The "volume" property value: the volume capped at 100, in decimal.
pub fn volume_arg(vol: u8) -> (r: String)
    ensures
        r@ == text::dec_chars(if vol > 100 {
            100nat
        } else {
            vol as nat
        }),
{
    let v: u8 = if vol > 100 {
        100
    } else {
        vol
    };
    let mut r = String::new();
    push_decimal(&mut r, v as u64);
    assert(r@ =~= text::dec_chars(v as nat));
    r
}

/// The "pause" property value.
pub fn pause_arg(paused: bool) -> (r: &'static str)
    ensures
        r@ == (if paused {
            "yes"@
        } else {
            "no"@
        }),
{
    if paused {
        "yes"
    } else {
        "no"
    }
}

/// Whether an end-of-file event means the track list ended by itself
/// (reason 0, EOF) rather than by being stopped or failing.
pub fn ended_naturally(reason: i32) -> (r: bool)
    ensures
        r == (reason == 0),
{
    reason == 0
}

} // verus!
