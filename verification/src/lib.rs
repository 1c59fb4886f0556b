//! A small meeting scheduler: resolves a human-entered local time (fixed
//! UTC+8 offset) against a reference "now" into an absolute UTC instant,
//! and builds calendar-event requests carrying a video-conferencing link
//! request.

pub mod event;
pub mod time;

use vstd::prelude::*;

verus! {

} // verus!
