//! Verified core of a video-file organizer: a minimal EBML/Matroska tag-stream
//! model, a streaming metadata extractor, a resolution classifier, a filename
//! descriptor parser, and a streaming metadata injection engine that rewrites a
//! tag stream, merging a title and a fixed set of descriptive tags while
//! preserving every other element in order.

pub mod element;
pub mod extract;
pub mod filename;
pub mod inject;
pub mod laws;
pub mod magic;
pub mod strutil;
pub mod video;

use vstd::prelude::*;

verus! {

/// Effective vertical resolution of a (width, height) pair:
/// `max(width * 9 / 16, height)`, guarding against swapped or anamorphic
/// dimensions.
pub open spec fn spec_effective_vertical(width: u64, height: u64) -> int {
    let from_width = width * 9 / 16;
    if from_width > height {
        from_width as int
    } else {
        height as int
    }
}

/// What `classify` returns: the nearest standard tier when the effective
/// resolution lies within the ladder (ties go to the lower tier), the raw
/// effective resolution otherwise.
pub open spec fn spec_classify(width: u64, height: u64) -> int {
    let v = spec_effective_vertical(width, height);
    if 480 <= v <= 720 {
        if v - 480 > 720 - v { 720 } else { 480 }
    } else if 720 <= v <= 1080 {
        if v - 720 > 1080 - v { 1080 } else { 720 }
    } else if 1080 <= v <= 1440 {
        if v - 1080 > 1440 - v { 1440 } else { 1080 }
    } else if 1440 <= v <= 2160 {
        if v - 1440 > 2160 - v { 2160 } else { 1440 }
    } else if 2160 <= v <= 4320 {
        if v - 2160 > 4320 - v { 4320 } else { 2160 }
    } else {
        v
    }
}

/// Maps a raw (width, height) onto the canonical display tier: the nearest
/// rung of the fixed ladder {480, 720, 1080, 1440, 2160, 4320}, with exact
/// ties resolved to the lower rung; an effective resolution outside the
/// ladder is returned unchanged.
pub fn classify(width: u64, height: u64) -> (tier: u64)
    ensures
        tier == spec_classify(width, height),
{
    let from_width: u64 = ((width as u128) * 9 / 16) as u64;
    proof {
        assert((width as u128) * 9 / 16 < u64::MAX as u128) by (nonlinear_arith)
            requires width <= u64::MAX;
        assert((width as u128) * 9 / 16 == width * 9 / 16) by (nonlinear_arith)
            requires width <= u64::MAX;
    }
    let best: u64 = if from_width > height { from_width } else { height };
    if 480 <= best && best <= 720 {
        if best - 480 > 720 - best { 720 } else { 480 }
    } else if 720 <= best && best <= 1080 {
        if best - 720 > 1080 - best { 1080 } else { 720 }
    } else if 1080 <= best && best <= 1440 {
        if best - 1080 > 1440 - best { 1440 } else { 1080 }
    } else if 1440 <= best && best <= 2160 {
        if best - 1440 > 2160 - best { 2160 } else { 1440 }
    } else if 2160 <= best && best <= 4320 {
        if best - 2160 > 4320 - best { 4320 } else { 2160 }
    } else {
        best
    }
}

} // verus!
