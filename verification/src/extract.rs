//! The streaming metadata extractor: folds duration and picture dimensions
//! out of an EBML tag sequence, succeeding as soon as duration and one
//! pixel width/height pair are known, without consuming the rest of the
//! stream.

use vstd::prelude::*;

use crate::element::{elem_view, Element, ElemV};
use crate::video::Metadata;

verus! {

/// The extractor failed: the stream ended before duration and a pixel
/// width/height pair were all known. No partial result is fabricated.
#[derive(Debug, PartialEq, Eq)]
pub enum ExtractError {
    Incomplete,
}

impl ExtractError {
    /// A human-readable description.
    pub fn message(&self) -> (r: String)
        ensures
            r@ == "Unable to extract metadata"@,
    {
        "Unable to extract metadata".to_owned()
    }
}

/// The extractor's accumulator: every field the scan may fill.
pub struct MatroskaData {
    pub duration: Option<u64>,
    pub pixel_width: Option<u64>,
    pub pixel_height: Option<u64>,
    pub display_width: Option<u64>,
    pub display_height: Option<u64>,
}

/// The empty accumulator.
pub open spec fn spec_empty_data() -> MatroskaData {
    MatroskaData {
        duration: None,
        pixel_width: None,
        pixel_height: None,
        display_width: None,
        display_height: None,
    }
}

/// Whether the scan may stop: duration and both pixel dimensions known.
pub open spec fn spec_complete(st: MatroskaData) -> bool {
    st.duration is Some && st.pixel_width is Some && st.pixel_height is Some
}

/// One event folded into the accumulator: each recognized scalar fills its
/// own field, later occurrences replacing earlier ones; every other event
/// is ignored.
pub open spec fn spec_accept(st: MatroskaData, e: ElemV) -> MatroskaData {
    match e {
        ElemV::Duration(d) => MatroskaData { duration: Some(d), ..st },
        ElemV::PixelWidth(v) => MatroskaData { pixel_width: Some(v), ..st },
        ElemV::PixelHeight(v) => MatroskaData { pixel_height: Some(v), ..st },
        ElemV::DisplayWidth(v) => MatroskaData { display_width: Some(v), ..st },
        ElemV::DisplayHeight(v) => MatroskaData { display_height: Some(v), ..st },
        _ => st,
    }
}

/// The scan over a sequence, stopping at the first prefix that completes
/// the accumulator.
pub open spec fn spec_scan(st: MatroskaData, s: Seq<ElemV>) -> MatroskaData
    decreases s.len(),
{
    if s.len() == 0 || spec_complete(st) {
        st
    } else {
        spec_scan(spec_accept(st, s[0]), s.drop_first())
    }
}

/// What a complete accumulator reports: display dimensions, when both are
/// present, override the pixel dimensions; the duration is kept.
pub open spec fn spec_build(st: MatroskaData) -> Option<Metadata> {
    if !spec_complete(st) {
        None
    } else {
        let resolution: (u64, u64) = if st.display_width is Some && st.display_height is Some {
            (st.display_width->0, st.display_height->0)
        } else {
            (st.pixel_width->0, st.pixel_height->0)
        };
        Some(Metadata { resolution, length: Some(st.duration->0) })
    }
}

/// What extraction reports for a whole sequence.
pub open spec fn spec_extract(s: Seq<ElemV>) -> Option<Metadata> {
    spec_build(spec_scan(spec_empty_data(), s))
}

impl MatroskaData {
    /// The empty accumulator.
    pub fn new() -> (r: MatroskaData)
        ensures
            r == spec_empty_data(),
    {
        MatroskaData {
            duration: None,
            pixel_width: None,
            pixel_height: None,
            display_width: None,
            display_height: None,
        }
    }

    /// Whether duration and both pixel dimensions are known.
    pub fn is_complete(&self) -> (r: bool)
        ensures
            r == spec_complete(*self),
    {
        self.duration.is_some() && self.pixel_width.is_some() && self.pixel_height.is_some()
    }

    /// Folds one event into the accumulator.
    pub fn accept(&mut self, e: &Element)
        ensures
            *final(self) == spec_accept(*old(self), elem_view(*e)),
    {
        match e {
            Element::Duration(d) => {
                self.duration = Some(*d);
            },
            Element::PixelWidth(v) => {
                self.pixel_width = Some(*v);
            },
            Element::PixelHeight(v) => {
                self.pixel_height = Some(*v);
            },
            Element::DisplayWidth(v) => {
                self.display_width = Some(*v);
            },
            Element::DisplayHeight(v) => {
                self.display_height = Some(*v);
            },
            _ => {},
        }
    }

    /// What a complete accumulator reports; `None` when incomplete.
    pub fn build(self) -> (r: Option<Metadata>)
        ensures
            r == spec_build(self),
    {
        if !self.is_complete() {
            return None;
        }
        let resolution: (u64, u64) = match (self.display_width, self.display_height) {
            (Some(dw), Some(dh)) => (dw, dh),
            _ => (self.pixel_width.unwrap(), self.pixel_height.unwrap()),
        };
        Some(Metadata { resolution, length: Some(self.duration.unwrap()) })
    }
}

impl Metadata {
    /// Extracts duration and resolution from a tag sequence, reading no
    /// further than the first prefix that settles both; fails when the
    /// sequence ends before they are known.
    pub fn from_tags(tags: &Vec<Element>) -> (r: Result<Metadata, ExtractError>)
        ensures
            spec_extract(tags.deep_view()) matches Some(m) ==> r == Ok::<Metadata, ExtractError>(
                m,
            ),
            spec_extract(tags.deep_view()) is None ==> r == Err::<Metadata, ExtractError>(
                ExtractError::Incomplete,
            ),
    {
        let ghost dv = tags.deep_view();
        let mut data = MatroskaData::new();
        let n = tags.len();
        let mut i: usize = 0;
        proof {
            assert(dv.skip(0) =~= dv);
        }
        while i < n && !data.is_complete()
            invariant
                0 <= i <= n,
                n == tags.len(),
                dv == tags.deep_view(),
                spec_scan(spec_empty_data(), dv) == spec_scan(data, dv.skip(i as int)),
            decreases n - i,
        {
            data.accept(&tags[i]);
            proof {
                assert(dv.skip(i as int)[0] == dv[i as int]);
                assert(dv.skip(i as int).drop_first() =~= dv.skip(i as int + 1));
            }
            i += 1;
        }
        proof {
            if i == n {
                assert(dv.skip(n as int) =~= Seq::<ElemV>::empty());
            }
        }
        match data.build() {
            Some(m) => Ok(m),
            None => Err(ExtractError::Incomplete),
        }
    }
}


/// How many Duration events `s` carries.
pub open spec fn count_duration(s: Seq<ElemV>) -> int
    decreases s.len(),
{
    if s.len() == 0 {
        0
    } else {
        (if s[0] is Duration { 1int } else { 0int }) + count_duration(s.drop_first())
    }
}

/// How many PixelWidth events `s` carries.
pub open spec fn count_pixel_width(s: Seq<ElemV>) -> int
    decreases s.len(),
{
    if s.len() == 0 {
        0
    } else {
        (if s[0] is PixelWidth { 1int } else { 0int }) + count_pixel_width(s.drop_first())
    }
}

/// How many PixelHeight events `s` carries.
pub open spec fn count_pixel_height(s: Seq<ElemV>) -> int
    decreases s.len(),
{
    if s.len() == 0 {
        0
    } else {
        (if s[0] is PixelHeight { 1int } else { 0int }) + count_pixel_height(s.drop_first())
    }
}

proof fn lemma_scan_settles(st: MatroskaData, s: Seq<ElemV>, dur: u64, w: u64, h: u64)
    requires
        st.display_width is None,
        st.display_height is None,
        st.duration is None ==> count_duration(s) >= 1,
        st.duration matches Some(x) ==> x == dur,
        st.pixel_width is None ==> count_pixel_width(s) >= 1,
        st.pixel_width matches Some(x) ==> x == w,
        st.pixel_height is None ==> count_pixel_height(s) >= 1,
        st.pixel_height matches Some(x) ==> x == h,
        forall|i: int| 0 <= i < s.len() ==> (#[trigger] s[i] matches ElemV::Duration(x) ==> x == dur),
        forall|i: int| 0 <= i < s.len() ==> (#[trigger] s[i] matches ElemV::PixelWidth(x) ==> x == w),
        forall|i: int| 0 <= i < s.len() ==> (#[trigger] s[i] matches ElemV::PixelHeight(x) ==> x == h),
        forall|i: int| 0 <= i < s.len() ==> !(#[trigger] s[i] is DisplayWidth),
        forall|i: int| 0 <= i < s.len() ==> !(#[trigger] s[i] is DisplayHeight),
    ensures
        spec_build(spec_scan(st, s)) == Some(
            Metadata { resolution: (w, h), length: Some(dur) },
        ),
    decreases s.len(),
{
    if spec_complete(st) {
        assert(spec_scan(st, s) == st);
    } else {
        assert(s.len() > 0) by {
            if s.len() == 0 {
                assert(count_duration(s) == 0);
                assert(count_pixel_width(s) == 0);
                assert(count_pixel_height(s) == 0);
            }
        };
        let st1 = spec_accept(st, s[0]);
        let rest = s.drop_first();
        assert forall|i: int| 0 <= i < rest.len() implies (rest[i] matches ElemV::Duration(x)
            ==> x == dur) && (rest[i] matches ElemV::PixelWidth(x) ==> x == w) && (
        rest[i] matches ElemV::PixelHeight(x) ==> x == h) && !(rest[i] is DisplayWidth) && !(
        rest[i] is DisplayHeight) by {
            assert(rest[i] == s[i + 1]);
        }
        lemma_scan_settles(st1, rest, dur, w, h);
    }
}

/// Extraction is insensitive to the order events arrive in: any stream
/// carrying exactly one Duration, one PixelWidth and one PixelHeight (and
/// no display overrides) yields the same metadata, wherever they stand.
pub proof fn lemma_extract_order_independent(s: Seq<ElemV>, dur: u64, w: u64, h: u64)
    requires
        count_duration(s) >= 1,
        count_pixel_width(s) >= 1,
        count_pixel_height(s) >= 1,
        forall|i: int| 0 <= i < s.len() ==> (#[trigger] s[i] matches ElemV::Duration(x) ==> x == dur),
        forall|i: int| 0 <= i < s.len() ==> (#[trigger] s[i] matches ElemV::PixelWidth(x) ==> x == w),
        forall|i: int| 0 <= i < s.len() ==> (#[trigger] s[i] matches ElemV::PixelHeight(x) ==> x == h),
        forall|i: int| 0 <= i < s.len() ==> !(#[trigger] s[i] is DisplayWidth),
        forall|i: int| 0 <= i < s.len() ==> !(#[trigger] s[i] is DisplayHeight),
    ensures
        spec_extract(s) == Some(Metadata { resolution: (w, h), length: Some(dur) }),
{
    lemma_scan_settles(spec_empty_data(), s, dur, w, h);
}

proof fn lemma_count_duration_nonneg(s: Seq<ElemV>)
    ensures
        count_duration(s) >= 0,
    decreases s.len(),
{
    if s.len() > 0 {
        lemma_count_duration_nonneg(s.drop_first());
    }
}

proof fn lemma_scan_no_duration(st: MatroskaData, s: Seq<ElemV>)
    requires
        st.duration is None,
        count_duration(s) == 0,
    ensures
        spec_scan(st, s).duration is None,
    decreases s.len(),
{
    if s.len() > 0 && !spec_complete(st) {
        lemma_count_duration_nonneg(s.drop_first());
        assert(!(s[0] is Duration));
        assert(count_duration(s.drop_first()) == 0);
        lemma_scan_no_duration(spec_accept(st, s[0]), s.drop_first());
    }
}

/// A stream with no Duration event fails extraction, however many other
/// fields it carries.
pub proof fn lemma_extract_missing_duration(s: Seq<ElemV>)
    requires
        count_duration(s) == 0,
    ensures
        spec_extract(s) is None,
{
    lemma_scan_no_duration(spec_empty_data(), s);
}

} // verus!
