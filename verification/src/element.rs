//! The minimal EBML/Matroska tag-stream model: the closed set of element
//! identities the system understands, each either a scalar or a master
//! (container) element. A master element appears in one of three structural
//! modes: `Start` (children follow as separate events), `End` (close), or
//! `Full` (a complete subtree delivered as one value).
//!
//! Elements the system does not recognize are carried through under their
//! numeric EBML id with their payload untouched, so that a rewritten stream
//! preserves them exactly.

use vstd::prelude::*;

verus! {

/// Structural mode of a master element in the event stream.
#[derive(Debug, PartialEq, Eq)]
pub enum Mode {
    Start,
    End,
    Full(Vec<Element>),
}

/// One event of the tag stream.
#[derive(Debug, PartialEq, Eq)]
pub enum Element {
    /// Segment title (inside `Info`).
    Title(String),
    /// Segment duration. The payload is carried opaquely (the container's
    /// encoded value, preserved bit-for-bit); this core never computes on it.
    Duration(u64),
    PixelWidth(u64),
    PixelHeight(u64),
    DisplayWidth(u64),
    DisplayHeight(u64),
    TagName(String),
    TagString(String),
    Info(Mode),
    Tags(Mode),
    /// One `Tag` entry inside a `Tags` section.
    Tag(Mode),
    Targets(Mode),
    SimpleTag(Mode),
    Tracks(Mode),
    Chapters(Mode),
    Cluster(Mode),
    Cues(Mode),
    Attachments(Mode),
    /// Any other master element, by EBML id.
    MasterOther(u64, Mode),
    /// Any other unsigned-integer element, by EBML id.
    UintOther(u64, u64),
    /// Any other signed-integer element, by EBML id.
    IntOther(u64, i64),
    /// Any other float element, by EBML id; the payload is the raw bit
    /// pattern, preserved exactly and never computed on.
    FloatOther(u64, u64),
    /// Any other string or UTF-8 element, by EBML id.
    StringOther(u64, String),
    /// Any other binary element, by EBML id.
    BinaryOther(u64, Vec<u8>),
    /// An element delivered undecoded, by EBML id, with its raw payload.
    RawOther(u64, Vec<u8>),
}

/// Mathematical model of a `Mode`.
pub enum ModeV {
    Start,
    End,
    Full(Seq<ElemV>),
}

/// Mathematical model of an `Element`.
pub enum ElemV {
    Title(Seq<char>),
    Duration(u64),
    PixelWidth(u64),
    PixelHeight(u64),
    DisplayWidth(u64),
    DisplayHeight(u64),
    TagName(Seq<char>),
    TagString(Seq<char>),
    Info(ModeV),
    Tags(ModeV),
    Tag(ModeV),
    Targets(ModeV),
    SimpleTag(ModeV),
    Tracks(ModeV),
    Chapters(ModeV),
    Cluster(ModeV),
    Cues(ModeV),
    Attachments(ModeV),
    MasterOther(u64, ModeV),
    UintOther(u64, u64),
    IntOther(u64, i64),
    FloatOther(u64, u64),
    StringOther(u64, Seq<char>),
    BinaryOther(u64, Seq<u8>),
    RawOther(u64, Seq<u8>),
}

pub open spec fn mode_view(m: Mode) -> ModeV
    decreases m,
{
    match m {
        Mode::Start => ModeV::Start,
        Mode::End => ModeV::End,
        Mode::Full(kids) => ModeV::Full(
            Seq::new(
                kids.len() as nat,
                |i: int|
                    if 0 <= i < kids.len() {
                        elem_view(kids[i])
                    } else {
                        ElemV::Duration(0)
                    },
            ),
        ),
    }
}

pub open spec fn elem_view(e: Element) -> ElemV
    decreases e,
{
    match e {
        Element::Title(s) => ElemV::Title(s@),
        Element::Duration(d) => ElemV::Duration(d),
        Element::PixelWidth(v) => ElemV::PixelWidth(v),
        Element::PixelHeight(v) => ElemV::PixelHeight(v),
        Element::DisplayWidth(v) => ElemV::DisplayWidth(v),
        Element::DisplayHeight(v) => ElemV::DisplayHeight(v),
        Element::TagName(s) => ElemV::TagName(s@),
        Element::TagString(s) => ElemV::TagString(s@),
        Element::Info(m) => ElemV::Info(mode_view(m)),
        Element::Tags(m) => ElemV::Tags(mode_view(m)),
        Element::Tag(m) => ElemV::Tag(mode_view(m)),
        Element::Targets(m) => ElemV::Targets(mode_view(m)),
        Element::SimpleTag(m) => ElemV::SimpleTag(mode_view(m)),
        Element::Tracks(m) => ElemV::Tracks(mode_view(m)),
        Element::Chapters(m) => ElemV::Chapters(mode_view(m)),
        Element::Cluster(m) => ElemV::Cluster(mode_view(m)),
        Element::Cues(m) => ElemV::Cues(mode_view(m)),
        Element::Attachments(m) => ElemV::Attachments(mode_view(m)),
        Element::MasterOther(id, m) => ElemV::MasterOther(id, mode_view(m)),
        Element::UintOther(id, v) => ElemV::UintOther(id, v),
        Element::IntOther(id, v) => ElemV::IntOther(id, v),
        Element::FloatOther(id, v) => ElemV::FloatOther(id, v),
        Element::StringOther(id, s) => ElemV::StringOther(id, s@),
        Element::BinaryOther(id, b) => ElemV::BinaryOther(id, b@),
        Element::RawOther(id, b) => ElemV::RawOther(id, b@),
    }
}

impl DeepView for Mode {
    type V = ModeV;

    open spec fn deep_view(&self) -> ModeV {
        mode_view(*self)
    }
}

impl DeepView for Element {
    type V = ElemV;

    open spec fn deep_view(&self) -> ElemV {
        elem_view(*self)
    }
}

} // verus!
