//! The metadata injection engine: a single-pass state machine that rewrites
//! an EBML tag stream so that exactly one `Title` stands inside the `Info`
//! section, reserved descriptive tags are merged into the `Tags` section,
//! and every other element passes through unchanged in order.

use vstd::prelude::*;

use crate::element::{elem_view, mode_view, Element, ElemV, Mode, ModeV};
use crate::strutil::str_eq;

verus! {

/// The tag dictionary: the fixed, closed set of reserved descriptive keys.
/// An empty string means "do not emit this tag".
pub struct TagDict {
    pub title: String,
    pub date_released: String,
    pub comment: String,
    pub imdb: String,
    pub episode: String,
    pub season: String,
}

/// Mathematical model of a `TagDict`.
pub struct TagDictV {
    pub title: Seq<char>,
    pub date_released: Seq<char>,
    pub comment: Seq<char>,
    pub imdb: Seq<char>,
    pub episode: Seq<char>,
    pub season: Seq<char>,
}

impl DeepView for TagDict {
    type V = TagDictV;

    open spec fn deep_view(&self) -> TagDictV {
        TagDictV {
            title: self.title@,
            date_released: self.date_released@,
            comment: self.comment@,
            imdb: self.imdb@,
            episode: self.episode@,
            season: self.season@,
        }
    }
}

/// Whether `n` is one of the reserved tag names that the dictionary owns.
pub open spec fn is_reserved_name(n: Seq<char>) -> bool {
    ||| n == "TITLE"@
    ||| n == "DATE_RELEASED"@
    ||| n == "COMMENT"@
    ||| n == "IMDB"@
    ||| n == "EPISODE"@
    ||| n == "SEASON"@
}

/// Whether the string `n` is a reserved tag name.
pub fn is_reserved(n: &str) -> (r: bool)
    ensures
        r == is_reserved_name(n@),
{
    str_eq(n, "TITLE") || str_eq(n, "DATE_RELEASED") || str_eq(n, "COMMENT") || str_eq(n, "IMDB")
        || str_eq(n, "EPISODE") || str_eq(n, "SEASON")
}

/// The value of the first `TagName` child, if any.
pub open spec fn first_tag_name(kids: Seq<ElemV>) -> Option<Seq<char>>
    decreases kids.len(),
{
    if kids.len() == 0 {
        None
    } else {
        match kids[0] {
            ElemV::TagName(n) => Some(n),
            _ => first_tag_name(kids.drop_first()),
        }
    }
}

/// Whether some child is a `TagString`.
pub open spec fn has_tag_string(kids: Seq<ElemV>) -> bool
    decreases kids.len(),
{
    if kids.len() == 0 {
        false
    } else {
        kids[0] is TagString || has_tag_string(kids.drop_first())
    }
}

/// Whether a `SimpleTag` subtree with children `kids` survives the merge:
/// it carries a name/string pair and its name does not collide with a
/// reserved dictionary key.
pub open spec fn spec_keep_simple(kids: Seq<ElemV>) -> bool {
    match first_tag_name(kids) {
        Some(n) => has_tag_string(kids) && !is_reserved_name(n),
        None => false,
    }
}

/// Whether the element survives the merge inside a `Tag` entry: `SimpleTag`
/// subtrees are filtered, every other child is preserved.
pub open spec fn spec_keep_child(e: ElemV) -> bool {
    match e {
        ElemV::SimpleTag(m) => match m {
            ModeV::Full(kids) => spec_keep_simple(kids),
            _ => false,
        },
        _ => true,
    }
}

/// A complete `SimpleTag` subtree carrying one name/value pair.
pub open spec fn simple_tag_v(name: Seq<char>, value: Seq<char>) -> ElemV {
    ElemV::SimpleTag(ModeV::Full(seq![ElemV::TagName(name), ElemV::TagString(value)]))
}

/// One dictionary tag, or nothing when its value is empty (an empty value
/// suppresses the tag).
pub open spec fn opt_tag(name: Seq<char>, value: Seq<char>) -> Seq<ElemV> {
    if value.len() > 0 {
        seq![simple_tag_v(name, value)]
    } else {
        Seq::empty()
    }
}

/// The `SimpleTag` subtrees emitted for the dictionary: one per non-empty
/// value, in the fixed emission order.
pub open spec fn block_tags(d: TagDictV) -> Seq<ElemV> {
    opt_tag("TITLE"@, d.title) + opt_tag("DATE_RELEASED"@, d.date_released) + opt_tag(
        "COMMENT"@,
        d.comment,
    ) + opt_tag("IMDB"@, d.imdb) + opt_tag("EPISODE"@, d.episode) + opt_tag("SEASON"@, d.season)
}

/// The children of the engine's own `Tag` entry: an empty `Targets` scope
/// (the tags apply to the whole file) followed by the dictionary's tags.
pub open spec fn block_children(d: TagDictV) -> Seq<ElemV> {
    seq![ElemV::Targets(ModeV::Full(Seq::empty()))] + block_tags(d)
}

/// The engine's own `Tag` entry, complete.
pub open spec fn block_entry(d: TagDictV) -> Seq<ElemV> {
    seq![ElemV::Tag(ModeV::Start)] + block_children(d) + seq![ElemV::Tag(ModeV::End)]
}

/// What the engine appends at the end of a `Tags` section: its own entry,
/// or nothing when every dictionary value is empty.
pub open spec fn spec_block(d: TagDictV) -> Seq<ElemV> {
    if block_tags(d).len() == 0 {
        Seq::empty()
    } else {
        block_entry(d)
    }
}

/// `kids` with every `Title` removed.
pub open spec fn filter_titles(kids: Seq<ElemV>) -> Seq<ElemV>
    decreases kids.len(),
{
    if kids.len() == 0 {
        Seq::empty()
    } else {
        let rest = filter_titles(kids.drop_last());
        if kids.last() is Title {
            rest
        } else {
            rest.push(kids.last())
        }
    }
}

/// Whether this event is the start of a section whose arrival forces the
/// synthesized `Info` to be emitted first.
pub open spec fn is_trigger_start(e: ElemV) -> bool {
    ||| e == ElemV::Tracks(ModeV::Start)
    ||| e == ElemV::Chapters(ModeV::Start)
    ||| e == ElemV::Cluster(ModeV::Start)
    ||| e == ElemV::Cues(ModeV::Start)
    ||| e == ElemV::Attachments(ModeV::Start)
    ||| e == ElemV::Tags(ModeV::Start)
}

/// The engine's scanning state.
pub struct EngineState {
    /// An `Info` section holding the title has been emitted.
    pub info_written: bool,
    /// A merged `Tags` section has been emitted.
    pub tags_written: bool,
    /// Scanning inside an `Info` section.
    pub in_info: bool,
    /// Scanning inside a `Tags` section.
    pub in_tags: bool,
    /// Scanning inside one `Tag` entry.
    pub in_tag: bool,
    /// Children of the current `Tag` entry that survive the merge so far.
    pub entry_buf: Seq<ElemV>,
    /// Whether any `SimpleTag` of the current entry survived.
    pub entry_kept: bool,
}

/// The engine's initial state.
pub open spec fn init_state() -> EngineState {
    EngineState {
        info_written: false,
        tags_written: false,
        in_info: false,
        in_tags: false,
        in_tag: false,
        entry_buf: Seq::empty(),
        entry_kept: false,
    }
}

/// The synthesized `Info` section holding only the title.
pub open spec fn synth_info(t: Seq<char>) -> ElemV {
    ElemV::Info(ModeV::Full(seq![ElemV::Title(t)]))
}

/// One transition of the injection engine: from state and event to next
/// state and emitted events.
pub open spec fn spec_step(st: EngineState, e: ElemV, t: Seq<char>, d: TagDictV) -> (
    EngineState,
    Seq<ElemV>,
) {
    match e {
        ElemV::Info(mode) => match mode {
            ModeV::Start => (EngineState { in_info: true, ..st }, seq![e]),
            ModeV::End => (
                EngineState { in_info: false, info_written: true, ..st },
                seq![ElemV::Title(t), e],
            ),
            ModeV::Full(kids) => (
                EngineState { info_written: true, ..st },
                seq![ElemV::Info(ModeV::Full(filter_titles(kids) + seq![ElemV::Title(t)]))],
            ),
        },
        _ => {
            let (st0, pre) = if is_trigger_start(e) && !st.info_written {
                (EngineState { info_written: true, ..st }, seq![synth_info(t)])
            } else {
                (st, Seq::<ElemV>::empty())
            };
            spec_step_rest(st0, e, d, pre)
        },
    }
}

/// The transitions past the `Info` handling and the synthesis check.
pub open spec fn spec_step_rest(st: EngineState, e: ElemV, d: TagDictV, pre: Seq<ElemV>) -> (
    EngineState,
    Seq<ElemV>,
) {
    if e == ElemV::Tags(ModeV::Start) {
        (EngineState { in_tags: true, ..st }, pre + seq![e])
    } else if e == ElemV::Tags(ModeV::End) {
        (
            EngineState {
                in_tags: false,
                in_tag: false,
                tags_written: true,
                entry_buf: Seq::empty(),
                entry_kept: false,
                ..st
            },
            pre + spec_block(d) + seq![e],
        )
    } else if st.in_info {
        if e is Title {
            (st, pre)
        } else {
            (st, pre + seq![e])
        }
    } else if st.in_tags {
        if e == ElemV::Tag(ModeV::Start) {
            (
                EngineState { in_tag: true, entry_buf: Seq::empty(), entry_kept: false, ..st },
                pre,
            )
        } else if e == ElemV::Tag(ModeV::End) {
            let flushed: Seq<ElemV> = if st.entry_kept {
                seq![ElemV::Tag(ModeV::Start)] + st.entry_buf + seq![ElemV::Tag(ModeV::End)]
            } else {
                Seq::empty()
            };
            (
                EngineState { in_tag: false, entry_buf: Seq::empty(), entry_kept: false, ..st },
                pre + flushed,
            )
        } else if st.in_tag {
            if e is SimpleTag {
                if spec_keep_child(e) {
                    (
                        EngineState {
                            entry_buf: st.entry_buf.push(e),
                            entry_kept: true,
                            ..st
                        },
                        pre,
                    )
                } else {
                    (st, pre)
                }
            } else {
                (EngineState { entry_buf: st.entry_buf.push(e), ..st }, pre)
            }
        } else {
            (st, pre + seq![e])
        }
    } else {
        (st, pre + seq![e])
    }
}

/// The engine folded over a whole event sequence.
pub open spec fn spec_run(st: EngineState, s: Seq<ElemV>, t: Seq<char>, d: TagDictV) -> (
    EngineState,
    Seq<ElemV>,
)
    decreases s.len(),
{
    if s.len() == 0 {
        (st, Seq::empty())
    } else {
        let (st1, out1) = spec_step(st, s[0], t, d);
        let (st2, out2) = spec_run(st1, s.drop_first(), t, d);
        (st2, out1 + out2)
    }
}

/// What the engine emits after the last event: a fresh `Tags` section with
/// its own entry, when no `Tags` section was seen and the dictionary has
/// something to say.
pub open spec fn spec_finish(st: EngineState, d: TagDictV) -> Seq<ElemV> {
    if !st.tags_written && spec_block(d).len() > 0 {
        seq![ElemV::Tags(ModeV::Start)] + spec_block(d) + seq![ElemV::Tags(ModeV::End)]
    } else {
        Seq::empty()
    }
}

/// The complete rewrite: the engine run from its initial state over the
/// whole source sequence, with the trailing `Tags` section appended when
/// owed.
pub open spec fn spec_inject(s: Seq<ElemV>, t: Seq<char>, d: TagDictV) -> Seq<ElemV> {
    let (st, out) = spec_run(init_state(), s, t, d);
    out + spec_finish(st, d)
}

/// Bridges the view of a `Full` mode to the deep view of its children.
pub broadcast proof fn lemma_mode_view_full(kids: Vec<Element>)
    ensures
        #[trigger] mode_view(Mode::Full(kids)) == ModeV::Full(kids.deep_view()),
{
    assert(mode_view(Mode::Full(kids))->Full_0 =~= kids.deep_view());
}

/// Running the engine over `a + b` is running it over `a`, then over `b`
/// from the reached state.
pub proof fn lemma_run_add(st: EngineState, a: Seq<ElemV>, b: Seq<ElemV>, t: Seq<char>, d: TagDictV)
    ensures
        spec_run(st, a + b, t, d) == {
            let (st1, o1) = spec_run(st, a, t, d);
            let (st2, o2) = spec_run(st1, b, t, d);
            (st2, o1 + o2)
        },
    decreases a.len(),
{
    let (st1, o1) = spec_run(st, a, t, d);
    let (st2, o2) = spec_run(st1, b, t, d);
    if a.len() == 0 {
        assert(a + b =~= b);
        assert(o1 + o2 =~= o2);
    } else {
        let (sth, oh) = spec_step(st, a[0], t, d);
        assert((a + b)[0] == a[0]);
        assert((a + b).drop_first() =~= a.drop_first() + b);
        lemma_run_add(sth, a.drop_first(), b, t, d);
        let (stm, om) = spec_run(sth, a.drop_first(), t, d);
        assert(oh + (om + o2) =~= (oh + om) + o2);
    }
}

/// Running the engine over `s.push(e)` appends one step to the run over `s`.
pub proof fn lemma_run_push(st: EngineState, s: Seq<ElemV>, e: ElemV, t: Seq<char>, d: TagDictV)
    ensures
        spec_run(st, s.push(e), t, d) == {
            let (st1, o1) = spec_run(st, s, t, d);
            let (st2, o2) = spec_step(st1, e, t, d);
            (st2, o1 + o2)
        },
{
    assert(s.push(e) =~= s + seq![e]);
    lemma_run_add(st, s, seq![e], t, d);
    let (st1, o1) = spec_run(st, s, t, d);
    let (st2, o2) = spec_step(st1, e, t, d);
    assert(seq![e][0] == e);
    assert(seq![e].drop_first() =~= Seq::<ElemV>::empty());
    assert(spec_run(st2, seq![e].drop_first(), t, d) == (st2, Seq::<ElemV>::empty()));
    assert(o2 + Seq::<ElemV>::empty() =~= o2);
    assert(o1 + (o2 + Seq::<ElemV>::empty()) =~= o1 + o2);
}

/// Whether a `SimpleTag` with these children survives the merge.
fn keep_simple_exec(kids: &Vec<Element>) -> (r: bool)
    ensures
        r == spec_keep_simple(kids.deep_view()),
{
    let ghost dv = kids.deep_view();
    let n = kids.len();
    let mut name_reserved: bool = false;
    let mut name_found: bool = false;
    let mut i: usize = 0;
    proof {
        assert(dv.skip(0) =~= dv);
    }
    while i < n && !name_found
        invariant
            0 <= i <= n,
            n == kids.len(),
            dv == kids.deep_view(),
            first_tag_name(dv) == first_tag_name(dv.skip(i as int)),
            name_found ==> i < n && (dv[i as int] matches ElemV::TagName(m) && first_tag_name(dv)
                == Some(m) && name_reserved == is_reserved_name(m)),
            !name_found ==> forall|j: int| 0 <= j < i ==> !(dv[j] is TagName),
        decreases n - i, (if name_found { 0int } else { 1int }),
    {
        match &kids[i] {
            Element::TagName(s) => {
                name_found = true;
                name_reserved = is_reserved(s.as_str());
                proof {
                    assert(dv.skip(i as int)[0] == dv[i as int]);
                }
            },
            _ => {
                proof {
                    assert(dv.skip(i as int)[0] == dv[i as int]);
                    assert(dv.skip(i as int).drop_first() =~= dv.skip(i as int + 1));
                }
                i += 1;
            },
        }
    }
    if !name_found {
        proof {
            assert(dv.skip(n as int) =~= Seq::<ElemV>::empty());
        }
        return false;
    }
    if name_reserved {
        return false;
    }
    let mut has_string: bool = false;
    let mut j: usize = 0;
    proof {
        assert(dv.skip(0) =~= dv);
    }
    while j < n && !has_string
        invariant
            0 <= j <= n,
            n == kids.len(),
            dv == kids.deep_view(),
            has_tag_string(dv) == has_tag_string(dv.skip(j as int)),
            has_string ==> has_tag_string(dv),
        decreases n - j, (if has_string { 0int } else { 1int }),
    {
        match &kids[j] {
            Element::TagString(_) => {
                has_string = true;
                proof {
                    assert(dv.skip(j as int)[0] == dv[j as int]);
                }
            },
            _ => {
                proof {
                    assert(dv.skip(j as int)[0] == dv[j as int]);
                    assert(dv.skip(j as int).drop_first() =~= dv.skip(j as int + 1));
                }
                j += 1;
            },
        }
    }
    proof {
        if !has_string {
            assert(dv.skip(n as int) =~= Seq::<ElemV>::empty());
        }
    }
    has_string
}

/// `kids` with every `Title` removed.
fn filter_titles_exec(kids: Vec<Element>) -> (r: Vec<Element>)
    ensures
        r.deep_view() == filter_titles(kids.deep_view()),
{
    let ghost orig = kids.deep_view();
    let mut rest = kids;
    let mut acc: Vec<Element> = Vec::new();
    let ghost mut processed: Seq<ElemV> = Seq::empty();
    proof {
        assert(orig =~= processed + rest.deep_view());
        assert(acc.deep_view() =~= filter_titles(processed));
    }
    while rest.len() > 0
        invariant
            orig == processed + rest.deep_view(),
            acc.deep_view() == filter_titles(processed),
        decreases rest.len(),
    {
        let ghost restv0 = rest.deep_view();
        let x = rest.remove(0);
        let ghost xv = elem_view(x);
        proof {
            assert(rest.deep_view() =~= restv0.drop_first());
            assert(restv0[0] == xv);
        }
        let keep: bool = match &x {
            Element::Title(_) => false,
            _ => true,
        };
        if keep {
            acc.push(x);
        }
        proof {
            let p1 = processed.push(xv);
            assert(p1.drop_last() =~= processed);
            assert(p1.last() == xv);
            processed = p1;
            assert(orig =~= processed + rest.deep_view());
            assert(acc.deep_view() =~= filter_titles(processed));
        }
    }
    proof {
        assert(processed =~= orig);
    }
    acc
}

/// One complete `SimpleTag` subtree carrying a name/value pair.
fn simple_tag_exec(name: &str, value: &String) -> (r: Element)
    ensures
        elem_view(r) == simple_tag_v(name@, value@),
{
    broadcast use lemma_mode_view_full;

    let mut kids: Vec<Element> = Vec::new();
    kids.push(Element::TagName(name.to_owned()));
    kids.push(Element::TagString(value.clone()));
    proof {
        lemma_mode_view_full(kids);
        assert(kids.deep_view() =~= seq![ElemV::TagName(name@), ElemV::TagString(value@)]);
    }
    Element::SimpleTag(Mode::Full(kids))
}

/// Appends the dictionary tag for one key, when its value is non-empty.
fn push_opt_tag(out: &mut Vec<Element>, name: &str, value: &String)
    ensures
        final(out).deep_view() == old(out).deep_view() + opt_tag(name@, value@),
{
    if !value.as_str().is_empty() {
        let e = simple_tag_exec(name, value);
        out.push(e);
        proof {
            assert(out.deep_view() =~= old(out).deep_view() + opt_tag(name@, value@));
        }
    } else {
        proof {
            assert(out.deep_view() =~= old(out).deep_view() + opt_tag(name@, value@));
        }
    }
}

/// Whether every dictionary value is empty, so that the engine owes no tag
/// block at all.
fn dict_is_empty(d: &TagDict) -> (r: bool)
    ensures
        r == (block_tags(d.deep_view()).len() == 0),
{
    d.title.as_str().is_empty() && d.date_released.as_str().is_empty()
        && d.comment.as_str().is_empty() && d.imdb.as_str().is_empty()
        && d.episode.as_str().is_empty() && d.season.as_str().is_empty()
}

/// Appends the engine's own `Tag` entry for the dictionary, or nothing when
/// every value is empty.
#[verifier::rlimit(100)]
fn push_block(out: &mut Vec<Element>, d: &TagDict)
    ensures
        final(out).deep_view() == old(out).deep_view() + spec_block(d.deep_view()),
{
    broadcast use lemma_mode_view_full;

    let ghost out0 = old(out).deep_view();
    if dict_is_empty(d) {
        proof {
            assert(out.deep_view() =~= out0 + spec_block(d.deep_view()));
        }
        return ;
    }
    out.push(Element::Tag(Mode::Start));
    let empty_kids: Vec<Element> = Vec::new();
    proof {
        lemma_mode_view_full(empty_kids);
        assert(empty_kids.deep_view() =~= Seq::<ElemV>::empty());
    }
    out.push(Element::Targets(Mode::Full(empty_kids)));
    proof {
        assert(out.deep_view() =~= out0 + seq![
            ElemV::Tag(ModeV::Start),
            ElemV::Targets(ModeV::Full(Seq::<ElemV>::empty())),
        ]);
    }
    let ghost head = out0 + seq![
        ElemV::Tag(ModeV::Start),
        ElemV::Targets(ModeV::Full(Seq::<ElemV>::empty())),
    ];
    push_opt_tag(out, "TITLE", &d.title);
    proof {
        assert(out.deep_view() =~= head + opt_tag("TITLE"@, d.deep_view().title));
    }
    push_opt_tag(out, "DATE_RELEASED", &d.date_released);
    proof {
        assert(out.deep_view() =~= head + (opt_tag("TITLE"@, d.deep_view().title) + opt_tag(
            "DATE_RELEASED"@,
            d.deep_view().date_released,
        )));
    }
    push_opt_tag(out, "COMMENT", &d.comment);
    push_opt_tag(out, "IMDB", &d.imdb);
    push_opt_tag(out, "EPISODE", &d.episode);
    push_opt_tag(out, "SEASON", &d.season);
    proof {
        assert(out.deep_view() =~= head + block_tags(d.deep_view()));
    }
    out.push(Element::Tag(Mode::End));
    proof {
        broadcast use vstd::seq_lib::group_seq_properties;

        let dv = d.deep_view();
        assert(out.deep_view() =~= head + block_tags(dv) + seq![ElemV::Tag(ModeV::End)]);
        assert(spec_block(dv) =~= seq![
            ElemV::Tag(ModeV::Start),
            ElemV::Targets(ModeV::Full(Seq::<ElemV>::empty())),
        ] + block_tags(dv) + seq![ElemV::Tag(ModeV::End)]);
        assert(out.deep_view() =~= out0 + spec_block(dv));
    }
}

/// Whether this event forces the synthesized `Info` section out first.
fn is_trigger(e: &Element) -> (r: bool)
    ensures
        r == is_trigger_start(elem_view(*e)),
{
    match e {
        Element::Tracks(Mode::Start) => true,
        Element::Chapters(Mode::Start) => true,
        Element::Cluster(Mode::Start) => true,
        Element::Cues(Mode::Start) => true,
        Element::Attachments(Mode::Start) => true,
        Element::Tags(Mode::Start) => true,
        _ => false,
    }
}

/// The injection engine: feed it the source events one at a time with
/// [`Engine::step`], then call [`Engine::finish`] once after the last one.
/// Emitted output events accumulate in the `Vec` handed to each call, so a
/// caller can forward them to a sink in lock-step with the source.
pub struct Engine {
    /// The canonical title to place inside `Info`.
    pub title: String,
    /// The reserved descriptive tags to merge into `Tags`.
    pub dict: TagDict,
    /// An `Info` section holding the title has been emitted.
    pub info_written: bool,
    /// A merged `Tags` section has been emitted.
    pub tags_written: bool,
    /// Scanning inside an `Info` section.
    pub in_info: bool,
    /// Scanning inside a `Tags` section.
    pub in_tags: bool,
    /// Scanning inside one `Tag` entry.
    pub in_tag: bool,
    /// Children of the current `Tag` entry that survive the merge so far.
    pub entry_buf: Vec<Element>,
    /// Whether any `SimpleTag` of the current entry survived.
    pub entry_kept: bool,
}

impl Engine {
    /// The abstract scanning state of the engine.
    pub open spec fn st(self) -> EngineState {
        EngineState {
            info_written: self.info_written,
            tags_written: self.tags_written,
            in_info: self.in_info,
            in_tags: self.in_tags,
            in_tag: self.in_tag,
            entry_buf: self.entry_buf.deep_view(),
            entry_kept: self.entry_kept,
        }
    }

    /// A fresh engine for one pass over one source.
    pub fn new(title: String, dict: TagDict) -> (r: Engine)
        ensures
            r.st() == init_state(),
            r.title == title,
            r.dict == dict,
    {
        let r = Engine {
            title,
            dict,
            info_written: false,
            tags_written: false,
            in_info: false,
            in_tags: false,
            in_tag: false,
            entry_buf: Vec::new(),
            entry_kept: false,
        };
        proof {
            assert(r.st().entry_buf =~= init_state().entry_buf);
        }
        r
    }

    /// Consumes one source event and appends whatever the engine emits for
    /// it to `out`.
    #[verifier::rlimit(100)]
    pub fn step(&mut self, e: Element, out: &mut Vec<Element>)
        ensures
            ({
                let (st1, o) = spec_step(
                    old(self).st(),
                    elem_view(e),
                    old(self).title@,
                    old(self).dict.deep_view(),
                );
                &&& final(self).st() == st1
                &&& final(out).deep_view() == old(out).deep_view() + o
                &&& final(self).title == old(self).title
                &&& final(self).dict == old(self).dict
            }),
    {
        broadcast use lemma_mode_view_full;
        broadcast use vstd::seq_lib::group_seq_properties;

        let ghost st0 = old(self).st();
        let ghost ev = elem_view(e);
        let ghost t = old(self).title@;
        let ghost dv = old(self).dict.deep_view();
        let ghost out0 = old(out).deep_view();
        let e = match e {
            Element::Info(mode) => {
                match mode {
                    Mode::Start => {
                        self.in_info = true;
                        out.push(Element::Info(Mode::Start));
                        proof {
                            assert(out.deep_view() =~= out0 + spec_step(st0, ev, t, dv).1);
                        }
                    },
                    Mode::End => {
                        self.in_info = false;
                        self.info_written = true;
                        out.push(Element::Title(self.title.clone()));
                        out.push(Element::Info(Mode::End));
                        proof {
                            assert(out.deep_view() =~= out0 + spec_step(st0, ev, t, dv).1);
                        }
                    },
                    Mode::Full(kids) => {
                        self.info_written = true;
                        let ghost kidsv = kids.deep_view();
                        let mut filtered = filter_titles_exec(kids);
                        filtered.push(Element::Title(self.title.clone()));
                        proof {
                            lemma_mode_view_full(filtered);
                            assert(filtered.deep_view() =~= filter_titles(kidsv) + seq![
                                ElemV::Title(t),
                            ]);
                        }
                        out.push(Element::Info(Mode::Full(filtered)));
                        proof {
                            assert(ev->Info_0->Full_0 =~= kidsv);
                            assert(out.deep_view() =~= out0 + spec_step(st0, ev, t, dv).1);
                        }
                    },
                }
                return ;
            },
            other => other,
        };
        let ghost pre: Seq<ElemV> = if is_trigger_start(ev) && !st0.info_written {
            seq![synth_info(t)]
        } else {
            Seq::empty()
        };
        if is_trigger(&e) && !self.info_written {
            self.info_written = true;
            let mut kids: Vec<Element> = Vec::new();
            kids.push(Element::Title(self.title.clone()));
            proof {
                lemma_mode_view_full(kids);
                assert(kids.deep_view() =~= seq![ElemV::Title(t)]);
            }
            out.push(Element::Info(Mode::Full(kids)));
        }
        proof {
            assert(out.deep_view() =~= out0 + pre);
        }
        let ghost stp = self.st();
        match e {
            Element::Tags(Mode::Start) => {
                self.in_tags = true;
                out.push(Element::Tags(Mode::Start));
                proof {
                    assert(out.deep_view() =~= out0 + (pre + seq![ev]));
                }
            },
            Element::Tags(Mode::End) => {
                self.in_tags = false;
                self.in_tag = false;
                self.tags_written = true;
                self.entry_buf = Vec::new();
                self.entry_kept = false;
                push_block(out, &self.dict);
                let ghost om = out.deep_view();
                out.push(Element::Tags(Mode::End));
                proof {
                    assert(self.st().entry_buf =~= Seq::<ElemV>::empty());
                    assert(self.dict == old(self).dict);
                    assert(om == (out0 + pre) + spec_block(dv));
                    assert(out.deep_view() =~= om + seq![ElemV::Tags(ModeV::End)]);
                    assert(ev == ElemV::Tags(ModeV::End));
                    assert(out.deep_view() =~= out0 + (pre + spec_block(dv) + seq![ev]));
                }
            },
            e => {
                if self.in_info {
                    let keep: bool = match &e {
                        Element::Title(_) => false,
                        _ => true,
                    };
                    if keep {
                        out.push(e);
                        proof {
                            assert(out.deep_view() =~= out0 + (pre + seq![ev]));
                        }
                    }
                } else if self.in_tags {
                    match e {
                        Element::Tag(Mode::Start) => {
                            self.in_tag = true;
                            self.entry_buf = Vec::new();
                            self.entry_kept = false;
                            proof {
                                assert(self.st().entry_buf =~= Seq::<ElemV>::empty());
                            }
                        },
                        Element::Tag(Mode::End) => {
                            if self.entry_kept {
                                out.push(Element::Tag(Mode::Start));
                                out.append(&mut self.entry_buf);
                                out.push(Element::Tag(Mode::End));
                                proof {
                                    assert(out.deep_view() =~= out0 + (pre + (seq![
                                        ElemV::Tag(ModeV::Start),
                                    ] + stp.entry_buf + seq![ElemV::Tag(ModeV::End)])));
                                }
                            } else {
                                self.entry_buf = Vec::new();
                            }
                            self.in_tag = false;
                            self.entry_kept = false;
                            proof {
                                assert(self.st().entry_buf =~= Seq::<ElemV>::empty());
                            }
                        },
                        e => {
                            if self.in_tag {
                                match e {
                                    Element::SimpleTag(m) => {
                                        match m {
                                            Mode::Full(kids) => {
                                                proof {
                                                    lemma_mode_view_full(kids);
                                                }
                                                if keep_simple_exec(&kids) {
                                                    self.entry_buf.push(
                                                        Element::SimpleTag(Mode::Full(kids)),
                                                    );
                                                    self.entry_kept = true;
                                                    proof {
                                                        assert(self.st().entry_buf
                                                            =~= stp.entry_buf.push(ev));
                                                    }
                                                }
                                            },
                                            _ => {},
                                        }
                                    },
                                    e => {
                                        self.entry_buf.push(e);
                                        proof {
                                            assert(self.st().entry_buf =~= stp.entry_buf.push(
                                                ev,
                                            ));
                                        }
                                    },
                                }
                            } else {
                                out.push(e);
                                proof {
                                    assert(out.deep_view() =~= out0 + (pre + seq![ev]));
                                }
                            }
                        },
                    }
                } else {
                    out.push(e);
                    proof {
                        assert(out.deep_view() =~= out0 + (pre + seq![ev]));
                    }
                }
            },
        }
    }

    /// Appends what the engine owes after the last source event: a fresh
    /// `Tags` section when none was seen and the dictionary is non-empty.
    #[verifier::rlimit(100)]
    pub fn finish(&self, out: &mut Vec<Element>)
        ensures
            final(out).deep_view() == old(out).deep_view() + spec_finish(
                self.st(),
                self.dict.deep_view(),
            ),
    {
        broadcast use vstd::seq_lib::group_seq_properties;

        let ghost out0 = old(out).deep_view();
        if !self.tags_written && !dict_is_empty(&self.dict) {
            out.push(Element::Tags(Mode::Start));
            let ghost oa = out.deep_view();
            push_block(out, &self.dict);
            let ghost ob = out.deep_view();
            out.push(Element::Tags(Mode::End));
            proof {
                assert(oa =~= out0 + seq![ElemV::Tags(ModeV::Start)]);
                assert(ob == oa + spec_block(self.dict.deep_view()));
                assert(out.deep_view() =~= ob + seq![ElemV::Tags(ModeV::End)]);
                assert(out.deep_view() =~= out0 + spec_finish(self.st(), self.dict.deep_view()));
            }
        } else {
            proof {
                assert(out.deep_view() =~= out0 + spec_finish(self.st(), self.dict.deep_view()));
            }
        }
    }
}

/// Rewrites a complete tag sequence: the engine run over every event, with
/// the trailing `Tags` section appended when owed.
pub fn inject(src: Vec<Element>, title: String, dict: TagDict) -> (out: Vec<Element>)
    ensures
        out.deep_view() == spec_inject(src.deep_view(), title@, dict.deep_view()),
{
    let ghost t = title@;
    let ghost dv = dict.deep_view();
    let ghost orig = src.deep_view();
    let mut eng = Engine::new(title, dict);
    let mut out: Vec<Element> = Vec::new();
    let mut rest = src;
    let ghost mut consumed: Seq<ElemV> = Seq::empty();
    proof {
        assert(orig =~= consumed + rest.deep_view());
        assert(out.deep_view() =~= Seq::<ElemV>::empty());
        assert(spec_run(init_state(), consumed, t, dv) == (init_state(), Seq::<ElemV>::empty()));
    }
    while rest.len() > 0
        invariant
            orig == consumed + rest.deep_view(),
            eng.title@ == t,
            eng.dict.deep_view() == dv,
            spec_run(init_state(), consumed, t, dv) == (eng.st(), out.deep_view()),
        decreases rest.len(),
    {
        let ghost restv0 = rest.deep_view();
        let x = rest.remove(0);
        let ghost xv = elem_view(x);
        proof {
            assert(rest.deep_view() =~= restv0.drop_first());
            assert(restv0[0] == xv);
        }
        eng.step(x, &mut out);
        proof {
            lemma_run_push(init_state(), consumed, xv, t, dv);
            consumed = consumed.push(xv);
            assert(orig =~= consumed + rest.deep_view());
        }
    }
    eng.finish(&mut out);
    proof {
        assert(consumed =~= orig);
        assert(out.deep_view() =~= spec_inject(orig, t, dv));
    }
    out
}

} // verus!
