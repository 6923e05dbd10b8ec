//! Laws of the injection engine: a stream that is already in the engine's
//! own shape passes through unchanged, and the engine's output is always
//! in that shape — so running the engine twice is the same as running it
//! once.

use vstd::prelude::*;

use crate::element::{ElemV, ModeV};
use crate::inject::{
    block_children, block_entry, block_tags, filter_titles, init_state, is_trigger_start,
    spec_block, spec_finish, spec_inject, spec_keep_child, spec_run, spec_step, spec_step_rest,
    synth_info, EngineState, TagDictV,
};

verus! {

/// Whether an element may stand inside a `Tag` entry: scalars, complete
/// `SimpleTag` subtrees, and masters that open no section of their own.
pub open spec fn allowed_child(e: ElemV) -> bool {
    &&& !(e is Info)
    &&& !(e is Tags)
    &&& !(e is Tag)
    &&& (e matches ElemV::SimpleTag(m) ==> m is Full)
    &&& !is_trigger_start(e)
}

/// The children of an entry that the engine buffers: every child except
/// the `SimpleTag` subtrees that the merge drops.
pub open spec fn buf_of(kids: Seq<ElemV>) -> Seq<ElemV>
    decreases kids.len(),
{
    if kids.len() == 0 {
        Seq::empty()
    } else {
        let r = buf_of(kids.drop_last());
        if spec_keep_child(kids.last()) {
            r.push(kids.last())
        } else {
            r
        }
    }
}

/// Whether any `SimpleTag` child survives the merge.
pub open spec fn has_kept(kids: Seq<ElemV>) -> bool
    decreases kids.len(),
{
    if kids.len() == 0 {
        false
    } else {
        has_kept(kids.drop_last()) || (kids.last() is SimpleTag && spec_keep_child(kids.last()))
    }
}

/// An entry the engine reproduces exactly: every child allowed and kept,
/// at least one of them a surviving `SimpleTag`.
pub open spec fn ordinary_entry(kids: Seq<ElemV>) -> bool {
    &&& forall|i: int|
        0 <= i < kids.len() ==> allowed_child(#[trigger] kids[i]) && spec_keep_child(kids[i])
    &&& has_kept(kids)
}

/// Where in a clean stream the scan stands.
pub enum CleanMode {
    Top,
    InInfo { title_seen: bool },
    InTags { pending: bool },
    InEntry { kids: Seq<ElemV> },
}

/// The clean-stream checker's state.
pub struct CleanSt {
    pub mode: CleanMode,
    pub seen_info: bool,
    pub seen_tags: bool,
}

/// The checker's initial state.
pub open spec fn clean_init() -> CleanSt {
    CleanSt { mode: CleanMode::Top, seen_info: false, seen_tags: false }
}

/// One step of the clean-stream checker. A stream it accepts is exactly
/// one the engine maps to itself: every `Info` section already ends with
/// the given title and holds no other; an `Info` stands before any
/// section that would force one to be synthesized; every `Tag` entry is
/// reproduced by the merge; and the engine's own entry, when the
/// dictionary owes one, stands last in its `Tags` section.
pub open spec fn clean_step(c: CleanSt, e: ElemV, t: Seq<char>, d: TagDictV) -> Option<CleanSt> {
    match c.mode {
        CleanMode::Top => match e {
            ElemV::Info(m) => match m {
                ModeV::Start => Some(
                    CleanSt { mode: CleanMode::InInfo { title_seen: false }, ..c },
                ),
                ModeV::End => None,
                ModeV::Full(kids) => if kids.len() >= 1 && kids.last() == ElemV::Title(t) && (
                forall|i: int| 0 <= i < kids.len() - 1 ==> !(#[trigger] kids[i] is Title)) {
                    Some(CleanSt { seen_info: true, ..c })
                } else {
                    None
                },
            },
            ElemV::Tags(m) => match m {
                ModeV::Start => if c.seen_info {
                    Some(CleanSt { mode: CleanMode::InTags { pending: false }, ..c })
                } else {
                    None
                },
                _ => None,
            },
            ElemV::Tag(_) => None,
            ElemV::SimpleTag(_) => None,
            _ => if is_trigger_start(e) {
                if c.seen_info {
                    Some(c)
                } else {
                    None
                }
            } else {
                Some(c)
            },
        },
        CleanMode::InInfo { title_seen } => match e {
            ElemV::Title(v) => if !title_seen && v == t {
                Some(CleanSt { mode: CleanMode::InInfo { title_seen: true }, ..c })
            } else {
                None
            },
            ElemV::Info(m) => match m {
                ModeV::End => if title_seen {
                    Some(CleanSt { mode: CleanMode::Top, seen_info: true, ..c })
                } else {
                    None
                },
                _ => None,
            },
            ElemV::Tags(_) => None,
            ElemV::Tag(_) => None,
            ElemV::SimpleTag(_) => None,
            _ => if is_trigger_start(e) || title_seen {
                None
            } else {
                Some(c)
            },
        },
        CleanMode::InTags { pending } => match e {
            ElemV::Tag(m) => match m {
                ModeV::Start => if !pending {
                    Some(CleanSt { mode: CleanMode::InEntry { kids: Seq::empty() }, ..c })
                } else {
                    None
                },
                _ => None,
            },
            ElemV::Tags(m) => match m {
                ModeV::End => if pending == (block_tags(d).len() > 0) {
                    Some(CleanSt { mode: CleanMode::Top, seen_tags: true, ..c })
                } else {
                    None
                },
                _ => None,
            },
            ElemV::Info(_) => None,
            ElemV::SimpleTag(_) => None,
            _ => if is_trigger_start(e) || pending {
                None
            } else {
                Some(c)
            },
        },
        CleanMode::InEntry { kids } => match e {
            ElemV::Tag(m) => match m {
                ModeV::End => if ordinary_entry(kids) {
                    Some(CleanSt { mode: CleanMode::InTags { pending: false }, ..c })
                } else if kids == block_children(d) && block_tags(d).len() > 0 {
                    Some(CleanSt { mode: CleanMode::InTags { pending: true }, ..c })
                } else {
                    None
                },
                _ => None,
            },
            _ => if allowed_child(e) {
                Some(CleanSt { mode: CleanMode::InEntry { kids: kids.push(e) }, ..c })
            } else {
                None
            },
        },
    }
}

/// The checker folded over a whole sequence.
pub open spec fn clean_fold(c: CleanSt, s: Seq<ElemV>, t: Seq<char>, d: TagDictV) -> Option<
    CleanSt,
>
    decreases s.len(),
{
    if s.len() == 0 {
        Some(c)
    } else {
        match clean_step(c, s[0], t, d) {
            None => None,
            Some(c1) => clean_fold(c1, s.drop_first(), t, d),
        }
    }
}

/// What the engine has consumed but not yet emitted, in each checker
/// state: a dropped title it re-adds at the section end, a buffered
/// entry, or the engine's own entry it re-appends at the section end.
pub open spec fn pend(c: CleanSt, t: Seq<char>, d: TagDictV) -> Seq<ElemV> {
    match c.mode {
        CleanMode::Top => Seq::empty(),
        CleanMode::InInfo { title_seen } => if title_seen {
            seq![ElemV::Title(t)]
        } else {
            Seq::empty()
        },
        CleanMode::InTags { pending } => if pending {
            block_entry(d)
        } else {
            Seq::empty()
        },
        CleanMode::InEntry { kids } => seq![ElemV::Tag(ModeV::Start)] + kids,
    }
}

/// How a checker state describes an engine state.
pub open spec fn compat(c: CleanSt, st: EngineState) -> bool {
    &&& st.info_written == c.seen_info
    &&& st.tags_written == c.seen_tags
    &&& match c.mode {
        CleanMode::Top => !st.in_info && !st.in_tags && !st.in_tag,
        CleanMode::InInfo { .. } => st.in_info && !st.in_tags && !st.in_tag,
        CleanMode::InTags { .. } => !st.in_info && st.in_tags && !st.in_tag,
        CleanMode::InEntry { kids } => !st.in_info && st.in_tags && st.in_tag && st.entry_buf
            == buf_of(kids) && st.entry_kept == has_kept(kids),
    }
}


/// An entry whose children all survive is buffered unchanged.
proof fn lemma_buf_of_all_kept(kids: Seq<ElemV>)
    requires
        forall|i: int| 0 <= i < kids.len() ==> spec_keep_child(#[trigger] kids[i]),
    ensures
        buf_of(kids) =~= kids,
    decreases kids.len(),
{
    if kids.len() > 0 {
        assert(kids.last() == kids[kids.len() - 1]);
        assert forall|i: int| 0 <= i < kids.drop_last().len() implies spec_keep_child(
            #[trigger] kids.drop_last()[i],
        ) by {
            assert(kids.drop_last()[i] == kids[i]);
        }
        lemma_buf_of_all_kept(kids.drop_last());
    }
}

/// Whether any surviving `SimpleTag` stands in a concatenation.
proof fn lemma_has_kept_add(a: Seq<ElemV>, b: Seq<ElemV>)
    ensures
        has_kept(a + b) == (has_kept(a) || has_kept(b)),
    decreases b.len(),
{
    if b.len() == 0 {
        assert(a + b =~= a);
    } else {
        assert((a + b).drop_last() =~= a + b.drop_last());
        assert((a + b).last() == b.last());
        lemma_has_kept_add(a, b.drop_last());
    }
}

/// No `SimpleTag` of the engine's own entry survives a second merge: each
/// one carries a reserved name.
proof fn lemma_block_children_not_kept(d: TagDictV)
    ensures
        !has_kept(block_children(d)),
{
    let targets = seq![ElemV::Targets(ModeV::Full(Seq::<ElemV>::empty()))];
    lemma_has_kept_add(targets, block_tags(d));
    assert(!has_kept(targets)) by {
        assert(!has_kept(Seq::<ElemV>::empty()));
        assert(targets.drop_last() =~= Seq::<ElemV>::empty());
    }
    let o1 = crate::inject::opt_tag("TITLE"@, d.title);
    let o2 = crate::inject::opt_tag("DATE_RELEASED"@, d.date_released);
    let o3 = crate::inject::opt_tag("COMMENT"@, d.comment);
    let o4 = crate::inject::opt_tag("IMDB"@, d.imdb);
    let o5 = crate::inject::opt_tag("EPISODE"@, d.episode);
    let o6 = crate::inject::opt_tag("SEASON"@, d.season);
    lemma_has_kept_add(o1 + o2 + o3 + o4 + o5, o6);
    lemma_has_kept_add(o1 + o2 + o3 + o4, o5);
    lemma_has_kept_add(o1 + o2 + o3, o4);
    lemma_has_kept_add(o1 + o2, o3);
    lemma_has_kept_add(o1, o2);
    lemma_opt_tag_not_kept("TITLE"@, d.title);
    lemma_opt_tag_not_kept("DATE_RELEASED"@, d.date_released);
    lemma_opt_tag_not_kept("COMMENT"@, d.comment);
    lemma_opt_tag_not_kept("IMDB"@, d.imdb);
    lemma_opt_tag_not_kept("EPISODE"@, d.episode);
    lemma_opt_tag_not_kept("SEASON"@, d.season);
}

/// A dictionary tag never survives a second merge: its name is reserved.
proof fn lemma_opt_tag_not_kept(name: Seq<char>, value: Seq<char>)
    requires
        crate::inject::is_reserved_name(name),
    ensures
        !has_kept(crate::inject::opt_tag(name, value)),
{
    let o = crate::inject::opt_tag(name, value);
    if value.len() > 0 {
        let st = crate::inject::simple_tag_v(name, value);
        let kids = seq![ElemV::TagName(name), ElemV::TagString(value)];
        assert(crate::inject::first_tag_name(kids) == Some(name));
        assert(!spec_keep_child(st));
        assert(!has_kept(Seq::<ElemV>::empty()));
        assert(o.drop_last() =~= Seq::<ElemV>::empty());
        assert(o.last() == st);
    } else {
        assert(o.len() == 0);
    }
}

/// Filtering the titles out of a sequence that ends with the one title
/// and holds no other gives back everything before it.
proof fn lemma_filter_titles_clean(kids: Seq<ElemV>, t: Seq<char>)
    requires
        kids.len() >= 1,
        kids.last() == ElemV::Title(t),
        forall|i: int| 0 <= i < kids.len() - 1 ==> !(#[trigger] kids[i] is Title),
    ensures
        filter_titles(kids) + seq![ElemV::Title(t)] =~= kids,
{
    lemma_filter_titles_none(kids.drop_last());
    assert(filter_titles(kids) == filter_titles(kids.drop_last()));
}

/// Filtering titles out of a sequence that has none changes nothing.
proof fn lemma_filter_titles_none(kids: Seq<ElemV>)
    requires
        forall|i: int| 0 <= i < kids.len() ==> !(#[trigger] kids[i] is Title),
    ensures
        filter_titles(kids) =~= kids,
    decreases kids.len(),
{
    if kids.len() > 0 {
        assert(kids.last() == kids[kids.len() - 1]);
        assert forall|i: int| 0 <= i < kids.drop_last().len() implies !(
        #[trigger] kids.drop_last()[i] is Title) by {
            assert(kids.drop_last()[i] == kids[i]);
        }
        lemma_filter_titles_none(kids.drop_last());
    }
}

/// One step of the engine on a clean stream: the checker advances, the
/// engine stays in the state the checker describes, and what the engine
/// emits is exactly what it had withheld plus the event itself, less what
/// it now withholds.
proof fn lemma_clean_step_identity(st: EngineState, c: CleanSt, e: ElemV, t: Seq<char>, d: TagDictV)
    requires
        compat(c, st),
        clean_step(c, e, t, d) is Some,
    ensures
        ({
            let c1 = clean_step(c, e, t, d)->Some_0;
            let (st1, o) = spec_step(st, e, t, d);
            &&& compat(c1, st1)
            &&& pend(c, t, d) + seq![e] =~= o + pend(c1, t, d)
        }),
{
    let c1 = clean_step(c, e, t, d)->Some_0;
    let (st1, o) = spec_step(st, e, t, d);
    match c.mode {
        CleanMode::Top => {
            match e {
                ElemV::Info(m) => {
                    match m {
                        ModeV::Full(kids) => {
                            lemma_filter_titles_clean(kids, t);
                            assert(o =~= seq![e]);
                        },
                        _ => {},
                    }
                },
                _ => {},
            }
        },
        CleanMode::InInfo { title_seen } => {},
        CleanMode::InTags { pending } => {
            match e {
                ElemV::Tags(m) => {
                    match m {
                        ModeV::End => {
                            if pending {
                                assert(spec_block(d) == block_entry(d));
                                assert(pend(c, t, d) + seq![e] =~= o + pend(c1, t, d));
                            } else {
                                assert(spec_block(d) =~= Seq::<ElemV>::empty());
                                assert(pend(c, t, d) + seq![e] =~= o + pend(c1, t, d));
                            }
                        },
                        _ => {},
                    }
                },
                _ => {},
            }
        },
        CleanMode::InEntry { kids } => {
            match e {
                ElemV::Tag(m) => {
                    match m {
                        ModeV::End => {
                            if ordinary_entry(kids) {
                                lemma_buf_of_all_kept(kids);
                                assert(o =~= seq![ElemV::Tag(ModeV::Start)] + kids + seq![
                                    ElemV::Tag(ModeV::End),
                                ]);
                                assert(pend(c, t, d) + seq![e] =~= o + pend(c1, t, d));
                            } else {
                                lemma_block_children_not_kept(d);
                                assert(!st.entry_kept);
                                assert(o =~= Seq::<ElemV>::empty());
                                assert(pend(c1, t, d) == block_entry(d));
                                assert(pend(c, t, d) + seq![e] =~= o + pend(c1, t, d));
                            }
                        },
                        _ => {},
                    }
                },
                _ => {
                    assert(buf_of(kids.push(e)) == if spec_keep_child(e) {
                        buf_of(kids).push(e)
                    } else {
                        buf_of(kids)
                    }) by {
                        assert(kids.push(e).drop_last() =~= kids);
                    };
                    assert(has_kept(kids.push(e)) == (has_kept(kids) || (e is SimpleTag
                        && spec_keep_child(e)))) by {
                        assert(kids.push(e).drop_last() =~= kids);
                    };
                    assert(pend(c, t, d) + seq![e] =~= o + pend(c1, t, d));
                },
            }
        },
    }
}

/// The engine on a clean suffix: it emits what it had withheld followed
/// by the suffix itself.
proof fn lemma_clean_run(st: EngineState, c: CleanSt, s: Seq<ElemV>, t: Seq<char>, d: TagDictV)
    requires
        compat(c, st),
        clean_fold(c, s, t, d) is Some,
    ensures
        ({
            let cf = clean_fold(c, s, t, d)->Some_0;
            let (stf, o) = spec_run(st, s, t, d);
            &&& compat(cf, stf)
            &&& pend(c, t, d) + s =~= o + pend(cf, t, d)
        }),
    decreases s.len(),
{
    if s.len() > 0 {
        let c1 = clean_step(c, s[0], t, d)->Some_0;
        let (st1, o1) = spec_step(st, s[0], t, d);
        lemma_clean_step_identity(st, c, s[0], t, d);
        lemma_clean_run(st1, c1, s.drop_first(), t, d);
        let cf = clean_fold(c, s, t, d)->Some_0;
        let (stf, o2) = spec_run(st1, s.drop_first(), t, d);
        assert(pend(c, t, d) + s =~= (pend(c, t, d) + seq![s[0]]) + s.drop_first());
        assert((o1 + pend(c1, t, d)) + s.drop_first() =~= o1 + (pend(c1, t, d) + s.drop_first()));
        assert(o1 + (o2 + pend(cf, t, d)) =~= (o1 + o2) + pend(cf, t, d));
    } else {
        assert(pend(c, t, d) + s =~= pend(c, t, d));
    }
}

/// A stream already in the engine's shape passes through the engine
/// unchanged: every `Info` section ends with the given title and holds no
/// other, an `Info` stands before anything that would force a synthesized
/// one, every `Tag` entry survives the merge whole, the engine's own
/// entry stands last in its `Tags` section when the dictionary owes one,
/// and some `Tags` section exists when one is owed.
pub proof fn lemma_inject_clean_identity(s: Seq<ElemV>, t: Seq<char>, d: TagDictV)
    requires
        clean_fold(clean_init(), s, t, d) matches Some(cf) && cf.mode is Top && (block_tags(
            d,
        ).len() == 0 || cf.seen_tags),
    ensures
        spec_inject(s, t, d) == s,
{
    let cf = clean_fold(clean_init(), s, t, d)->Some_0;
    lemma_clean_run(init_state(), clean_init(), s, t, d);
    let (stf, o) = spec_run(init_state(), s, t, d);
    assert(pend(clean_init(), t, d) + s =~= s);
    assert(o + pend(cf, t, d) =~= o);
    assert(spec_finish(stf, d) =~= Seq::<ElemV>::empty());
    assert(spec_inject(s, t, d) =~= o);
    assert(o =~= s);
}

/// Round-trip: with an all-empty dictionary and the title the stream
/// already carries, injection is the identity — an unmodified clean
/// stream is reproduced exactly.
pub proof fn lemma_noop_injection_round_trip(s: Seq<ElemV>, t: Seq<char>, d: TagDictV)
    requires
        block_tags(d).len() == 0,
        clean_fold(clean_init(), s, t, d) matches Some(cf) && cf.mode is Top,
    ensures
        spec_inject(s, t, d) == s,
{
    lemma_inject_clean_identity(s, t, d);
}


/// The well-formedness checker's state: which sections stand open.
pub struct WfSt {
    pub in_info: bool,
    pub in_tags: bool,
    pub in_tag: bool,
}

/// The well-formedness checker's initial state: nothing open.
pub open spec fn wf_init() -> WfSt {
    WfSt { in_info: false, in_tags: false, in_tag: false }
}

/// Whether no section stands open.
pub open spec fn wf_top(w: WfSt) -> bool {
    !w.in_info && !w.in_tags && !w.in_tag
}

/// One step of the well-formedness checker: `Info`, `Tags` and the
/// sections that trigger synthesis stand at top level only, `Tag` entries
/// directly inside `Tags`, `SimpleTag` subtrees (always delivered
/// complete) directly inside entries; everything else may stand anywhere.
pub open spec fn wf_step(w: WfSt, e: ElemV) -> Option<WfSt> {
    match e {
        ElemV::Info(m) => match m {
            ModeV::Start => if wf_top(w) {
                Some(WfSt { in_info: true, ..w })
            } else {
                None
            },
            ModeV::End => if w.in_info {
                Some(WfSt { in_info: false, ..w })
            } else {
                None
            },
            ModeV::Full(_) => if wf_top(w) {
                Some(w)
            } else {
                None
            },
        },
        ElemV::Tags(m) => match m {
            ModeV::Start => if wf_top(w) {
                Some(WfSt { in_tags: true, ..w })
            } else {
                None
            },
            ModeV::End => if w.in_tags && !w.in_tag {
                Some(WfSt { in_tags: false, ..w })
            } else {
                None
            },
            ModeV::Full(_) => None,
        },
        ElemV::Tag(m) => match m {
            ModeV::Start => if w.in_tags && !w.in_tag {
                Some(WfSt { in_tag: true, ..w })
            } else {
                None
            },
            ModeV::End => if w.in_tag {
                Some(WfSt { in_tag: false, ..w })
            } else {
                None
            },
            ModeV::Full(_) => None,
        },
        ElemV::SimpleTag(m) => match m {
            ModeV::Full(_) => if w.in_tag {
                Some(w)
            } else {
                None
            },
            _ => None,
        },
        _ => if is_trigger_start(e) {
            if wf_top(w) {
                Some(w)
            } else {
                None
            }
        } else {
            Some(w)
        },
    }
}

/// The well-formedness checker folded over a whole sequence.
pub open spec fn wf_fold(w: WfSt, s: Seq<ElemV>) -> Option<WfSt>
    decreases s.len(),
{
    if s.len() == 0 {
        Some(w)
    } else {
        match wf_step(w, s[0]) {
            None => None,
            Some(w1) => wf_fold(w1, s.drop_first()),
        }
    }
}

/// A well-formed stream: the checker accepts it and every section closes.
pub open spec fn wf_stream(s: Seq<ElemV>) -> bool {
    wf_fold(wf_init(), s) == Some(wf_init())
}

/// The flag combinations the checker can actually reach: an `Info`
/// section never overlaps a `Tags` section, and an entry stands only
/// inside `Tags`.
pub open spec fn wf_ok(w: WfSt) -> bool {
    &&& w.in_info ==> !w.in_tags && !w.in_tag
    &&& w.in_tag ==> w.in_tags
}

/// Every checker transition preserves the reachable flag combinations.
proof fn lemma_wf_ok_step(w: WfSt, e: ElemV)
    requires
        wf_ok(w),
        wf_step(w, e) is Some,
    ensures
        wf_ok(wf_step(w, e)->Some_0),
{
}

/// Whether the checker state and the engine state open the same sections.
pub open spec fn aligned(w: WfSt, st: EngineState) -> bool {
    &&& w.in_info == st.in_info
    &&& w.in_tags == st.in_tags
    &&& w.in_tag == st.in_tag
}

/// The engine's entry buffer holds only children it will reproduce.
pub open spec fn buf_ok(st: EngineState) -> bool {
    &&& forall|i: int|
        0 <= i < st.entry_buf.len() ==> allowed_child(#[trigger] st.entry_buf[i])
            && spec_keep_child(st.entry_buf[i])
    &&& st.entry_kept == has_kept(st.entry_buf)
}

/// The clean-checker state that describes an engine state, as seen from
/// the output side.
pub open spec fn out_state(st: EngineState) -> CleanSt {
    CleanSt {
        mode: if st.in_info {
            CleanMode::InInfo { title_seen: false }
        } else if st.in_tags {
            CleanMode::InTags { pending: false }
        } else {
            CleanMode::Top
        },
        seen_info: st.info_written,
        seen_tags: st.tags_written,
    }
}

/// The clean checker over a concatenation: the first part first.
proof fn lemma_clean_fold_add(c: CleanSt, a: Seq<ElemV>, b: Seq<ElemV>, t: Seq<char>, d: TagDictV)
    ensures
        clean_fold(c, a + b, t, d) == (match clean_fold(c, a, t, d) {
            None => None::<CleanSt>,
            Some(c1) => clean_fold(c1, b, t, d),
        }),
    decreases a.len(),
{
    if a.len() == 0 {
        assert(a + b =~= b);
    } else {
        assert((a + b)[0] == a[0]);
        assert((a + b).drop_first() =~= a.drop_first() + b);
        match clean_step(c, a[0], t, d) {
            None => {},
            Some(c1) => {
                lemma_clean_fold_add(c1, a.drop_first(), b, t, d);
            },
        }
    }
}

/// The clean checker walks through any run of allowed entry children.
proof fn lemma_clean_entry_children(
    c: CleanSt,
    kids0: Seq<ElemV>,
    cs: Seq<ElemV>,
    t: Seq<char>,
    d: TagDictV,
)
    requires
        c.mode == (CleanMode::InEntry { kids: kids0 }),
        forall|i: int| 0 <= i < cs.len() ==> allowed_child(#[trigger] cs[i]),
    ensures
        clean_fold(c, cs, t, d) == Some(CleanSt { mode: CleanMode::InEntry { kids: kids0 + cs }, ..c }),
    decreases cs.len(),
{
    if cs.len() == 0 {
        assert(kids0 + cs =~= kids0);
        assert(clean_fold(c, cs, t, d) == Some(c));
        assert(c == (CleanSt { mode: CleanMode::InEntry { kids: kids0 + cs }, ..c }));
    } else {
        let e = cs[0];
        assert(allowed_child(e));
        assert(!(e is Tag));
        let c1 = CleanSt { mode: CleanMode::InEntry { kids: kids0.push(e) }, ..c };
        assert(clean_step(c, e, t, d) == Some(c1));
        lemma_clean_entry_children(c1, kids0.push(e), cs.drop_first(), t, d);
        assert(kids0.push(e) + cs.drop_first() =~= kids0 + cs);
    }
}

/// Every child of the engine's own entry is an allowed entry child.
proof fn lemma_block_children_allowed(d: TagDictV)
    ensures
        forall|i: int| 0 <= i < block_children(d).len() ==> allowed_child(
            #[trigger] block_children(d)[i],
        ),
{
    let bc = block_children(d);
    assert forall|i: int| 0 <= i < bc.len() implies allowed_child(#[trigger] bc[i]) by {
        if i == 0 {
            assert(bc[0] == ElemV::Targets(ModeV::Full(Seq::<ElemV>::empty())));
        } else {
            lemma_block_tags_simple(d, i - 1);
        }
    }
}

/// Every element of the dictionary's tag run is a complete `SimpleTag`.
proof fn lemma_block_tags_simple(d: TagDictV, i: int)
    requires
        0 <= i < block_tags(d).len(),
    ensures
        block_tags(d)[i] matches ElemV::SimpleTag(m) && m is Full,
{
    let o1 = crate::inject::opt_tag("TITLE"@, d.title);
    let o2 = crate::inject::opt_tag("DATE_RELEASED"@, d.date_released);
    let o3 = crate::inject::opt_tag("COMMENT"@, d.comment);
    let o4 = crate::inject::opt_tag("IMDB"@, d.imdb);
    let o5 = crate::inject::opt_tag("EPISODE"@, d.episode);
    let o6 = crate::inject::opt_tag("SEASON"@, d.season);
    assert(block_tags(d) == o1 + o2 + o3 + o4 + o5 + o6);
}

/// From the end of a merged `Tags` section, the checker accepts the
/// engine's own entry and the closing event.
proof fn lemma_clean_accepts_block(c: CleanSt, t: Seq<char>, d: TagDictV)
    requires
        c.mode == (CleanMode::InTags { pending: false }),
    ensures
        clean_fold(c, spec_block(d) + seq![ElemV::Tags(ModeV::End)], t, d) == Some(
            CleanSt { mode: CleanMode::Top, seen_tags: true, ..c },
        ),
{
    let fin = seq![ElemV::Tags(ModeV::End)];
    let ctop = CleanSt { mode: CleanMode::Top, seen_tags: true, ..c };
    if block_tags(d).len() == 0 {
        assert(spec_block(d) + fin =~= fin);
        assert(fin[0] == ElemV::Tags(ModeV::End));
        assert(fin.drop_first() =~= Seq::<ElemV>::empty());
        assert(clean_step(c, ElemV::Tags(ModeV::End), t, d) == Some(ctop));
        assert(clean_fold(ctop, fin.drop_first(), t, d) == Some(ctop));
        assert(clean_fold(c, fin, t, d) == Some(ctop));
    } else {
        let centry = CleanSt { mode: CleanMode::InEntry { kids: Seq::empty() }, ..c };
        let bc = block_children(d);
        lemma_block_children_allowed(d);
        lemma_clean_entry_children(centry, Seq::empty(), bc, t, d);
        assert(Seq::<ElemV>::empty() + bc =~= bc);
        let cdone = CleanSt { mode: CleanMode::InEntry { kids: bc }, ..c };
        lemma_block_children_not_kept(d);
        assert(!ordinary_entry(bc));
        let cpend = CleanSt { mode: CleanMode::InTags { pending: true }, ..c };
        assert(clean_step(cdone, ElemV::Tag(ModeV::End), t, d) == Some(cpend));
        assert(clean_step(cpend, ElemV::Tags(ModeV::End), t, d) == Some(ctop));
        let whole = spec_block(d) + fin;
        assert(whole =~= seq![ElemV::Tag(ModeV::Start)] + (bc + (seq![ElemV::Tag(ModeV::End)]
            + fin)));
        assert(whole[0] == ElemV::Tag(ModeV::Start));
        assert(whole.drop_first() =~= bc + (seq![ElemV::Tag(ModeV::End)] + fin));
        assert(clean_step(c, ElemV::Tag(ModeV::Start), t, d) == Some(centry));
        lemma_clean_fold_add(centry, bc, seq![ElemV::Tag(ModeV::End)] + fin, t, d);
        let tailseq = seq![ElemV::Tag(ModeV::End)] + fin;
        assert(tailseq[0] == ElemV::Tag(ModeV::End));
        assert(tailseq.drop_first() =~= fin);
        assert(fin[0] == ElemV::Tags(ModeV::End));
        assert(fin.drop_first() =~= Seq::<ElemV>::empty());
        assert(clean_fold(ctop, fin.drop_first(), t, d) == Some(ctop));
        assert(clean_fold(cpend, fin, t, d) == Some(ctop));
        assert(clean_fold(cpend, tailseq.drop_first(), t, d) == Some(ctop));
        assert(clean_fold(cdone, tailseq, t, d) == Some(ctop));
        assert(clean_fold(centry, bc + tailseq, t, d) == Some(ctop));
        assert(clean_fold(centry, whole.drop_first(), t, d) == Some(ctop));
        assert(clean_fold(c, whole, t, d) == Some(ctop));
    }
}

/// The filtered children of an `Info` section hold no title.
proof fn lemma_filter_titles_no_title(kids: Seq<ElemV>)
    ensures
        forall|i: int| 0 <= i < filter_titles(kids).len() ==> !(
        #[trigger] filter_titles(kids)[i] is Title),
    decreases kids.len(),
{
    if kids.len() > 0 {
        lemma_filter_titles_no_title(kids.drop_last());
    }
}


/// One step of the engine on well-formed input: the checker accepts what
/// the engine emits, and both land in matching states.
#[verifier::rlimit(100)]
proof fn lemma_output_clean_step(st: EngineState, w: WfSt, e: ElemV, t: Seq<char>, d: TagDictV)
    requires
        wf_ok(w),
        aligned(w, st),
        buf_ok(st),
        wf_step(w, e) is Some,
    ensures
        ({
            let w1 = wf_step(w, e)->Some_0;
            let (st1, o) = spec_step(st, e, t, d);
            &&& aligned(w1, st1)
            &&& buf_ok(st1)
            &&& clean_fold(out_state(st), o, t, d) == Some(out_state(st1))
        }),
{
    let w1 = wf_step(w, e)->Some_0;
    let (st1, o) = spec_step(st, e, t, d);
    let c0 = out_state(st);
    let c1 = out_state(st1);
    match e {
        ElemV::Info(m) => {
            match m {
                ModeV::Start => {
                    assert(o =~= seq![e]);
                    assert(o.drop_first() =~= Seq::<ElemV>::empty());
                    assert(clean_step(c0, e, t, d) == Some(c1));
                },
                ModeV::End => {
                    assert(o =~= seq![ElemV::Title(t), e]);
                    let cmid = CleanSt { mode: CleanMode::InInfo { title_seen: true }, ..c0 };
                    assert(clean_step(c0, ElemV::Title(t), t, d) == Some(cmid));
                    assert(clean_step(cmid, e, t, d) == Some(c1));
                    assert(o.drop_first() =~= seq![e]);
                    assert(o.drop_first().drop_first() =~= Seq::<ElemV>::empty());
                    assert(clean_fold(c1, o.drop_first().drop_first(), t, d) == Some(c1));
                    assert(clean_fold(cmid, o.drop_first(), t, d) == Some(c1));
                },
                ModeV::Full(kids) => {
                    let nk = filter_titles(kids) + seq![ElemV::Title(t)];
                    assert(o =~= seq![ElemV::Info(ModeV::Full(nk))]);
                    lemma_filter_titles_no_title(kids);
                    assert(nk.len() >= 1);
                    assert(nk.last() == ElemV::Title(t));
                    assert forall|i: int| 0 <= i < nk.len() - 1 implies !(
                    #[trigger] nk[i] is Title) by {
                        assert(nk[i] == filter_titles(kids)[i]);
                    }
                    assert(clean_step(c0, ElemV::Info(ModeV::Full(nk)), t, d) == Some(c1));
                    assert(o.drop_first() =~= Seq::<ElemV>::empty());
                },
            }
        },
        _ => {
            let pre: Seq<ElemV> = if is_trigger_start(e) && !st.info_written {
                seq![synth_info(t)]
            } else {
                Seq::empty()
            };
            let st0 = if is_trigger_start(e) && !st.info_written {
                EngineState { info_written: true, ..st }
            } else {
                st
            };
            let cpre = out_state(st0);
            assert(clean_fold(c0, pre, t, d) == Some(cpre)) by {
                if is_trigger_start(e) && !st.info_written {
                    let kids = seq![ElemV::Title(t)];
                    assert(kids.last() == ElemV::Title(t));
                    assert(clean_step(c0, synth_info(t), t, d) == Some(cpre));
                    assert(pre.drop_first() =~= Seq::<ElemV>::empty());
                }
            };
            let orest = spec_step_rest(st0, e, d, pre).1;
            assert(o == orest);
            assert(st1 == spec_step_rest(st0, e, d, pre).0);
            let tail = o.skip(pre.len() as int);
            assert(o =~= pre + tail);
            lemma_clean_fold_add(c0, pre, tail, t, d);
            if e == ElemV::Tags(ModeV::Start) {
                assert(tail =~= seq![e]);
                assert(clean_step(cpre, e, t, d) == Some(c1));
                assert(tail.drop_first() =~= Seq::<ElemV>::empty());
            } else if e == ElemV::Tags(ModeV::End) {
                assert(tail =~= spec_block(d) + seq![ElemV::Tags(ModeV::End)]);
                lemma_clean_accepts_block(cpre, t, d);
                assert(clean_fold(cpre, tail, t, d) == Some(c1));
            } else if st.in_info {
                if e is Title {
                    assert(tail =~= Seq::<ElemV>::empty());
                } else {
                    assert(tail =~= seq![e]);
                    assert(clean_step(cpre, e, t, d) == Some(c1));
                    assert(tail.drop_first() =~= Seq::<ElemV>::empty());
                }
            } else if st.in_tags {
                if e == ElemV::Tag(ModeV::Start) {
                    assert(tail =~= Seq::<ElemV>::empty());
                    assert(st1.entry_buf =~= Seq::<ElemV>::empty());
                    assert(!has_kept(Seq::<ElemV>::empty()));
                } else if e == ElemV::Tag(ModeV::End) {
                    if st.entry_kept {
                        assert(tail =~= seq![ElemV::Tag(ModeV::Start)] + st.entry_buf + seq![
                            ElemV::Tag(ModeV::End),
                        ]);
                        let centry = CleanSt {
                            mode: CleanMode::InEntry { kids: Seq::empty() },
                            ..cpre
                        };
                        assert(clean_step(cpre, ElemV::Tag(ModeV::Start), t, d) == Some(centry));
                        lemma_clean_entry_children(centry, Seq::empty(), st.entry_buf, t, d);
                        assert(Seq::<ElemV>::empty() + st.entry_buf =~= st.entry_buf);
                        let cdone = CleanSt {
                            mode: CleanMode::InEntry { kids: st.entry_buf },
                            ..cpre
                        };
                        assert(ordinary_entry(st.entry_buf));
                        assert(clean_step(cdone, ElemV::Tag(ModeV::End), t, d) == Some(c1));
                        let tailrest = st.entry_buf + seq![ElemV::Tag(ModeV::End)];
                        assert(tail[0] == ElemV::Tag(ModeV::Start));
                        assert(tail.drop_first() =~= tailrest);
                        lemma_clean_fold_add(centry, st.entry_buf, seq![ElemV::Tag(ModeV::End)], t, d);
                        assert(clean_fold(c1, seq![ElemV::Tag(ModeV::End)].drop_first(), t, d)
                            == Some(c1)) by {
                            assert(seq![ElemV::Tag(ModeV::End)].drop_first()
                                =~= Seq::<ElemV>::empty());
                        };
                        assert(clean_fold(cdone, seq![ElemV::Tag(ModeV::End)], t, d) == Some(c1));
                        assert(clean_fold(centry, tailrest, t, d) == Some(c1));
                        assert(clean_fold(cpre, tail, t, d) == Some(c1));
                    } else {
                        assert(tail =~= Seq::<ElemV>::empty());
                        assert(st1.entry_buf =~= Seq::<ElemV>::empty());
                        assert(!has_kept(Seq::<ElemV>::empty()));
                    }
                } else if st.in_tag {
                    assert(tail =~= Seq::<ElemV>::empty());
                    if e is SimpleTag {
                        if spec_keep_child(e) {
                            assert(st1.entry_buf == st.entry_buf.push(e));
                            assert(st.entry_buf.push(e).drop_last() =~= st.entry_buf);
                            assert(has_kept(st.entry_buf.push(e)));
                            assert forall|i: int| 0 <= i < st1.entry_buf.len() implies
                                allowed_child(#[trigger] st1.entry_buf[i]) && spec_keep_child(
                                st1.entry_buf[i],
                            ) by {
                                if i < st.entry_buf.len() {
                                    assert(st1.entry_buf[i] == st.entry_buf[i]);
                                } else {
                                    assert(st1.entry_buf[i] == e);
                                }
                            }
                        }
                    } else {
                        assert(st1.entry_buf == st.entry_buf.push(e));
                        assert(st.entry_buf.push(e).drop_last() =~= st.entry_buf);
                        assert(allowed_child(e));
                        assert(spec_keep_child(e));
                        assert(has_kept(st1.entry_buf) == has_kept(st.entry_buf));
                        assert forall|i: int| 0 <= i < st1.entry_buf.len() implies allowed_child(
                            #[trigger] st1.entry_buf[i],
                        ) && spec_keep_child(st1.entry_buf[i]) by {
                            if i < st.entry_buf.len() {
                                assert(st1.entry_buf[i] == st.entry_buf[i]);
                            } else {
                                assert(st1.entry_buf[i] == e);
                            }
                        }
                    }
                } else {
                    assert(tail =~= seq![e]);
                    assert(clean_step(cpre, e, t, d) == Some(c1));
                    assert(tail.drop_first() =~= Seq::<ElemV>::empty());
                }
            } else {
                assert(tail =~= seq![e]);
                assert(clean_step(cpre, e, t, d) == Some(c1));
                assert(tail.drop_first() =~= Seq::<ElemV>::empty());
            }
        },
    }
}

/// The engine's whole output on well-formed input is a clean stream, and
/// the engine's final flags match the checker's.
proof fn lemma_output_clean_run(st: EngineState, w: WfSt, s: Seq<ElemV>, t: Seq<char>, d: TagDictV)
    requires
        wf_ok(w),
        aligned(w, st),
        buf_ok(st),
        wf_fold(w, s) is Some,
    ensures
        ({
            let wf1 = wf_fold(w, s)->Some_0;
            let (stf, o) = spec_run(st, s, t, d);
            &&& aligned(wf1, stf)
            &&& buf_ok(stf)
            &&& clean_fold(out_state(st), o, t, d) == Some(out_state(stf))
        }),
    decreases s.len(),
{
    if s.len() > 0 {
        let w1 = wf_step(w, s[0])->Some_0;
        let (st1, o1) = spec_step(st, s[0], t, d);
        lemma_wf_ok_step(w, s[0]);
        lemma_output_clean_step(st, w, s[0], t, d);
        lemma_output_clean_run(st1, w1, s.drop_first(), t, d);
        let (stf, o2) = spec_run(st1, s.drop_first(), t, d);
        lemma_clean_fold_add(out_state(st), o1, o2, t, d);
    }
}

/// Once the engine has written an `Info`, it stays written.
proof fn lemma_info_written_monotone(st: EngineState, s: Seq<ElemV>, t: Seq<char>, d: TagDictV)
    requires
        st.info_written,
    ensures
        spec_run(st, s, t, d).0.info_written,
    decreases s.len(),
{
    if s.len() > 0 {
        let (st1, _) = spec_step(st, s[0], t, d);
        assert(st1.info_written);
        lemma_info_written_monotone(st1, s.drop_first(), t, d);
    }
}

/// An event whose arrival guarantees that an `Info` section gets written:
/// an `Info` of the source itself, or a section start that forces one to
/// be synthesized.
pub open spec fn is_anchor(e: ElemV) -> bool {
    ||| e == ElemV::Info(ModeV::Start)
    ||| e matches ElemV::Info(m) && m is Full
    ||| is_trigger_start(e)
}

/// Whether some event of `s` anchors an `Info` section.
pub open spec fn has_anchor(s: Seq<ElemV>) -> bool {
    exists|i: int| 0 <= i < s.len() && is_anchor(#[trigger] s[i])
}

/// On well-formed input with an anchor, the engine ends with the `Info`
/// written.
proof fn lemma_anchor_written(st: EngineState, w: WfSt, s: Seq<ElemV>, t: Seq<char>, d: TagDictV)
    requires
        wf_ok(w),
        aligned(w, st),
        wf_fold(w, s) matches Some(wend) && !wend.in_info,
        has_anchor(s) || st.in_info || st.info_written,
    ensures
        spec_run(st, s, t, d).0.info_written,
    decreases s.len(),
{
    if st.info_written {
        lemma_info_written_monotone(st, s, t, d);
    } else if s.len() == 0 {
        assert(st.in_info);
        assert(!has_anchor(s));
        assert(false);
    } else {
        let e = s[0];
        let w1 = wf_step(w, e)->Some_0;
        let (st1, o1) = spec_step(st, e, t, d);
        lemma_wf_ok_step(w, e);
        assert(aligned(w1, st1)) by {
            lemma_aligned_step(st, w, e, t, d);
        };
        if st.in_info {
            if e == ElemV::Info(ModeV::End) {
                assert(st1.info_written);
            } else {
                assert(st1.in_info);
            }
            lemma_anchor_written(st1, w1, s.drop_first(), t, d);
        } else {
            if is_anchor(e) {
                assert(st1.in_info || st1.info_written);
            } else {
                assert(has_anchor(s.drop_first())) by {
                    let i = choose|i: int| 0 <= i < s.len() && is_anchor(#[trigger] s[i]);
                    assert(i >= 1);
                    assert(s.drop_first()[i - 1] == s[i]);
                };
            }
            lemma_anchor_written(st1, w1, s.drop_first(), t, d);
        }
    }
}

/// One step keeps the well-formedness checker and the engine aligned.
proof fn lemma_aligned_step(st: EngineState, w: WfSt, e: ElemV, t: Seq<char>, d: TagDictV)
    requires
        wf_ok(w),
        aligned(w, st),
        wf_step(w, e) is Some,
    ensures
        aligned(wf_step(w, e)->Some_0, spec_step(st, e, t, d).0),
{
}

/// Idempotence: rewriting the engine's own output with the same title and
/// dictionary reproduces it exactly — no duplicate title and no duplicate
/// reserved tag ever accumulates. The source must be well formed, and must
/// carry or force an `Info` section unless the dictionary is empty: on a
/// source with neither an `Info` nor any section that triggers one, the
/// first run appends a bare `Tags` section at the end, and a second run
/// then synthesizes an `Info` in front of it.
pub proof fn lemma_inject_idempotent(s: Seq<ElemV>, t: Seq<char>, d: TagDictV)
    requires
        wf_stream(s),
        has_anchor(s) || block_tags(d).len() == 0,
    ensures
        spec_inject(spec_inject(s, t, d), t, d) == spec_inject(s, t, d),
{
    let (stf, o) = spec_run(init_state(), s, t, d);
    assert(wf_ok(wf_init()));
    assert(aligned(wf_init(), init_state()));
    assert(buf_ok(init_state())) by {
        assert(!has_kept(Seq::<ElemV>::empty()));
    };
    lemma_output_clean_run(init_state(), wf_init(), s, t, d);
    assert(out_state(init_state()) == clean_init());
    let cf = out_state(stf);
    assert(cf.mode is Top);
    let out1 = spec_inject(s, t, d);
    if stf.tags_written {
        assert(spec_finish(stf, d) =~= Seq::<ElemV>::empty());
        assert(out1 =~= o);
        assert(clean_fold(clean_init(), out1, t, d) == Some(cf));
        lemma_inject_clean_identity(out1, t, d);
    } else if block_tags(d).len() == 0 {
        assert(spec_finish(stf, d) =~= Seq::<ElemV>::empty());
        assert(out1 =~= o);
        assert(clean_fold(clean_init(), out1, t, d) == Some(cf));
        lemma_inject_clean_identity(out1, t, d);
    } else {
        lemma_anchor_written(init_state(), wf_init(), s, t, d);
        assert(stf.info_written);
        let fin = spec_finish(stf, d);
        assert(fin == seq![ElemV::Tags(ModeV::Start)] + spec_block(d) + seq![
            ElemV::Tags(ModeV::End),
        ]);
        assert(out1 == o + fin);
        lemma_clean_fold_add(clean_init(), o, fin, t, d);
        let cin = CleanSt { mode: CleanMode::InTags { pending: false }, ..cf };
        assert(clean_step(cf, ElemV::Tags(ModeV::Start), t, d) == Some(cin));
        lemma_clean_accepts_block(cin, t, d);
        let ctop = CleanSt { mode: CleanMode::Top, seen_tags: true, ..cin };
        assert(clean_fold(cin, spec_block(d) + seq![ElemV::Tags(ModeV::End)], t, d) == Some(
            ctop,
        ));
        assert(fin[0] == ElemV::Tags(ModeV::Start));
        assert(fin.drop_first() =~= spec_block(d) + seq![ElemV::Tags(ModeV::End)]);
        assert(clean_fold(cf, fin, t, d) == Some(ctop));
        assert(clean_fold(clean_init(), out1, t, d) == Some(ctop));
        lemma_inject_clean_identity(out1, t, d);
    }
}

} // verus!

