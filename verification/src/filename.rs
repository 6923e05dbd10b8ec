//! The filename descriptor parser: splits a file name into tokens, scans
//! them for season, episode and quality markers, and reports the title
//! boundaries those markers pin down.

use vstd::prelude::*;

verus! {

/// Whether `c` separates tokens of a file name.
pub open spec fn is_delim(c: char) -> bool {
    c == '.' || c == ' ' || c == '-'
}

/// The index of the first delimiter in `s`, or `s.len()` when none occurs.
pub open spec fn first_delim(s: Seq<char>) -> int
    decreases s.len(),
{
    if s.len() == 0 {
        0
    } else if is_delim(s[0]) {
        0
    } else {
        1 + first_delim(s.drop_first())
    }
}

/// The tokens of `s`, split on `.`, space and `-`, empty tokens kept.
pub open spec fn split_tokens(s: Seq<char>) -> Seq<Seq<char>>
    decreases s.len(),
{
    let d = first_delim(s);
    if 0 <= d < s.len() {
        seq![s.take(d)] + split_tokens(s.skip(d + 1))
    } else {
        seq![s]
    }
}

/// Whether `c` is a decimal digit.
pub open spec fn is_digit(c: char) -> bool {
    c == '0' || c == '1' || c == '2' || c == '3' || c == '4' || c == '5' || c == '6' || c == '7'
        || c == '8' || c == '9'
}

/// The numeric value of a digit character.
pub open spec fn digit_val(c: char) -> int {
    if c == '0' { 0 }
    else if c == '1' { 1 }
    else if c == '2' { 2 }
    else if c == '3' { 3 }
    else if c == '4' { 4 }
    else if c == '5' { 5 }
    else if c == '6' { 6 }
    else if c == '7' { 7 }
    else if c == '8' { 8 }
    else { 9 }
}

/// The longest digit prefix of `s`.
pub open spec fn digit_prefix(s: Seq<char>) -> Seq<char>
    decreases s.len(),
{
    if s.len() > 0 && is_digit(s[0]) {
        seq![s[0]] + digit_prefix(s.drop_first())
    } else {
        Seq::empty()
    }
}

/// The value of a digit string read in decimal.
pub open spec fn digits_val(ds: Seq<char>) -> int
    decreases ds.len(),
{
    if ds.len() == 0 {
        0
    } else {
        digits_val(ds.drop_last()) * 10 + digit_val(ds.last())
    }
}

/// The value of the first letter marker (`s<digits>` or `e<digits>`,
/// case-insensitive) in the token, if any.
pub open spec fn marker_val(tok: Seq<char>, lo: char, up: char) -> Option<int>
    decreases tok.len(),
{
    if tok.len() == 0 {
        None
    } else if (tok[0] == lo || tok[0] == up) && tok.len() >= 2 && is_digit(tok[1]) {
        Some(digits_val(digit_prefix(tok.drop_first())))
    } else {
        marker_val(tok.drop_first(), lo, up)
    }
}

/// The value of the first quality marker (three or more digits directly
/// followed by `p` or `P`) in the token, if any.
pub open spec fn quality_val(tok: Seq<char>) -> Option<int>
    decreases tok.len(),
{
    if tok.len() == 0 {
        None
    } else if is_digit(tok[0]) {
        let run = digit_prefix(tok);
        let rl: int = if 1 <= run.len() <= tok.len() {
            run.len() as int
        } else {
            1
        };
        if run.len() >= 3 && run.len() < tok.len() && (tok[run.len() as int] == 'p' || tok[
            run.len() as int
        ] == 'P') {
            Some(digits_val(run))
        } else {
            quality_val(tok.skip(rl))
        }
    } else {
        quality_val(tok.drop_first())
    }
}

/// Every value a digit string can take is non-negative.
proof fn lemma_digits_val_nonneg(ds: Seq<char>)
    ensures
        digits_val(ds) >= 0,
    decreases ds.len(),
{
    if ds.len() > 0 {
        lemma_digits_val_nonneg(ds.drop_last());
    }
}

/// The value of a digit string is at least the value of any of its
/// prefixes.
proof fn lemma_digits_val_mono(ds: Seq<char>, k: int)
    requires
        0 <= k <= ds.len(),
    ensures
        digits_val(ds) >= digits_val(ds.take(k)),
    decreases ds.len() - k,
{
    if k < ds.len() {
        lemma_digits_val_mono(ds, k + 1);
        assert(ds.take(k + 1).drop_last() =~= ds.take(k));
        lemma_digits_val_nonneg(ds.take(k));
    } else {
        assert(ds.take(k) =~= ds);
    }
}

/// The scanning state the token loop carries: the markers found so far and
/// the two boundaries they pin down.
pub struct ScanState {
    pub season: Option<u32>,
    pub episode: Option<u32>,
    pub quality: Option<u64>,
    /// Earliest token index of any marker: tokens before it form the title.
    pub title_end: int,
    /// Earliest token index of a quality marker: tokens between the title
    /// boundary and it form an embedded episode title.
    pub ep_title_end: int,
}

/// A marker value fits the result field, or the marker is ignored.
pub open spec fn fit_u32(v: Option<int>) -> Option<u32> {
    match v {
        Some(n) => if 0 <= n <= u32::MAX { Some(n as u32) } else { None },
        None => None,
    }
}

/// A quality value fits the result field, or the marker is ignored.
pub open spec fn fit_u64(v: Option<int>) -> Option<u64> {
    match v {
        Some(n) => if 0 <= n <= u64::MAX { Some(n as u64) } else { None },
        None => None,
    }
}

/// One token folded into the scanning state: the three patterns are
/// checked independently; season and episode markers bound the title,
/// a quality marker bounds both the title and the episode-title segment.
pub open spec fn scan_token(st: ScanState, tok: Seq<char>, i: int) -> ScanState {
    let st1 = match fit_u32(marker_val(tok, 's', 'S')) {
        Some(n) => ScanState {
            season: Some(n),
            title_end: if i < st.title_end { i } else { st.title_end },
            ..st
        },
        None => st,
    };
    let st2 = match fit_u32(marker_val(tok, 'e', 'E')) {
        Some(n) => ScanState {
            episode: Some(n),
            title_end: if i < st1.title_end { i } else { st1.title_end },
            ..st1
        },
        None => st1,
    };
    match fit_u64(quality_val(tok)) {
        Some(n) => ScanState {
            quality: Some(n),
            title_end: if i < st2.title_end { i } else { st2.title_end },
            ep_title_end: if i < st2.ep_title_end { i } else { st2.ep_title_end },
            ..st2
        },
        None => st2,
    }
}

/// The scanning state before any token.
pub open spec fn scan_init(n: int) -> ScanState {
    ScanState { season: None, episode: None, quality: None, title_end: n, ep_title_end: n }
}

/// The scanning state after the first `k` tokens.
pub open spec fn scan_upto(toks: Seq<Seq<char>>, k: int) -> ScanState
    decreases k,
{
    if k <= 0 {
        scan_init(toks.len() as int)
    } else {
        scan_token(scan_upto(toks, k - 1), toks[k - 1], k - 1)
    }
}

/// The tokens joined with single spaces.
pub open spec fn join_spaces(toks: Seq<Seq<char>>) -> Seq<char>
    decreases toks.len(),
{
    if toks.len() == 0 {
        Seq::empty()
    } else if toks.len() == 1 {
        toks[0]
    } else {
        join_spaces(toks.drop_last()) + seq![' '] + toks.last()
    }
}

/// What the parser reports of one file name.
pub struct ParsedName {
    /// Tokens before the first marker, joined with spaces.
    pub title: String,
    /// The embedded episode-title segment, when it has at least two tokens.
    pub episode_title: Option<String>,
    pub season: Option<u32>,
    pub episode: Option<u32>,
    pub quality: Option<u64>,
    /// The final token of the name.
    pub extension: String,
}

fn find_delim(s: &str) -> (r: usize)
    ensures
        r == first_delim(s@),
        r <= s@.len(),
    decreases s@.len(),
{
    let n = s.unicode_len();
    if n == 0 {
        return 0;
    }
    let c = s.get_char(0);
    if c == '.' || c == ' ' || c == '-' {
        return 0;
    }
    let rest = s.substring_char(1, n);
    proof {
        assert(rest@ =~= s@.drop_first());
    }
    let d = find_delim(rest);
    d + 1
}

/// Splits a file name into its tokens, empty tokens kept.
pub fn split_tokens_exec(s: &str) -> (r: Vec<String>)
    ensures
        r.deep_view() == split_tokens(s@),
        r.len() >= 1,
    decreases s@.len(),
{
    let n = s.unicode_len();
    let d = find_delim(s);
    if d == n {
        let mut v: Vec<String> = Vec::new();
        v.push(s.to_owned());
        proof {
            assert(v.deep_view() =~= split_tokens(s@));
        }
        v
    } else {
        let tok = s.substring_char(0, d);
        let rest = s.substring_char(d + 1, n);
        proof {
            assert(tok@ =~= s@.take(d as int));
            assert(rest@ =~= s@.skip(d as int + 1));
        }
        let mut v: Vec<String> = Vec::new();
        v.push(tok.to_owned());
        let mut rv = split_tokens_exec(rest);
        v.append(&mut rv);
        proof {
            assert(v.deep_view() =~= split_tokens(s@));
        }
        v
    }
}

/// Reads the longest digit prefix of `s` as a decimal number; `None` when
/// its value does not fit the field.
fn parse_digit_prefix(s: &str) -> (r: Option<u64>)
    ensures
        r == fit_u64(Some(digits_val(digit_prefix(s@)))),
{
    let n = s.unicode_len();
    let mut k: usize = 0;
    while k < n
        invariant
            0 <= k <= n,
            n == s@.len(),
            forall|j: int| 0 <= j < k ==> is_digit(s@[j]),
        ensures
            0 <= k <= n,
            n == s@.len(),
            forall|j: int| 0 <= j < k ==> is_digit(s@[j]),
            k == n || !is_digit(s@[k as int]),
        decreases n - k,
    {
        let c = s.get_char(k);
        let dig: bool = c == '0' || c == '1' || c == '2' || c == '3' || c == '4' || c == '5' || c
            == '6' || c == '7' || c == '8' || c == '9';
        if !dig {
            break ;
        }
        k += 1;
    }
    proof {
        lemma_digit_prefix_chars(s@, k as int);
    }
    let ghost ds = digit_prefix(s@);
    let mut acc: u64 = 0;
    let mut overflow: bool = false;
    let mut i: usize = 0;
    proof {
        assert(ds.take(0) =~= Seq::<char>::empty());
    }
    while i < k
        invariant
            0 <= i <= k <= n,
            n == s@.len(),
            ds == digit_prefix(s@),
            ds =~= s@.take(k as int),
            ds.len() == k,
            forall|j: int| 0 <= j < k ==> is_digit(s@[j]),
            !overflow ==> acc == digits_val(ds.take(i as int)),
            overflow ==> digits_val(ds) > u64::MAX,
        decreases k - i,
    {
        let c = s.get_char(i);
        let d: u64 = if c == '0' { 0 }
        else if c == '1' { 1 }
        else if c == '2' { 2 }
        else if c == '3' { 3 }
        else if c == '4' { 4 }
        else if c == '5' { 5 }
        else if c == '6' { 6 }
        else if c == '7' { 7 }
        else if c == '8' { 8 }
        else { 9 };
        proof {
            assert(is_digit(s@[i as int]));
            assert(ds[i as int] == s@[i as int]);
            assert(d == digit_val(ds[i as int]));
            assert(ds.take(i as int + 1).drop_last() =~= ds.take(i as int));
            assert(ds.take(i as int + 1).last() == ds[i as int]);
        }
        if !overflow {
            if acc > (u64::MAX - d) / 10 {
                overflow = true;
                proof {
                    assert(acc * 10 + d > u64::MAX) by (nonlinear_arith)
                        requires
                            acc > (u64::MAX - d) / 10,
                            d <= 9,
                            acc >= 0,
                    ;
                    assert(digits_val(ds.take(i as int + 1)) > u64::MAX);
                    lemma_digits_val_mono(ds, i as int + 1);
                    assert(ds.take(ds.len() as int) =~= ds);
                }
            } else {
                proof {
                    assert(acc * 10 + d <= u64::MAX) by (nonlinear_arith)
                        requires
                            acc <= (u64::MAX - d) / 10,
                            d <= 9,
                            acc >= 0,
                    ;
                }
                acc = acc * 10 + d;
            }
        } else {
            proof {
                lemma_digits_val_nonneg(ds.take(i as int));
            }
        }
        i += 1;
    }
    proof {
        assert(ds.take(k as int) =~= ds);
    }
    if overflow {
        None
    } else {
        proof {
            lemma_digits_val_nonneg(ds);
        }
        Some(acc)
    }
}

/// Invariant shape of `parse_digit_prefix`'s loop, kept as a lemma for the
/// digit-prefix characterization: the prefix is exactly the run of digits.
proof fn lemma_digit_prefix_chars(s: Seq<char>, i: int)
    requires
        0 <= i <= s.len(),
        forall|j: int| 0 <= j < i ==> is_digit(s[j]),
        i == s.len() || !is_digit(s[i]),
    ensures
        digit_prefix(s).len() == i,
        digit_prefix(s) =~= s.take(i),
    decreases s.len(),
{
    if s.len() > 0 && is_digit(s[0]) {
        assert(i >= 1);
        lemma_digit_prefix_chars(s.drop_first(), i - 1);
        assert(digit_prefix(s) =~= seq![s[0]] + digit_prefix(s.drop_first()));
        assert(digit_prefix(s) =~= s.take(i));
    } else {
        assert(i == 0);
    }
}


/// Scans one token for a letter marker and reads its number; the marker is
/// ignored when the number does not fit.
fn marker_scan_u32(tok: &str, lo: char, up: char) -> (r: Option<u32>)
    ensures
        r == fit_u32(marker_val(tok@, lo, up)),
    decreases tok@.len(),
{
    let n = tok.unicode_len();
    if n == 0 {
        return None;
    }
    let c = tok.get_char(0);
    let second_digit: bool = if n >= 2 {
        let c1 = tok.get_char(1);
        c1 == '0' || c1 == '1' || c1 == '2' || c1 == '3' || c1 == '4' || c1 == '5' || c1 == '6'
            || c1 == '7' || c1 == '8' || c1 == '9'
    } else {
        false
    };
    if (c == lo || c == up) && second_digit {
        let rest = tok.substring_char(1, n);
        proof {
            assert(rest@ =~= tok@.drop_first());
        }
        let ghost dv = digits_val(digit_prefix(rest@));
        proof {
            lemma_digits_val_nonneg(digit_prefix(rest@));
        }
        match parse_digit_prefix(rest) {
            Some(v) => {
                if v <= 0xFFFF_FFFF {
                    Some(v as u32)
                } else {
                    None
                }
            },
            None => None,
        }
    } else {
        let rest = tok.substring_char(1, n);
        proof {
            assert(rest@ =~= tok@.drop_first());
        }
        marker_scan_u32(rest, lo, up)
    }
}

/// Scans one token for a quality marker and reads its number; the marker
/// is ignored when the number does not fit.
fn quality_scan(tok: &str) -> (r: Option<u64>)
    ensures
        r == fit_u64(quality_val(tok@)),
    decreases tok@.len(),
{
    let n = tok.unicode_len();
    if n == 0 {
        return None;
    }
    let c = tok.get_char(0);
    let dig0: bool = c == '0' || c == '1' || c == '2' || c == '3' || c == '4' || c == '5' || c
        == '6' || c == '7' || c == '8' || c == '9';
    if !dig0 {
        let rest = tok.substring_char(1, n);
        proof {
            assert(rest@ =~= tok@.drop_first());
        }
        return quality_scan(rest);
    }
    let mut k: usize = 0;
    while k < n
        invariant
            0 <= k <= n,
            n == tok@.len(),
            forall|j: int| 0 <= j < k ==> is_digit(tok@[j]),
        ensures
            0 <= k <= n,
            n == tok@.len(),
            forall|j: int| 0 <= j < k ==> is_digit(tok@[j]),
            k == n || !is_digit(tok@[k as int]),
        decreases n - k,
    {
        let ck = tok.get_char(k);
        let dg: bool = ck == '0' || ck == '1' || ck == '2' || ck == '3' || ck == '4' || ck == '5'
            || ck == '6' || ck == '7' || ck == '8' || ck == '9';
        if !dg {
            break ;
        }
        k += 1;
    }
    proof {
        lemma_digit_prefix_chars(tok@, k as int);
        assert(k >= 1);
    }
    let after_p: bool = if k < n {
        let cp = tok.get_char(k);
        cp == 'p' || cp == 'P'
    } else {
        false
    };
    if k >= 3 && after_p {
        proof {
            lemma_digits_val_nonneg(digit_prefix(tok@));
        }
        parse_digit_prefix(tok)
    } else {
        let rest = tok.substring_char(k, n);
        proof {
            assert(rest@ =~= tok@.skip(k as int));
        }
        quality_scan(rest)
    }
}

/// Joins the tokens in `[from, to)` with single spaces.
fn join_spaces_exec(toks: &Vec<String>, from: usize, to: usize) -> (r: String)
    requires
        from <= to <= toks.len(),
    ensures
        r@ == join_spaces(toks.deep_view().subrange(from as int, to as int)),
{
    let ghost dv = toks.deep_view();
    let mut acc = String::new();
    let mut k: usize = from;
    proof {
        assert(dv.subrange(from as int, from as int) =~= Seq::<Seq<char>>::empty());
    }
    while k < to
        invariant
            from <= k <= to <= toks.len(),
            dv == toks.deep_view(),
            acc@ == join_spaces(dv.subrange(from as int, k as int)),
        decreases to - k,
    {
        if k > from {
            acc.append(" ");
        }
        acc.append(toks[k].as_str());
        proof {
            reveal_strlit(" ");
            let sub1 = dv.subrange(from as int, k as int + 1);
            assert(sub1.drop_last() =~= dv.subrange(from as int, k as int));
            assert(sub1.last() == dv[k as int]);
            assert(acc@ =~= join_spaces(sub1));
        }
        k += 1;
    }
    acc
}

/// Decomposes a file name: the final token is the extension; the rest are
/// scanned left to right for season (`s<digits>`), episode (`e<digits>`)
/// and quality (`<3+ digits>p`) markers, which pin down the title and an
/// optional embedded episode-title segment.
pub fn parse_file_name(name: &str) -> (r: ParsedName)
    ensures
        ({
            let toks = split_tokens(name@);
            let body = toks.drop_last();
            let st = scan_upto(body, body.len() as int);
            &&& r.extension@ == toks.last()
            &&& r.season == st.season
            &&& r.episode == st.episode
            &&& r.quality == st.quality
            &&& r.title@ == join_spaces(body.take(st.title_end))
            &&& st.ep_title_end - st.title_end > 1 ==> (r.episode_title matches Some(et) && et@
                == join_spaces(body.subrange(st.title_end + 1, st.ep_title_end)))
            &&& st.ep_title_end - st.title_end <= 1 ==> r.episode_title is None
        }),
{
    let ghost all = split_tokens(name@);
    let mut toks = split_tokens_exec(name);
    let extension = match toks.pop() {
        Some(e) => e,
        None => String::new(),
    };
    let ghost body = all.drop_last();
    proof {
        assert(toks.deep_view() =~= body);
        assert(extension@ == all.last());
    }
    let nb = toks.len();
    let mut season: Option<u32> = None;
    let mut episode: Option<u32> = None;
    let mut quality: Option<u64> = None;
    let mut title_end: usize = nb;
    let mut ep_title_end: usize = nb;
    let mut i: usize = 0;
    while i < nb
        invariant
            0 <= i <= nb,
            nb == toks.len(),
            body == toks.deep_view(),
            title_end <= ep_title_end <= nb,
            scan_upto(body, i as int) == (ScanState {
                season,
                episode,
                quality,
                title_end: title_end as int,
                ep_title_end: ep_title_end as int,
            }),
        decreases nb - i,
    {
        let ghost st_pre = scan_upto(body, i as int);
        let tokref = &toks[i];
        proof {
            assert(body[i as int] == tokref@);
        }
        if let Some(v) = marker_scan_u32(tokref.as_str(), 's', 'S') {
            season = Some(v);
            if i < title_end {
                title_end = i;
            }
        }
        if let Some(v) = marker_scan_u32(tokref.as_str(), 'e', 'E') {
            episode = Some(v);
            if i < title_end {
                title_end = i;
            }
        }
        if let Some(v) = quality_scan(tokref.as_str()) {
            quality = Some(v);
            if i < title_end {
                title_end = i;
            }
            if i < ep_title_end {
                ep_title_end = i;
            }
        }
        proof {
            assert(scan_upto(body, i as int + 1) == scan_token(st_pre, body[i as int], i as int));
        }
        i += 1;
    }
    let title = join_spaces_exec(&toks, 0, title_end);
    proof {
        assert(body.take(title_end as int) =~= body.subrange(0, title_end as int));
    }
    let episode_title: Option<String> = if ep_title_end - title_end > 1 {
        Some(join_spaces_exec(&toks, title_end + 1, ep_title_end))
    } else {
        None
    };
    ParsedName { title, episode_title, season, episode, quality, extension }
}

} // verus!
