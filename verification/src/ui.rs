//! What the screens show, as text: the screen's name, the percentage of the
//! list scrolled, search matches highlighted inside a line, names cut to a
//! column width, descriptions wrapped to the panel, the status and hint
//! lines, and the rows that fit on screen.
use vstd::prelude::*;

use crate::app::{App, AppView, InputMode, Mode, SortMode};
use crate::guide::{is_airing, ChannelRow, ProgrammeRow};
use crate::search::match_count;
use crate::text::{
    append, char_lower, char_to_lower, chars_of, decimal, decimal_string, lower, owned, push_char,
    string_of, to_lower,
};

verus! {

// ---------------------------------------------------------------------------
// Small helpers
// ---------------------------------------------------------------------------

/// `pos` as a whole percentage of `total`, or 0 for an empty list.
pub open spec fn spec_pct(pos: nat, total: nat) -> nat {
    if total == 0 {
        0
    } else {
        (pos * 100) / total
    }
}

/// `pos` as a whole percentage of `total` (rounded down); 0 when `total` is 0.
pub fn pct(pos: usize, total: usize) -> (r: usize)
    requires
        pos * 100 <= usize::MAX,
    ensures
        r == spec_pct(pos as nat, total as nat),
{
    let p = pos * 100;
    if total == 0 {
        0
    } else {
        p / total
    }
}

/// The name of a screen as the title and status bars show it.
pub open spec fn spec_mode_name(m: Mode) -> Seq<char> {
    match m {
        Mode::Channels => "CHANNELS"@,
        Mode::Programmes => "PROGRAMMES"@,
        Mode::Detail => "DETAIL"@,
        Mode::Help => "HELP"@,
    }
}

/// The name of the screen that is showing.
pub fn mode_name(app: &App) -> (r: &'static str)
    ensures
        r@ == spec_mode_name(app.mode),
{
    match app.mode {
        Mode::Channels => "CHANNELS",
        Mode::Programmes => "PROGRAMMES",
        Mode::Detail => "DETAIL",
        Mode::Help => "HELP",
    }
}

/// The name of a sort mode as the title bar shows it.
pub open spec fn spec_sort_name(s: SortMode) -> Seq<char> {
    match s {
        SortMode::Name => "name"@,
        SortMode::Count => "count"@,
    }
}

/// The name of a sort mode.
pub fn sort_name(s: SortMode) -> (r: &'static str)
    ensures
        r@ == spec_sort_name(s),
{
    match s {
        SortMode::Name => "name",
        SortMode::Count => "count",
    }
}

// ---------------------------------------------------------------------------
// Case-insensitive matching and highlighting
// ---------------------------------------------------------------------------

/// `s` starts with `q` when each of `s`'s first characters lowercases to
/// exactly the corresponding character of `q` (which is already lowercase).
pub open spec fn ic_prefix(s: Seq<char>, q: Seq<char>) -> bool {
    &&& q.len() <= s.len()
    &&& forall|i: int| 0 <= i < q.len() ==> char_lower(#[trigger] s[i]) == seq![q[i]]
}

/// True if `s` starts with `query_lower`, comparing character by character
/// ignoring case; `query_lower` must already be lowercase.
pub fn starts_with_ignore_case(s: &str, query_lower: &str) -> (r: bool)
    ensures
        r == ic_prefix(s@, query_lower@),
{
    let t = chars_of(s);
    let q = chars_of(query_lower);
    assert(t@.skip(0) =~= t@);
    ic_prefix_at(&t, &q, 0)
}

fn ic_prefix_at(t: &Vec<char>, q: &Vec<char>, i: usize) -> (r: bool)
    requires
        i <= t@.len(),
    ensures
        r == ic_prefix(t@.skip(i as int), q@),
{
    let ghost u = t@.skip(i as int);
    let mut k: usize = 0;
    while k < q.len()
        invariant
            i <= t@.len(),
            u == t@.skip(i as int),
            k <= q@.len(),
            k <= u.len(),
            forall|j: int| 0 <= j < k ==> char_lower(#[trigger] u[j]) == seq![q@[j]],
        decreases q.len() - k,
    {
        if k >= t.len() - i {
            return false;
        }
        let lc = char_to_lower(t[i + k]);
        assert(u[k as int] == t@[i + k]);
        if !(lc.len() == 1 && lc[0] == q[k]) {
            proof {
                if lc@.len() == 1 {
                    assert(seq![q@[k as int]][0] != lc@[0]);
                }
                assert(char_lower(u[k as int]) != seq![q@[k as int]]);
            }
            return false;
        }
        proof {
            assert(lc@ =~= seq![q@[k as int]]);
        }
        k = k + 1;
    }
    true
}

/// A piece of a line: its text and whether it is a search match.
#[derive(Debug)]
pub struct Segment {
    pub text: String,
    pub highlighted: bool,
}

/// A segment as its characters and its highlight flag.
pub open spec fn seg_view(s: Segment) -> (Seq<char>, bool) {
    (s.text@, s.highlighted)
}

/// The segments of `t` from position `i` on, where the current plain run
/// started at `start`: scanning left to right, each place where `q` starts
/// (ignoring case) becomes a highlighted segment and the scan resumes after
/// it; the text in between forms plain segments.
pub open spec fn segs_from(t: Seq<char>, q: Seq<char>, start: nat, i: nat) -> Seq<(Seq<char>, bool)>
    decreases t.len() - i,
{
    if i >= t.len() || q.len() == 0 {
        if start < t.len() {
            seq![(t.subrange(start as int, t.len() as int), false)]
        } else {
            Seq::empty()
        }
    } else if ic_prefix(t.skip(i as int), q) {
        let end = i + q.len();
        let lead = if start < i {
            seq![(t.subrange(start as int, i as int), false)]
        } else {
            Seq::<(Seq<char>, bool)>::empty()
        };
        lead + seq![(t.subrange(i as int, end as int), true)] + segs_from(t, q, end, end)
    } else {
        segs_from(t, q, start, i + 1)
    }
}

/// `t` split into plain and highlighted segments for the lowercased query
/// `q`; with an empty query the whole text is one plain segment.
pub open spec fn highlight(t: Seq<char>, q: Seq<char>) -> Seq<(Seq<char>, bool)> {
    if q.len() == 0 {
        seq![(t, false)]
    } else {
        segs_from(t, q, 0, 0)
    }
}

/// The text of the segments, joined.
pub open spec fn joined(s: Seq<(Seq<char>, bool)>) -> Seq<char>
    decreases s.len(),
{
    if s.len() == 0 {
        Seq::empty()
    } else {
        joined(s.drop_last()) + s.last().0
    }
}

proof fn lemma_joined_one(x: (Seq<char>, bool))
    ensures
        joined(seq![x]) == x.0,
{
    assert(seq![x].drop_last() =~= Seq::<(Seq<char>, bool)>::empty());
    assert(joined(Seq::<(Seq<char>, bool)>::empty()) + x.0 =~= x.0);
}

proof fn lemma_joined_append(a: Seq<(Seq<char>, bool)>, b: Seq<(Seq<char>, bool)>)
    ensures
        joined(a + b) == joined(a) + joined(b),
    decreases b.len(),
{
    if b.len() == 0 {
        assert(a + b =~= a);
        assert(joined(b) =~= Seq::<char>::empty());
        assert(joined(a) + joined(b) =~= joined(a));
    } else {
        lemma_joined_append(a, b.drop_last());
        assert((a + b).drop_last() =~= a + b.drop_last());
        assert((a + b).last() == b.last());
        assert(joined(a) + joined(b.drop_last()) + b.last().0 =~= joined(a) + (joined(
            b.drop_last(),
        ) + b.last().0));
    }
}

proof fn lemma_segs_from_join(t: Seq<char>, q: Seq<char>, start: nat, i: nat)
    requires
        start <= i,
        i <= t.len(),
    ensures
        joined(segs_from(t, q, start, i)) == t.subrange(start as int, t.len() as int),
        forall|k: int|
            0 <= k < segs_from(t, q, start, i).len() && (#[trigger] segs_from(t, q, start, i)[k]).1
                ==> ic_prefix(segs_from(t, q, start, i)[k].0, q) && segs_from(t, q, start, i)[k].0.len()
                == q.len(),
    decreases t.len() - i,
{
    let s = segs_from(t, q, start, i);
    if i >= t.len() || q.len() == 0 {
        if start < t.len() {
            lemma_joined_one((t.subrange(start as int, t.len() as int), false));
        } else {
            assert(t.subrange(start as int, t.len() as int) =~= Seq::<char>::empty());
        }
    } else if ic_prefix(t.skip(i as int), q) {
        let end = i + q.len();
        let lead = if start < i {
            seq![(t.subrange(start as int, i as int), false)]
        } else {
            Seq::<(Seq<char>, bool)>::empty()
        };
        let mid = seq![(t.subrange(i as int, end as int), true)];
        let rest = segs_from(t, q, end, end);
        lemma_segs_from_join(t, q, end, end);
        lemma_joined_append(lead + mid, rest);
        lemma_joined_append(lead, mid);
        lemma_joined_one((t.subrange(i as int, end as int), true));
        assert(joined(lead) =~= t.subrange(start as int, i as int)) by {
            if start < i {
                lemma_joined_one((t.subrange(start as int, i as int), false));
            } else {
                assert(t.subrange(start as int, i as int) =~= Seq::<char>::empty());
            }
        }
        assert(t.subrange(start as int, i as int) + t.subrange(i as int, end as int) + t.subrange(
            end as int,
            t.len() as int,
        ) =~= t.subrange(start as int, t.len() as int));
        assert(ic_prefix(t.subrange(i as int, end as int), q)) by {
            assert forall|j: int| 0 <= j < q.len() implies char_lower(
                #[trigger] t.subrange(i as int, end as int)[j],
            ) == seq![q[j]] by {
                assert(t.subrange(i as int, end as int)[j] == t.skip(i as int)[j]);
            }
        }
        assert forall|k: int| 0 <= k < s.len() && (#[trigger] s[k]).1 implies ic_prefix(s[k].0, q)
            && s[k].0.len() == q.len() by {
            assert(s == lead + mid + rest);
            if k >= lead.len() + 1 {
                assert(s[k] == rest[k - lead.len() - 1]);
            } else if k == lead.len() {
                assert(s[k] == mid[0]);
            } else {
                assert(s[k] == lead[k]);
            }
        }
    } else {
        lemma_segs_from_join(t, q, start, i + 1);
    }
}

/// Highlighting only splits the text: the segments joined give the text
/// back, and every highlighted segment is an occurrence of the query
/// (ignoring case) of the query's length.
pub proof fn lemma_highlight_splits_text(t: Seq<char>, q: Seq<char>)
    ensures
        joined(highlight(t, q)) == t,
        forall|k: int|
            0 <= k < highlight(t, q).len() && (#[trigger] highlight(t, q)[k]).1 ==> ic_prefix(
                highlight(t, q)[k].0,
                q,
            ) && highlight(t, q)[k].0.len() == q.len(),
{
    if q.len() == 0 {
        lemma_joined_one((t, false));
    } else {
        lemma_segs_from_join(t, q, 0, 0);
        assert(t.subrange(0, t.len() as int) =~= t);
    }
}

fn slice_string(t: &Vec<char>, a: usize, b: usize) -> (s: String)
    requires
        a <= b <= t@.len(),
    ensures
        s@ == t@.subrange(a as int, b as int),
{
    let mut s = String::new();
    let mut i = a;
    while i < b
        invariant
            a <= i <= b,
            b <= t@.len(),
            s@ == t@.subrange(a as int, i as int),
        decreases b - i,
    {
        push_char(&mut s, t[i]);
        assert(t@.subrange(a as int, i + 1) =~= t@.subrange(a as int, i as int).push(t@[i as int]));
        i = i + 1;
    }
    s
}

/// Splits `text` into segments, highlighting case-insensitive occurrences of
/// `query_lower` (which must already be lowercase), scanning left to right.
pub fn highlight_segments(text: &str, query_lower: &str) -> (r: Vec<Segment>)
    ensures
        r@.map_values(|s: Segment| seg_view(s)) == highlight(text@, query_lower@),
{
    let t = chars_of(text);
    let q = chars_of(query_lower);
    let mut out: Vec<Segment> = Vec::new();
    if q.len() == 0 {
        out.push(Segment { text: owned(text), highlighted: false });
        assert(out@.map_values(|s: Segment| seg_view(s)) =~= seq![(text@, false)]);
        return out;
    }
    let n = t.len();
    let qlen = q.len();
    let mut plain_start: usize = 0;
    let mut i: usize = 0;
    assert(out@.map_values(|s: Segment| seg_view(s)) =~= Seq::<(Seq<char>, bool)>::empty());
    while i < n
        invariant
            t@ == text@,
            q@ == query_lower@,
            n == t@.len(),
            qlen == q@.len(),
            qlen > 0,
            plain_start <= i <= n,
            out@.map_values(|s: Segment| seg_view(s)) + segs_from(t@, q@, plain_start as nat, i as nat)
                == segs_from(t@, q@, 0, 0),
        decreases n - i,
    {
        let ghost before = out@.map_values(|s: Segment| seg_view(s));
        if ic_prefix_at(&t, &q, i) {
            let end = i + qlen;
            if plain_start < i {
                out.push(Segment { text: slice_string(&t, plain_start, i), highlighted: false });
            }
            out.push(Segment { text: slice_string(&t, i, end), highlighted: true });
            proof {
                let lead = if plain_start < i {
                    seq![(t@.subrange(plain_start as int, i as int), false)]
                } else {
                    Seq::<(Seq<char>, bool)>::empty()
                };
                let mid = seq![(t@.subrange(i as int, end as int), true)];
                assert(out@.map_values(|s: Segment| seg_view(s)) =~= before + lead + mid);
                assert(before + (lead + mid + segs_from(t@, q@, end as nat, end as nat)) =~= before
                    + lead + mid + segs_from(t@, q@, end as nat, end as nat));
            }
            i = end;
            plain_start = end;
        } else {
            i = i + 1;
        }
    }
    let ghost before = out@.map_values(|s: Segment| seg_view(s));
    if plain_start < n {
        out.push(Segment { text: slice_string(&t, plain_start, n), highlighted: false });
        assert(out@.map_values(|s: Segment| seg_view(s)) =~= before + seq![
            (t@.subrange(plain_start as int, n as int), false),
        ]);
    } else {
        assert(before + Seq::<(Seq<char>, bool)>::empty() =~= before);
    }
    out
}


// ---------------------------------------------------------------------------
// Column widths and truncation
// ---------------------------------------------------------------------------

/// The display width of a character as `unicode_width` gives it: `None` for
/// control characters.
pub uninterp spec fn char_width(c: char) -> Option<usize>;

/// The display width of a string as `unicode_width` gives it.
pub uninterp spec fn str_width(s: Seq<char>) -> usize;

/// Calls `UnicodeWidthChar::width`; the result is named `char_width`.
#[verifier::external_body]
fn width_of_char(c: char) -> (r: Option<usize>)
    ensures
        r == char_width(c),
{
    unicode_width::UnicodeWidthChar::width(c)
}

/// Calls `UnicodeWidthStr::width`; the result is named `str_width`.
#[verifier::external_body]
fn width_of_str(s: &str) -> (r: usize)
    ensures
        r == str_width(s@),
{
    unicode_width::UnicodeWidthStr::width(s)
}

/// The columns a character takes; control characters take none.
pub open spec fn cols(c: char) -> nat {
    match char_width(c) {
        Some(w) => w as nat,
        None => 0,
    }
}

/// The columns the characters of `s` take together.
pub open spec fn cols_sum(s: Seq<char>) -> nat
    decreases s.len(),
{
    if s.len() == 0 {
        0
    } else {
        cols_sum(s.drop_last()) + cols(s.last())
    }
}

/// How many leading characters of `s` fit in `max` columns, counting from
/// position `i` with `w` columns already used, and the columns they use:
/// characters are taken until the next one would not fit.
pub open spec fn fit_from(s: Seq<char>, max: nat, i: nat, w: nat) -> (nat, nat)
    decreases s.len() - i,
{
    if i >= s.len() {
        (i, w)
    } else if w + cols(s[i as int]) > max {
        (i, w)
    } else {
        fit_from(s, max, i + 1, w + cols(s[i as int]))
    }
}

/// `s` cut to `max` columns; an ellipsis marks a cut when a column is left
/// for it.
pub open spec fn spec_truncate(s: Seq<char>, max: nat) -> Seq<char> {
    let (k, w) = fit_from(s, max, 0, 0);
    if k < s.len() && w < max {
        s.take(k as int).push('…')
    } else {
        s.take(k as int)
    }
}

proof fn lemma_fit_from(s: Seq<char>, max: nat, i: nat, w: nat)
    requires
        i <= s.len(),
        w == cols_sum(s.take(i as int)),
        w <= max,
    ensures
        ({
            let (k, v) = fit_from(s, max, i, w);
            &&& i <= k <= s.len()
            &&& v == cols_sum(s.take(k as int))
            &&& v <= max
            &&& k < s.len() ==> v + cols(s[k as int]) > max
        }),
    decreases s.len() - i,
{
    if i < s.len() && w + cols(s[i as int]) <= max {
        assert(s.take(i + 1 as int).drop_last() =~= s.take(i as int));
        lemma_fit_from(s, max, i + 1, w + cols(s[i as int]));
    }
}

proof fn lemma_cols_sum_prefix(s: Seq<char>, k: int)
    requires
        0 <= k <= s.len(),
    ensures
        cols_sum(s.take(k)) <= cols_sum(s),
    decreases s.len() - k,
{
    if k < s.len() {
        lemma_cols_sum_prefix(s, k + 1 as int);
        assert(s.take(k + 1).drop_last() =~= s.take(k));
    } else {
        assert(s.take(k) =~= s);
    }
}

/// A cut name keeps the longest prefix of the characters that fits in `max`
/// columns (plus the ellipsis), and a name that fits is left as it is.
pub proof fn lemma_truncate(s: Seq<char>, max: nat)
    ensures
        ({
            let (k, w) = fit_from(s, max, 0, 0);
            &&& k <= s.len()
            &&& spec_truncate(s, max).take(k as int) == s.take(k as int)
            &&& cols_sum(s.take(k as int)) <= max
            &&& (spec_truncate(s, max).len() == k || (spec_truncate(s, max).len() == k + 1
                && spec_truncate(s, max)[k as int] == '…'))
            &&& forall|j: int| k < j <= s.len() ==> cols_sum(#[trigger] s.take(j)) > max
        }),
        cols_sum(s) <= max ==> spec_truncate(s, max) == s,
{
    assert(s.take(0) =~= Seq::<char>::empty());
    lemma_fit_from(s, max, 0, 0);
    let (k, w) = fit_from(s, max, 0, 0);
    assert(s.take(k as int).push('…').take(k as int) =~= s.take(k as int));
    if cols_sum(s) <= max && k < s.len() {
        lemma_cols_sum_prefix(s, k + 1 as int);
        assert(s.take(k + 1 as int).drop_last() =~= s.take(k as int));
    }
    if k == s.len() {
        assert(s.take(k as int) =~= s);
    }
    assert forall|j: int| k < j <= s.len() implies cols_sum(#[trigger] s.take(j)) > max by {
        let t = s.take(j);
        let k1 = k as int + 1;
        lemma_cols_sum_prefix(t, k1);
        assert(t.take(k1) =~= s.take(k1));
        assert(s.take(k1).drop_last() =~= s.take(k as int));
    }
}

fn fit(cs: &Vec<char>, max: usize) -> (r: (usize, usize))
    ensures
        r.0 as nat == fit_from(cs@, max as nat, 0, 0).0,
        r.1 as nat == fit_from(cs@, max as nat, 0, 0).1,
{
    let mut i: usize = 0;
    let mut w: usize = 0;
    while i < cs.len()
        invariant
            i <= cs@.len(),
            w <= max,
            fit_from(cs@, max as nat, i as nat, w as nat) == fit_from(cs@, max as nat, 0, 0),
        decreases cs.len() - i,
    {
        let cw = match width_of_char(cs[i]) {
            Some(x) => x,
            None => 0,
        };
        if cw > max - w {
            return (i, w);
        }
        w = w + cw;
        i = i + 1;
    }
    (i, w)
}

/// Cuts `s` to at most `max` display columns, adding an ellipsis when
/// something was cut and a column is left for it.
pub fn truncate(s: &str, max: usize) -> (r: String)
    ensures
        r@ == spec_truncate(s@, max as nat),
{
    let cs = chars_of(s);
    let (k, w) = fit(&cs, max);
    proof {
        assert(cs@.take(0) =~= Seq::<char>::empty());
        lemma_fit_from(cs@, max as nat, 0, 0);
    }
    let mut out = slice_string(&cs, 0, k);
    assert(cs@.subrange(0, k as int) =~= cs@.take(k as int));
    if k < cs.len() && w < max {
        push_char(&mut out, '…');
    }
    out
}

// ---------------------------------------------------------------------------
// Wrapping descriptions
// ---------------------------------------------------------------------------

/// The pieces of `s` between line breaks (`str::split('\n')`): one more
/// piece than there are breaks.
pub open spec fn split_lines(s: Seq<char>) -> Seq<Seq<char>>
    decreases s.len(),
{
    if s.len() == 0 {
        seq![Seq::<char>::empty()]
    } else {
        let p = split_lines(s.drop_last());
        if s.last() == '\n' {
            p.push(Seq::empty())
        } else {
            p.update(p.len() - 1, p.last().push(s.last()))
        }
    }
}

/// The words of `s` (`str::split_whitespace`), and whether `s` ends inside
/// a word.
pub open spec fn words_acc(s: Seq<char>) -> (Seq<Seq<char>>, bool)
    decreases s.len(),
{
    if s.len() == 0 {
        (Seq::empty(), false)
    } else {
        let (ws, in_word) = words_acc(s.drop_last());
        let c = s.last();
        if crate::text::is_ws(c) {
            (ws, false)
        } else if in_word && ws.len() > 0 {
            (ws.update(ws.len() - 1, ws.last().push(c)), true)
        } else {
            (ws.push(seq![c]), true)
        }
    }
}

/// The maximal runs of non-whitespace characters of `s`.
pub open spec fn words(s: Seq<char>) -> Seq<Seq<char>> {
    words_acc(s).0
}

/// Greedy filling of lines of at most `width` columns with `ws`, words
/// separated by one space; a word that does not fit starts a new line, and
/// a word wider than a line stands alone. Gives the finished lines, the line
/// being filled and its width.
pub open spec fn wrap_words(ws: Seq<Seq<char>>, width: usize) -> (Seq<Seq<char>>, Seq<char>, int)
    decreases ws.len(),
{
    if ws.len() == 0 {
        (Seq::empty(), Seq::empty(), 0)
    } else {
        let (out, line, w) = wrap_words(ws.drop_last(), width);
        let word = ws.last();
        let ww = str_width(word) as int;
        let extra: int = if line.len() == 0 {
            0
        } else {
            1
        };
        let (out2, line2, w2) = if w + extra + ww > width && line.len() > 0 {
            (out.push(line), Seq::<char>::empty(), 0int)
        } else {
            (out, line, w)
        };
        let (line3, w3) = if line2.len() > 0 {
            (line2.push(' '), w2 + 1)
        } else {
            (line2, w2)
        };
        (out2, line3 + word, w3 + ww)
    }
}

/// One paragraph wrapped to `width` columns.
pub open spec fn wrap_para(p: Seq<char>, width: usize) -> Seq<Seq<char>> {
    let (out, line, _w) = wrap_words(words(p), width);
    out.push(line)
}

/// The first `n` paragraphs wrapped, one after the other.
pub open spec fn wrap_paras(ps: Seq<Seq<char>>, width: usize, n: nat) -> Seq<Seq<char>>
    decreases n,
{
    if n == 0 {
        Seq::empty()
    } else {
        wrap_paras(ps, width, (n - 1) as nat) + wrap_para(ps[n - 1], width)
    }
}

/// `s` wrapped to `width` columns, paragraph by paragraph; an empty result
/// is one empty line.
pub open spec fn spec_textwrap(s: Seq<char>, width: usize) -> Seq<Seq<char>> {
    let ps = split_lines(s);
    let r = wrap_paras(ps, width, ps.len());
    if r.len() == 0 {
        seq![Seq::empty()]
    } else {
        r
    }
}

proof fn lemma_split_lines_nonempty(s: Seq<char>)
    ensures
        split_lines(s).len() >= 1,
    decreases s.len(),
{
    if s.len() > 0 {
        lemma_split_lines_nonempty(s.drop_last());
    }
}

proof fn lemma_words_nonempty(s: Seq<char>)
    ensures
        forall|i: int| 0 <= i < words(s).len() ==> (#[trigger] words(s)[i]).len() > 0,
        words_acc(s).1 ==> words(s).len() > 0,
    decreases s.len(),
{
    if s.len() > 0 {
        lemma_words_nonempty(s.drop_last());
        let (ws, in_word) = words_acc(s.drop_last());
        let c = s.last();
        if !crate::text::is_ws(c) && in_word && ws.len() > 0 {
            let ws2 = ws.update(ws.len() - 1, ws.last().push(c));
            assert forall|i: int| 0 <= i < ws2.len() implies (#[trigger] ws2[i]).len() > 0 by {
                if i < ws.len() - 1 {
                    assert(ws2[i] == ws[i]);
                    assert(words(s.drop_last())[i].len() > 0);
                } else {
                    assert(ws2[i] == ws.last().push(c));
                }
            }
            assert(words(s) == ws2);
        } else if !crate::text::is_ws(c) {
            let ws2 = ws.push(seq![c]);
            assert forall|i: int| 0 <= i < ws2.len() implies (#[trigger] ws2[i]).len() > 0 by {
                if i < ws.len() {
                    assert(ws2[i] == ws[i]);
                    assert(words(s.drop_last())[i].len() > 0);
                } else {
                    assert(ws2[i] == seq![c]);
                    assert(seq![c].len() == 1);
                }
            }
            assert(words(s) == ws2);
        } else {
            assert(words(s) == words(s.drop_last()));
        }
    }
}

/// A word: at least one character, none of them whitespace.
pub open spec fn is_word(w: Seq<char>) -> bool {
    w.len() > 0 && forall|j: int| 0 <= j < w.len() ==> !crate::text::is_ws(#[trigger] w[j])
}

/// The columns a line of words takes: the words' widths and one column for
/// each space between two of them.
pub open spec fn words_cols(g: Seq<Seq<char>>) -> int
    decreases g.len(),
{
    if g.len() == 0 {
        0
    } else if g.len() == 1 {
        str_width(g[0]) as int
    } else {
        words_cols(g.drop_last()) + 1 + str_width(g.last()) as int
    }
}

/// A line fits in `width` columns, or holds a single word.
pub open spec fn line_fits(l: Seq<char>, width: usize) -> bool {
    words(l).len() <= 1 || words_cols(words(l)) <= width
}

proof fn lemma_words_are_words(s: Seq<char>)
    ensures
        forall|i: int| 0 <= i < words(s).len() ==> is_word(#[trigger] words(s)[i]),
        words_acc(s).1 ==> words(s).len() > 0 && !crate::text::is_ws(s.last()),
    decreases s.len(),
{
    if s.len() > 0 {
        lemma_words_are_words(s.drop_last());
        let (ws, in_word) = words_acc(s.drop_last());
        let c = s.last();
        if !crate::text::is_ws(c) {
            let ws2 = if in_word && ws.len() > 0 {
                ws.update(ws.len() - 1, ws.last().push(c))
            } else {
                ws.push(seq![c])
            };
            assert(words(s) == ws2);
            assert forall|i: int| 0 <= i < ws2.len() implies is_word(#[trigger] ws2[i]) by {
                if i < ws.len() && !(in_word && ws.len() > 0 && i == ws.len() - 1) {
                    assert(ws2[i] == ws[i]);
                    assert(is_word(words(s.drop_last())[i]));
                } else if in_word && ws.len() > 0 {
                    let x = ws.last().push(c);
                    assert(ws2[i] == x);
                    assert(is_word(words(s.drop_last())[ws.len() - 1]));
                    assert forall|j: int| 0 <= j < x.len() implies !crate::text::is_ws(#[trigger] x[j]) by {
                        if j < x.len() - 1 {
                            assert(x[j] == ws.last()[j]);
                        }
                    }
                } else {
                    assert(ws2[i] == seq![c]);
                }
            }
        } else {
            assert(words(s) == words(s.drop_last()));
        }
    }
}

proof fn lemma_words_append_prefix(t: Seq<char>, w: Seq<char>, k: int)
    requires
        !words_acc(t).1,
        is_word(w),
        1 <= k <= w.len(),
    ensures
        words_acc(t + w.take(k)) == (words(t).push(w.take(k)), true),
    decreases k,
{
    let u = t + w.take(k);
    assert(u.drop_last() =~= t + w.take(k - 1));
    assert(u.last() == w[k - 1]);
    if k == 1 {
        assert(t + w.take(0) =~= t);
        assert(w.take(1) =~= seq![w[0]]);
    } else {
        lemma_words_append_prefix(t, w, k - 1);
        let ws = words(t).push(w.take(k - 1));
        assert(ws.last() == w.take(k - 1));
        assert(w.take(k - 1).push(w[k - 1]) =~= w.take(k));
        assert(ws.update(ws.len() - 1, ws.last().push(w[k - 1])) =~= words(t).push(w.take(k)));
    }
}

proof fn lemma_words_append(t: Seq<char>, w: Seq<char>)
    requires
        !words_acc(t).1,
        is_word(w),
    ensures
        words_acc(t + w) == (words(t).push(w), true),
{
    lemma_words_append_prefix(t, w, w.len() as int);
    assert(w.take(w.len() as int) =~= w);
}

proof fn lemma_wrap_words_fit(ws: Seq<Seq<char>>, width: usize)
    requires
        forall|i: int| 0 <= i < ws.len() ==> is_word(#[trigger] ws[i]),
    ensures
        ({
            let (out, line, w) = wrap_words(ws, width);
            &&& forall|i: int| 0 <= i < out.len() ==> line_fits(#[trigger] out[i], width)
            &&& line.len() == 0 ==> w == 0
            &&& line.len() > 0 ==> {
                &&& words_acc(line).1
                &&& words(line).len() >= 1
                &&& w == words_cols(words(line))
                &&& (words(line).len() == 1 || w <= width)
            }
        }),
    decreases ws.len(),
{
    if ws.len() > 0 {
        let prev = ws.drop_last();
        assert forall|i: int| 0 <= i < prev.len() implies is_word(#[trigger] prev[i]) by {
            assert(prev[i] == ws[i]);
        }
        lemma_wrap_words_fit(prev, width);
        let (out, line, w) = wrap_words(prev, width);
        let word = ws.last();
        assert(is_word(word));
        let ww = str_width(word) as int;
        let extra: int = if line.len() == 0 {
            0
        } else {
            1
        };
        let empty = Seq::<char>::empty();
        assert(empty + word =~= word);
        lemma_words_append(empty, word);
        assert(words(empty) =~= Seq::<Seq<char>>::empty());
        assert(Seq::<Seq<char>>::empty().push(word) =~= seq![word]);
        if w + extra + ww > width && line.len() > 0 {
            let out2 = out.push(line);
            assert forall|i: int| 0 <= i < out2.len() implies line_fits(#[trigger] out2[i], width) by {
                if i < out.len() {
                    assert(out2[i] == out[i]);
                }
            }
        } else if line.len() > 0 {
            let t = line.push(' ');
            assert(t.drop_last() =~= line);
            assert(crate::text::is_ws(' '));
            assert(words_acc(t) == (words(line), false));
            lemma_words_append(t, word);
            let g = words(line).push(word);
            assert(g.drop_last() =~= words(line));
        }
    }
}

proof fn lemma_wrap_paras_fit(ps: Seq<Seq<char>>, width: usize, n: nat)
    requires
        n <= ps.len(),
    ensures
        forall|i: int| 0 <= i < wrap_paras(ps, width, n).len() ==> line_fits(
            #[trigger] wrap_paras(ps, width, n)[i],
            width,
        ),
    decreases n,
{
    if n > 0 {
        lemma_wrap_paras_fit(ps, width, (n - 1) as nat);
        let a = wrap_paras(ps, width, (n - 1) as nat);
        let p = ps[n - 1];
        lemma_words_are_words(p);
        lemma_wrap_words_fit(words(p), width);
        let b = wrap_para(p, width);
        let (out, line, _w) = wrap_words(words(p), width);
        if line.len() == 0 {
            assert(words(line) =~= Seq::<Seq<char>>::empty());
        }
        assert forall|i: int| 0 <= i < b.len() implies line_fits(#[trigger] b[i], width) by {
            if i < out.len() {
                assert(b[i] == out[i]);
            } else {
                assert(b[i] == line);
            }
        }
        assert forall|i: int| 0 <= i < (a + b).len() implies line_fits(#[trigger] (a + b)[i], width) by {
            if i < a.len() {
                assert((a + b)[i] == a[i]);
            } else {
                assert((a + b)[i] == b[i - a.len()]);
            }
        }
    }
}

/// Every line of a wrapped description fits in `width` columns (its words'
/// widths and one column per space between them), unless it is a single
/// word that is wider by itself.
pub proof fn lemma_textwrap_fits(s: Seq<char>, width: usize)
    ensures
        forall|i: int| 0 <= i < spec_textwrap(s, width).len() ==> line_fits(
            #[trigger] spec_textwrap(s, width)[i],
            width,
        ),
{
    let ps = split_lines(s);
    lemma_wrap_paras_fit(ps, width, ps.len());
    let r = wrap_paras(ps, width, ps.len());
    if r.len() == 0 {
        let e = Seq::<char>::empty();
        assert(words(e) =~= Seq::<Seq<char>>::empty());
        assert(seq![e][0] == e);
    }
}

/// The words of `lines`, line after line.
pub open spec fn words_of_lines(lines: Seq<Seq<char>>) -> Seq<Seq<char>>
    decreases lines.len(),
{
    if lines.len() == 0 {
        Seq::empty()
    } else {
        words_of_lines(lines.drop_last()) + words(lines.last())
    }
}

/// The words of the first `n` paragraphs, paragraph after paragraph.
pub open spec fn words_of_paras(ps: Seq<Seq<char>>, n: nat) -> Seq<Seq<char>>
    decreases n,
{
    if n == 0 {
        Seq::empty()
    } else {
        words_of_paras(ps, (n - 1) as nat) + words(ps[n - 1])
    }
}

proof fn lemma_words_of_lines_concat(a: Seq<Seq<char>>, b: Seq<Seq<char>>)
    ensures
        words_of_lines(a + b) == words_of_lines(a) + words_of_lines(b),
    decreases b.len(),
{
    if b.len() == 0 {
        assert(a + b =~= a);
        assert(words_of_lines(a) + Seq::<Seq<char>>::empty() =~= words_of_lines(a));
    } else {
        lemma_words_of_lines_concat(a, b.drop_last());
        assert((a + b).drop_last() =~= a + b.drop_last());
        assert(words_of_lines(a) + words_of_lines(b.drop_last()) + words(b.last())
            =~= words_of_lines(a) + (words_of_lines(b.drop_last()) + words(b.last())));
    }
}

proof fn lemma_wrap_words_keeps_words(ws: Seq<Seq<char>>, width: usize)
    requires
        forall|i: int| 0 <= i < ws.len() ==> is_word(#[trigger] ws[i]),
    ensures
        ({
            let (out, line, _w) = wrap_words(ws, width);
            words_of_lines(out) + words(line) == ws
        }),
    decreases ws.len(),
{
    let empty = Seq::<char>::empty();
    assert(words(empty) =~= Seq::<Seq<char>>::empty());
    if ws.len() == 0 {
        assert(Seq::<Seq<char>>::empty() + Seq::<Seq<char>>::empty() =~= ws);
    } else {
        let prev = ws.drop_last();
        assert forall|i: int| 0 <= i < prev.len() implies is_word(#[trigger] prev[i]) by {
            assert(prev[i] == ws[i]);
        }
        lemma_wrap_words_keeps_words(prev, width);
        lemma_wrap_words_fit(prev, width);
        let (out, line, w) = wrap_words(prev, width);
        let word = ws.last();
        assert(is_word(word));
        let ww = str_width(word) as int;
        let extra: int = if line.len() == 0 {
            0
        } else {
            1
        };
        assert(empty + word =~= word);
        lemma_words_append(empty, word);
        assert(Seq::<Seq<char>>::empty().push(word) =~= seq![word]);
        assert(prev.push(word) =~= ws);
        if w + extra + ww > width && line.len() > 0 {
            let out2 = out.push(line);
            assert(out2.drop_last() =~= out);
            assert(words_of_lines(out2) == words_of_lines(out) + words(line));
            assert(words_of_lines(out2) + seq![word] =~= (words_of_lines(out) + words(line)).push(word));
        } else if line.len() > 0 {
            let t = line.push(' ');
            assert(t.drop_last() =~= line);
            assert(crate::text::is_ws(' '));
            assert(words_acc(t) == (words(line), false));
            lemma_words_append(t, word);
            assert(words_of_lines(out) + words(line).push(word) =~= (words_of_lines(out) + words(
                line,
            )).push(word));
        } else {
            assert(words(line) =~= Seq::<Seq<char>>::empty());
            assert(words_of_lines(out) + seq![word] =~= (words_of_lines(out) + words(line)).push(word));
        }
    }
}

/// Wrapping a paragraph keeps its words, in order: the lines hold exactly
/// the paragraph's words.
pub proof fn lemma_wrap_para_keeps_words(p: Seq<char>, width: usize)
    ensures
        words_of_lines(wrap_para(p, width)) == words(p),
{
    lemma_words_are_words(p);
    lemma_wrap_words_keeps_words(words(p), width);
    let (out, line, _w) = wrap_words(words(p), width);
    assert(out.push(line).drop_last() =~= out);
}

proof fn lemma_wrap_paras_keeps_words(ps: Seq<Seq<char>>, width: usize, n: nat)
    requires
        n <= ps.len(),
    ensures
        words_of_lines(wrap_paras(ps, width, n)) == words_of_paras(ps, n),
    decreases n,
{
    if n > 0 {
        lemma_wrap_paras_keeps_words(ps, width, (n - 1) as nat);
        lemma_wrap_para_keeps_words(ps[n - 1], width);
        lemma_words_of_lines_concat(wrap_paras(ps, width, (n - 1) as nat), wrap_para(ps[n - 1], width));
    }
}

/// Wrapping a description loses no word and adds none: its lines hold the
/// words of its paragraphs, paragraph after paragraph, in order.
pub proof fn lemma_textwrap_keeps_words(s: Seq<char>, width: usize)
    ensures
        words_of_lines(spec_textwrap(s, width)) == words_of_paras(split_lines(s), split_lines(s).len()),
{
    let ps = split_lines(s);
    lemma_wrap_paras_keeps_words(ps, width, ps.len());
    let r = wrap_paras(ps, width, ps.len());
    if r.len() == 0 {
        let e = Seq::<char>::empty();
        assert(words(e) =~= Seq::<Seq<char>>::empty());
        assert(seq![e].drop_last() =~= Seq::<Seq<char>>::empty());
        assert(words_of_lines(Seq::<Seq<char>>::empty()) =~= Seq::<Seq<char>>::empty());
        assert(words_of_lines(seq![e]) =~= Seq::<Seq<char>>::empty() + Seq::<Seq<char>>::empty());
    }
}

/// The pieces of `cs` between line breaks.
fn split_lines_exec(cs: &Vec<char>) -> (r: Vec<Vec<char>>)
    ensures
        r@.map_values(|v: Vec<char>| v@) == split_lines(cs@),
{
    let mut out: Vec<Vec<char>> = Vec::new();
    let mut cur: Vec<char> = Vec::new();
    let mut i: usize = 0;
    assert(cs@.take(0) =~= Seq::<char>::empty());
    assert(out@.map_values(|v: Vec<char>| v@).push(cur@) =~= split_lines(cs@.take(0)));
    while i < cs.len()
        invariant
            i <= cs@.len(),
            out@.map_values(|v: Vec<char>| v@).push(cur@) == split_lines(cs@.take(i as int)),
        decreases cs.len() - i,
    {
        let ghost prev = out@.map_values(|v: Vec<char>| v@);
        let c = cs[i];
        assert(cs@.take(i + 1).drop_last() =~= cs@.take(i as int));
        assert(cs@.take(i + 1).last() == c);
        if c == '\n' {
            let done = cur;
            out.push(done);
            cur = Vec::new();
            assert(out@.map_values(|v: Vec<char>| v@) =~= prev.push(done@));
            assert(out@.map_values(|v: Vec<char>| v@).push(cur@) =~= prev.push(done@).push(
                Seq::<char>::empty(),
            ));
        } else {
            let ghost old_cur = cur@;
            cur.push(c);
            assert(prev.push(cur@) =~= prev.push(old_cur).update(prev.len() as int, old_cur.push(c)));
        }
        i = i + 1;
    }
    assert(cs@.take(cs@.len() as int) =~= cs@);
    let ghost prev = out@.map_values(|v: Vec<char>| v@);
    out.push(cur);
    assert(out@.map_values(|v: Vec<char>| v@) =~= prev.push(cur@));
    out
}

/// The words of `cs`.
fn words_exec(cs: &Vec<char>) -> (r: Vec<Vec<char>>)
    ensures
        r@.map_values(|v: Vec<char>| v@) == words(cs@),
{
    let mut out: Vec<Vec<char>> = Vec::new();
    let mut in_word = false;
    let mut i: usize = 0;
    assert(cs@.take(0) =~= Seq::<char>::empty());
    assert(out@.map_values(|v: Vec<char>| v@) =~= Seq::<Seq<char>>::empty());
    while i < cs.len()
        invariant
            i <= cs@.len(),
            (out@.map_values(|v: Vec<char>| v@), in_word) == words_acc(cs@.take(i as int)),
        decreases cs.len() - i,
    {
        let ghost prev = out@.map_values(|v: Vec<char>| v@);
        let c = cs[i];
        assert(cs@.take(i + 1).drop_last() =~= cs@.take(i as int));
        assert(cs@.take(i + 1).last() == c);
        if crate::text::is_whitespace(c) {
            in_word = false;
        } else if in_word && out.len() > 0 {
            let last = out.len() - 1;
            let mut w = out.pop().unwrap();
            let ghost old_w = w@;
            w.push(c);
            out.push(w);
            assert(out@.map_values(|v: Vec<char>| v@) =~= prev.update(last as int, old_w.push(c)));
        } else {
            let mut w: Vec<char> = Vec::new();
            w.push(c);
            out.push(w);
            assert(out@.map_values(|v: Vec<char>| v@) =~= prev.push(seq![c]));
            in_word = true;
        }
        i = i + 1;
    }
    assert(cs@.take(cs@.len() as int) =~= cs@);
    out
}

/// Fills lines with the words, greedily.
fn wrap_words_exec(ws: &Vec<Vec<char>>, width: usize) -> (r: (Vec<Vec<char>>, Vec<char>))
    requires
        forall|i: int| 0 <= i < ws@.len() ==> (#[trigger] ws@[i])@.len() > 0,
    ensures
        r.0@.map_values(|v: Vec<char>| v@) == wrap_words(ws@.map_values(|v: Vec<char>| v@), width).0,
        r.1@ == wrap_words(ws@.map_values(|v: Vec<char>| v@), width).1,
{
    let ghost wv = ws@.map_values(|v: Vec<char>| v@);
    let mut out: Vec<Vec<char>> = Vec::new();
    let mut line: Vec<char> = Vec::new();
    let mut w: usize = 0;
    let mut i: usize = 0;
    assert(wv.take(0) =~= Seq::<Seq<char>>::empty());
    assert(out@.map_values(|v: Vec<char>| v@) =~= Seq::<Seq<char>>::empty());
    while i < ws.len()
        invariant
            i <= ws@.len(),
            wv == ws@.map_values(|v: Vec<char>| v@),
            forall|j: int| 0 <= j < ws@.len() ==> (#[trigger] ws@[j])@.len() > 0,
            line@.len() == 0 ==> w == 0,
            wrap_words(wv.take(i as int), width) == (out@.map_values(|v: Vec<char>| v@), line@, w as int),
        decreases ws.len() - i,
    {
        let ghost prev = out@.map_values(|v: Vec<char>| v@);
        assert(wv.take(i + 1).drop_last() =~= wv.take(i as int));
        assert(wv.take(i + 1).last() == ws@[i as int]@);
        let word = string_of(&ws[i]);
        let ww = width_of_str(word.as_str());
        let extra: usize = if line.len() == 0 {
            0
        } else {
            1
        };
        if (w as u128) + (extra as u128) + (ww as u128) > (width as u128) && line.len() > 0 {
            let done = line;
            out.push(done);
            line = Vec::new();
            w = 0;
            assert(out@.map_values(|v: Vec<char>| v@) =~= prev.push(done@));
        }
        let ghost line2 = line@;
        if line.len() > 0 {
            line.push(' ');
            w = w + 1;
        }
        let mut k: usize = 0;
        let ghost line3 = line@;
        while k < ws[i].len()
            invariant
                i < ws@.len(),
                k <= ws@[i as int]@.len(),
                line@ == line3 + ws@[i as int]@.take(k as int),
            decreases ws@[i as int]@.len() - k,
        {
            line.push(ws[i][k]);
            assert(line3 + ws@[i as int]@.take(k + 1) =~= (line3 + ws@[i as int]@.take(k as int)).push(
                ws@[i as int]@[k as int],
            ));
            k = k + 1;
        }
        assert(ws@[i as int]@.take(ws@[i as int]@.len() as int) =~= ws@[i as int]@);
        w = w + ww;
        i = i + 1;
    }
    assert(wv.take(ws@.len() as int) =~= wv);
    (out, line)
}

/// Wraps `s` to `width` columns: each paragraph (between line breaks) is
/// filled greedily with its words separated by single spaces, a word wider
/// than the width stands on a line of its own, and an empty paragraph gives
/// an empty line.
pub fn textwrap_lines(s: &str, width: usize) -> (r: Vec<String>)
    ensures
        r@.map_values(|x: String| x@) == spec_textwrap(s@, width),
{
    let cs = chars_of(s);
    let paras = split_lines_exec(&cs);
    let ghost ps = paras@.map_values(|v: Vec<char>| v@);
    let mut out: Vec<String> = Vec::new();
    let mut p: usize = 0;
    assert(out@.map_values(|x: String| x@) =~= Seq::<Seq<char>>::empty());
    while p < paras.len()
        invariant
            p <= paras@.len(),
            ps == paras@.map_values(|v: Vec<char>| v@),
            out@.map_values(|x: String| x@) == wrap_paras(ps, width, p as nat),
        decreases paras.len() - p,
    {
        let ws = words_exec(&paras[p]);
        proof {
            lemma_words_nonempty(paras@[p as int]@);
            assert forall|i: int| 0 <= i < ws@.len() implies (#[trigger] ws@[i])@.len() > 0 by {
                assert(ws@.map_values(|v: Vec<char>| v@)[i] == ws@[i]@);
            }
        }
        let (lines, last) = wrap_words_exec(&ws, width);
        let ghost before = out@.map_values(|x: String| x@);
        let ghost para_lines = wrap_para(ps[p as int], width);
        let mut j: usize = 0;
        while j < lines.len()
            invariant
                j <= lines@.len(),
                out@.map_values(|x: String| x@) == before + lines@.map_values(|v: Vec<char>| v@).take(
                    j as int,
                ),
            decreases lines.len() - j,
        {
            let ghost o = out@.map_values(|x: String| x@);
            out.push(string_of(&lines[j]));
            assert(out@.map_values(|x: String| x@) =~= o.push(lines@[j as int]@));
            assert(lines@.map_values(|v: Vec<char>| v@).take(j + 1) =~= lines@.map_values(
                |v: Vec<char>| v@,
            ).take(j as int).push(lines@[j as int]@));
            j = j + 1;
        }
        let ghost o = out@.map_values(|x: String| x@);
        out.push(string_of(&last));
        proof {
            assert(ps[p as int] == paras@[p as int]@);
            assert(lines@.map_values(|v: Vec<char>| v@).take(lines@.len() as int) =~= lines@.map_values(
                |v: Vec<char>| v@,
            ));
            assert(out@.map_values(|x: String| x@) =~= o.push(last@));
            assert(out@.map_values(|x: String| x@) =~= before + para_lines);
        }
        p = p + 1;
    }
    if out.len() == 0 {
        out.push(String::new());
        assert(out@.map_values(|x: String| x@) =~= seq![Seq::<char>::empty()]);
    }
    out
}


// ---------------------------------------------------------------------------
// Status and hint lines
// ---------------------------------------------------------------------------

/// What the status line shows: the search prompt with the query being
/// typed, or a line of text.
#[derive(Debug)]
pub enum StatusLine {
    Prompt(String),
    Plain(String),
}

/// `s` right-aligned in three columns.
pub open spec fn pad3(s: Seq<char>) -> Seq<char> {
    if s.len() < 3 {
        Seq::new((3 - s.len()) as nat, |i: int| ' ') + s
    } else {
        s
    }
}

/// The 1-based position of the selection on the list or schedule showing
/// (0 when it is empty or elsewhere), and the number of rows listed.
pub open spec fn status_counts(v: AppView) -> (nat, nat) {
    if v.mode == Mode::Channels {
        (if v.view.len() == 0 {
            0
        } else {
            (v.selected + 1) as nat
        }, v.view.len())
    } else if v.mode == Mode::Programmes {
        (if v.prog_view.len() == 0 {
            0
        } else {
            (v.prog_selected + 1) as nat
        }, v.prog_view.len())
    } else {
        (0, 0)
    }
}

/// The text of the status line outside the prompt: the screen, the
/// position, and either the percentage scrolled or the status message.
pub open spec fn status_text(v: AppView) -> Seq<char> {
    let (pos, total) = status_counts(v);
    let head = " "@ + spec_mode_name(v.mode) + "  "@ + decimal(pos) + "/"@ + decimal(total);
    if v.status.len() == 0 {
        head + "  "@ + pad3(decimal(spec_pct(pos, total))) + "% "@
    } else {
        head + " — "@ + v.status + " "@
    }
}

/// The keys the hint line lists for the screen and the prompt.
pub open spec fn spec_hint(mode: Mode, input: InputMode) -> Seq<char> {
    if input == InputMode::Search {
        "Enter confirm • Esc cancel"@
    } else {
        match mode {
            Mode::Channels => "j/k move • Enter/l open • / search • n/N next • f filter • s sort • r refresh • ? help • q quit"@,
            Mode::Programmes => "j/k move • Enter/l detail • t now • / search • n/N next • f filter • Esc back • q quit"@,
            Mode::Detail => "j/k scroll • g/G top/bottom • Esc back • q quit"@,
            Mode::Help => "Esc / ? close"@,
        }
    }
}

fn pad3_string(s: String) -> (r: String)
    ensures
        r@ == pad3(s@),
{
    let n = s.as_str().unicode_len();
    if n < 3 {
        let mut r = String::new();
        let mut k: usize = 0;
        while k < 3 - n
            invariant
                k <= 3 - n,
                n == s@.len(),
                r@ == Seq::new(k as nat, |i: int| ' '),
            decreases 3 - n - k,
        {
            push_char(&mut r, ' ');
            assert(r@ =~= Seq::new((k + 1) as nat, |i: int| ' '));
            k = k + 1;
        }
        append(&mut r, s.as_str());
        r
    } else {
        s
    }
}

fn position_fits(sel: usize, with_pct: bool) -> (b: bool)
    ensures
        b == (sel + 1 <= usize::MAX && (with_pct ==> (sel + 1) * 100 <= usize::MAX)),
{
    sel < usize::MAX && (!with_pct || sel < usize::MAX / 100)
}

/// The position and percentage the status line shows can be computed: the
/// selection of the list or schedule showing, counted from one and, when no
/// message takes the place of the percentage, times a hundred, fits a `usize`.
pub open spec fn status_fits(v: AppView) -> bool {
    &&& v.input != InputMode::Search && v.mode == Mode::Channels && v.view.len() > 0 ==> {
        &&& v.selected + 1 <= usize::MAX
        &&& v.status.len() == 0 ==> (v.selected + 1) * 100 <= usize::MAX
    }
    &&& v.input != InputMode::Search && v.mode == Mode::Programmes && v.prog_view.len() > 0 ==> {
        &&& v.prog_selected + 1 <= usize::MAX
        &&& v.status.len() == 0 ==> (v.prog_selected + 1) * 100 <= usize::MAX
    }
}

impl App {
    /// Whether the status line can be computed now (`status_fits`).
    pub fn status_line_ready(&self) -> (r: bool)
        ensures
            r == status_fits(self@),
    {
        let searching = self.input == InputMode::Search;
        (searching || self.mode != Mode::Channels || self.view.len() == 0 || position_fits(self.selected, self.status.as_str().is_empty()))
            && (searching || self.mode != Mode::Programmes || self.prog_view.len() == 0 || position_fits(
            self.prog_selected,
            self.status.as_str().is_empty(),
        ))
    }

    /// The status line.
    pub fn status_line(&self) -> (r: StatusLine)
        requires
            status_fits(self@),
        ensures
            self.input == InputMode::Search ==> r == StatusLine::Prompt(self.query),
            self.input != InputMode::Search ==> (r matches StatusLine::Plain(t) && t@ == status_text(
                self@,
            )),
    {
        if self.input == InputMode::Search {
            return StatusLine::Prompt(self.query.clone());
        }
        let (pos, total): (usize, usize) = if self.mode == Mode::Channels {
            (if self.view.len() == 0 {
                0
            } else {
                self.selected + 1
            }, self.view.len())
        } else if self.mode == Mode::Programmes {
            (if self.prog_view.len() == 0 {
                0
            } else {
                self.prog_selected + 1
            }, self.prog_view.len())
        } else {
            (0, 0)
        };
        let mut t = owned(" ");
        append(&mut t, mode_name(self));
        append(&mut t, "  ");
        let a = decimal_string(pos as u64);
        append(&mut t, a.as_str());
        append(&mut t, "/");
        let b = decimal_string(total as u64);
        append(&mut t, b.as_str());
        if self.status.as_str().is_empty() {
            append(&mut t, "  ");
            let p = pad3_string(decimal_string(pct(pos, total) as u64));
            append(&mut t, p.as_str());
            append(&mut t, "% ");
        } else {
            append(&mut t, " — ");
            append(&mut t, self.status.as_str());
            append(&mut t, " ");
        }
        StatusLine::Plain(t)
    }

    /// The hint line.
    pub fn hint_line(&self) -> (r: &'static str)
        ensures
            r@ == spec_hint(self.mode, self.input),
    {
        if self.input == InputMode::Search {
            return "Enter confirm • Esc cancel";
        }
        match self.mode {
            Mode::Channels => "j/k move • Enter/l open • / search • n/N next • f filter • s sort • r refresh • ? help • q quit",
            Mode::Programmes => "j/k move • Enter/l detail • t now • / search • n/N next • f filter • Esc back • q quit",
            Mode::Detail => "j/k scroll • g/G top/bottom • Esc back • q quit",
            Mode::Help => "Esc / ? close",
        }
    }

    /// Limits the detail's scroll so that the last of `total` lines is at
    /// worst at the bottom of a panel `h` lines high.
    pub fn clamp_detail_scroll(&mut self, total: usize, h: usize)
        ensures
            final(self)@ == (AppView {
                detail_scroll: if old(self).detail_scroll > crate::keys::sat_sub(total, h) {
                    crate::keys::sat_sub(total, h)
                } else {
                    old(self).detail_scroll
                },
                ..old(self)@
            }),
    {
        let max_scroll = if total >= h {
            total - h
        } else {
            0
        };
        if self.detail_scroll > max_scroll {
            self.detail_scroll = max_scroll;
        }
    }

    /// The description of the open programme wrapped to `width` columns, or
    /// a note that it has none.
    pub fn description_lines(&self, width: usize) -> (r: Vec<String>)
        requires
            self.detail is Some,
        ensures
            r@.map_values(|x: String| x@) == spec_textwrap(
                if self.detail.unwrap().desc@.len() == 0 {
                    "(no description)"@
                } else {
                    self.detail.unwrap().desc@
                },
                width,
            ),
    {
        let p = self.detail.as_ref().unwrap();
        if p.desc.as_str().is_empty() {
            textwrap_lines("(no description)", width)
        } else {
            textwrap_lines(p.desc.as_str(), width)
        }
    }

    /// Limits the detail's scroll to the lines the detail screen draws in a
    /// panel `inner_width` columns wide and `h` lines high: eight lines of
    /// title, channel, time, duration and headings, then the description
    /// wrapped to the panel.
    pub fn fit_detail_scroll(&mut self, inner_width: usize, h: usize)
        requires
            old(self).detail is Some,
        ensures
            ({
                let n = detail_line_count(old(self).detail.unwrap(), inner_width);
                let total: usize = if n + 8 <= usize::MAX {
                    (n + 8) as usize
                } else {
                    usize::MAX
                };
                let max_scroll = crate::keys::sat_sub(total, h);
                final(self)@ == (AppView {
                    detail_scroll: if old(self).detail_scroll > max_scroll {
                        max_scroll
                    } else {
                        old(self).detail_scroll
                    },
                    ..old(self)@
                })
            }),
    {
        let lines = self.description_lines(detail_wrap_width(inner_width));
        let n = lines.len();
        proof {
            assert(n == lines@.map_values(|x: String| x@).len());
        }
        let total = if n <= usize::MAX - 8 {
            n + 8
        } else {
            usize::MAX
        };
        self.clamp_detail_scroll(total, h);
    }
}

/// The number of lines a programme's description takes, wrapped for a
/// panel `inner_width` columns wide (a note stands in for a missing one).
pub open spec fn detail_line_count(p: ProgrammeRow, inner_width: usize) -> nat {
    spec_textwrap(
        if p.desc@.len() == 0 {
            "(no description)"@
        } else {
            p.desc@
        },
        if crate::keys::sat_sub(inner_width, 2) > 20 {
            crate::keys::sat_sub(inner_width, 2)
        } else {
            20
        },
    ).len()
}

// ---------------------------------------------------------------------------
// The title bar and the channel list
// ---------------------------------------------------------------------------

/// The sum of the channels' programme counts.
pub open spec fn count_sum(cs: Seq<ChannelRow>) -> int
    decreases cs.len(),
{
    if cs.len() == 0 {
        0
    } else {
        count_sum(cs.drop_last()) + cs.last().prog_count
    }
}

/// The badge of a channel on the list while searching: its number of
/// matching current/next programmes, when there are any.
pub open spec fn badge(m: Seq<(String, i64)>, id: Seq<char>) -> Option<i64> {
    match match_count(m, id) {
        Some(n) if n > 0 => Some(n),
        _ => None,
    }
}

/// A channel's name as the list shows it: while searching, cut to 42
/// columns with the matches of the query highlighted; otherwise cut to 48
/// columns, plain.
pub open spec fn name_cell(name: Seq<char>, query: Seq<char>) -> Seq<(Seq<char>, bool)> {
    if query.len() > 0 {
        highlight(spec_truncate(name, 42), lower(query))
    } else {
        seq![(spec_truncate(name, 48), false)]
    }
}

/// How a piece of the title bar is drawn.
#[derive(Debug, Clone, Copy, PartialEq, Eq, Structural)]
pub enum TitleStyle {
    Plain,
    Counts,
    Mode,
    Query,
    Filter,
}

/// A piece of the title bar: its text and how it is drawn.
#[derive(Debug)]
pub struct TitlePart {
    pub text: String,
    pub style: TitleStyle,
}

/// The pieces of the title bar after the logo, given the clock's text:
/// the numbers of channels and programmes, the screen, the sort mode, the
/// active query (`/query `, only when there is one), `FILTER ` (only in
/// filter mode) and the clock.
pub open spec fn spec_title_parts(v: AppView, now_text: Seq<char>) -> Seq<(Seq<char>, TitleStyle)> {
    seq![
        (" "@, TitleStyle::Plain),
        (
            decimal(v.channels.len()) + " channels  "@ + crate::text::signed_decimal(
                count_sum(v.channels),
            ) + " programmes"@,
            TitleStyle::Counts,
        ),
        ("  "@, TitleStyle::Plain),
        ("["@ + spec_mode_name(v.mode) + "] "@, TitleStyle::Mode),
        ("sort:"@ + spec_sort_name(v.sort) + " "@, TitleStyle::Plain),
        (
            if v.query.len() > 0 {
                "/"@ + v.query + " "@
            } else {
                Seq::empty()
            },
            TitleStyle::Query,
        ),
        (
            if v.filter_only {
                "FILTER "@
            } else {
                Seq::empty()
            },
            TitleStyle::Filter,
        ),
        ("now: "@ + now_text, TitleStyle::Plain),
    ]
}

/// The text of the title bar after the logo: its pieces one after another.
pub open spec fn spec_title(v: AppView, now_text: Seq<char>) -> Seq<char> {
    let p = spec_title_parts(v, now_text);
    p[0].0 + p[1].0 + p[2].0 + p[3].0 + p[4].0 + p[5].0 + p[6].0 + p[7].0
}

/// The texts of the first `n` pieces, one after another.
pub open spec fn parts_text(p: Seq<(Seq<char>, TitleStyle)>, n: nat) -> Seq<char>
    decreases n,
{
    if n == 0 {
        Seq::empty()
    } else {
        parts_text(p, (n - 1) as nat) + p[n - 1].0
    }
}

fn title_part(text: String, style: TitleStyle) -> (r: TitlePart)
    ensures
        r.text@ == text@ && r.style == style,
{
    TitlePart { text, style }
}

impl App {
    /// The number of programmes over all channels, as the title bar shows
    /// it (wide enough that the sum cannot overflow).
    pub fn programme_total(&self) -> (r: i128)
        ensures
            r == count_sum(self.channels@),
    {
        let mut sum: i128 = 0;
        let mut i: usize = 0;
        while i < self.channels.len()
            invariant
                i <= self.channels@.len(),
                sum == count_sum(self.channels@.take(i as int)),
                i * i64::MIN <= sum <= i * i64::MAX,
            decreases self.channels.len() - i,
        {
            assert(self.channels@.take(i + 1).drop_last() =~= self.channels@.take(i as int));
            sum = sum + self.channels[i].prog_count as i128;
            i = i + 1;
        }
        assert(self.channels@.take(i as int) =~= self.channels@);
        sum
    }

    /// The pieces of the title bar after the logo; `now_text` is the clock
    /// (`fmt_time` of `now`).
    pub fn title_parts(&self, now_text: &str) -> (r: Vec<TitlePart>)
        ensures
            r@.len() == 8,
            forall|i: int|
                0 <= i < 8 ==> ((#[trigger] r@[i]).text@, r@[i].style) == spec_title_parts(
                    self@,
                    now_text@,
                )[i],
    {
        let mut counts = crate::text::decimal_string(self.channels.len() as u64);
        append(&mut counts, " channels  ");
        let total = crate::text::signed_decimal_string(self.programme_total());
        append(&mut counts, total.as_str());
        append(&mut counts, " programmes");
        let mut mode = owned("[");
        append(&mut mode, mode_name(self));
        append(&mut mode, "] ");
        let mut sort = owned("sort:");
        append(&mut sort, sort_name(self.sort));
        append(&mut sort, " ");
        let mut query = String::new();
        if !self.query.as_str().is_empty() {
            append(&mut query, "/");
            append(&mut query, self.query.as_str());
            append(&mut query, " ");
        }
        let filter = if self.filter_only {
            owned("FILTER ")
        } else {
            String::new()
        };
        let mut now = owned("now: ");
        append(&mut now, now_text);
        let mut r: Vec<TitlePart> = Vec::new();
        r.push(title_part(owned(" "), TitleStyle::Plain));
        r.push(title_part(counts, TitleStyle::Counts));
        r.push(title_part(owned("  "), TitleStyle::Plain));
        r.push(title_part(mode, TitleStyle::Mode));
        r.push(title_part(sort, TitleStyle::Plain));
        r.push(title_part(query, TitleStyle::Query));
        r.push(title_part(filter, TitleStyle::Filter));
        r.push(title_part(now, TitleStyle::Plain));
        proof {
            let sp = spec_title_parts(self@, now_text@);
            assert(r@[1].text@ == sp[1].0);
            assert(r@[3].text@ == sp[3].0);
            assert(r@[4].text@ == sp[4].0);
            assert(r@[5].text@ == sp[5].0);
            assert(r@[6].text@ == sp[6].0);
            assert(r@[7].text@ == sp[7].0);
        }
        r
    }

    /// The text of the title bar after the logo; `now_text` is the clock
    /// (`fmt_time` of `now`).
    pub fn title_text(&self, now_text: &str) -> (r: String)
        ensures
            r@ == spec_title(self@, now_text@),
    {
        let parts = self.title_parts(now_text);
        let mut r = String::new();
        let mut i: usize = 0;
        while i < parts.len()
            invariant
                i <= 8,
                parts@.len() == 8,
                forall|k: int|
                    0 <= k < 8 ==> ((#[trigger] parts@[k]).text@, parts@[k].style) == spec_title_parts(
                        self@,
                        now_text@,
                    )[k],
                r@ == parts_text(spec_title_parts(self@, now_text@), i as nat),
            decreases parts.len() - i,
        {
            append(&mut r, parts[i].text.as_str());
            i = i + 1;
        }
        proof {
            let p = spec_title_parts(self@, now_text@);
            assert(parts_text(p, 8) =~= p[0].0 + p[1].0 + p[2].0 + p[3].0 + p[4].0 + p[5].0 + p[6].0
                + p[7].0) by {
                reveal_with_fuel(parts_text, 9);
            }
        }
        r
    }

    /// The name cell of channel `ch` on the list, and the badge that follows
    /// it while searching.
    pub fn channel_name_cell(&self, ch: &ChannelRow) -> (r: (Vec<Segment>, Option<i64>))
        ensures
            r.0@.map_values(|s: Segment| seg_view(s)) == name_cell(ch.display_name@, self.query@),
            r.1 == (if self.query@.len() > 0 {
                badge(self.prog_match@, ch.channel_id@)
            } else {
                None
            }),
    {
        if self.query.as_str().is_empty() {
            let seg = Segment { text: truncate(ch.display_name.as_str(), 48), highlighted: false };
            let v = vec![seg];
            assert(v@.map_values(|s: Segment| seg_view(s)) =~= name_cell(
                ch.display_name@,
                self.query@,
            ));
            (v, None)
        } else {
            let q = to_lower(self.query.as_str());
            let shown = truncate(ch.display_name.as_str(), 42);
            let segs = highlight_segments(shown.as_str(), q.as_str());
            let b = match self.prog_match_count(ch.channel_id.as_str()) {
                Some(n) => if n > 0 {
                    Some(n)
                } else {
                    None
                },
                None => None,
            };
            (segs, b)
        }
    }
}

/// The rows of a list drawn in a panel `h` lines high (a header and a
/// margin take two): from the scroll offset (at most the last row) to at
/// most the end of the list.
pub open spec fn spec_visible_range(offset: usize, len: usize, h: usize) -> (usize, usize) {
    let start = if offset < crate::keys::sat_sub(len, 1) {
        offset
    } else {
        crate::keys::sat_sub(len, 1)
    };
    let room = crate::keys::sat_sub(h, 2);
    let end = if start + room < len {
        (start + room) as usize
    } else {
        len
    };
    (start, if end < start {
        start
    } else {
        end
    })
}

/// The first and one-past-last rows of a list of `len` rows to draw in a
/// panel `h` lines high starting from `offset`.
pub fn visible_range(offset: usize, len: usize, h: usize) -> (r: (usize, usize))
    ensures
        r == spec_visible_range(offset, len, h),
{
    let last = if len >= 1 {
        len - 1
    } else {
        0
    };
    let start = if offset < last {
        offset
    } else {
        last
    };
    let room = if h >= 2 {
        h - 2
    } else {
        0
    };
    let end = if room < len - start {
        start + room
    } else {
        len
    };
    (start, if end < start {
        start
    } else {
        end
    })
}

/// How a programme stands relative to `now`.
#[derive(Debug, Clone, Copy, PartialEq, Eq, Structural)]
pub enum RowTime {
    Airing,
    Past,
    Upcoming,
}

/// On air, already over, or still to come.
pub open spec fn spec_row_time(p: ProgrammeRow, now: i64) -> RowTime {
    if is_airing(p, now) {
        RowTime::Airing
    } else if p.stop_ts <= now {
        RowTime::Past
    } else {
        RowTime::Upcoming
    }
}

/// The minutes column of a programme's row: its whole minutes, or nothing
/// when its stop and start are too far apart to subtract in an `i64`.
pub open spec fn spec_minutes_text(p: ProgrammeRow) -> Seq<char> {
    if i64::MIN <= p.stop_ts - p.start_ts <= i64::MAX {
        decimal(crate::app::spec_duration_mins(p.start_ts, p.stop_ts) as nat)
    } else {
        Seq::empty()
    }
}

/// The minutes column of a programme's row.
pub fn minutes_text(p: &ProgrammeRow) -> (r: String)
    ensures
        r@ == spec_minutes_text(*p),
{
    let d = p.stop_ts as i128 - p.start_ts as i128;
    if d < i64::MIN as i128 || d > i64::MAX as i128 {
        return String::new();
    }
    let m = crate::app::duration_mins(p.start_ts, p.stop_ts);
    decimal_string(m as u64)
}

/// The title of the schedule panel: the channel's name and the number of
/// its programmes, or a plain heading when no channel is open.
pub open spec fn spec_schedule_title(v: AppView) -> Seq<char> {
    match v.cur_channel {
        Some(ch) => " "@ + ch.display_name@ + " \u{2014} "@ + decimal(v.programmes.len())
            + " programmes "@,
        None => " Programmes "@,
    }
}

/// The name the detail screen gives the programme's channel: the open
/// channel's name, else the programme's channel id.
pub open spec fn spec_channel_label(v: AppView, p: ProgrammeRow) -> Seq<char> {
    match v.cur_channel {
        Some(ch) => ch.display_name@,
        None => p.channel_id@,
    }
}

impl App {
    /// The title of the schedule panel.
    pub fn schedule_title(&self) -> (r: String)
        ensures
            r@ == spec_schedule_title(self@),
    {
        match &self.cur_channel {
            Some(ch) => {
                let mut t = owned(" ");
                append(&mut t, ch.display_name.as_str());
                append(&mut t, " \u{2014} ");
                let n = decimal_string(self.programmes.len() as u64);
                append(&mut t, n.as_str());
                append(&mut t, " programmes ");
                t
            },
            None => owned(" Programmes "),
        }
    }

    /// The channel name shown on the detail of programme `p`.
    pub fn channel_label(&self, p: &ProgrammeRow) -> (r: String)
        ensures
            r@ == spec_channel_label(self@, *p),
    {
        match &self.cur_channel {
            Some(ch) => ch.display_name.clone(),
            None => p.channel_id.clone(),
        }
    }
}

/// How the programme stands relative to `now`, for its row's colour.
pub fn row_time(p: &ProgrammeRow, now: i64) -> (r: RowTime)
    ensures
        r == spec_row_time(*p, now),
{
    if p.start_ts <= now && p.stop_ts > now {
        RowTime::Airing
    } else if p.stop_ts <= now {
        RowTime::Past
    } else {
        RowTime::Upcoming
    }
}

/// The width descriptions wrap to in a panel `inner_width` columns wide:
/// two columns less, and at least 20.
pub fn detail_wrap_width(inner_width: usize) -> (r: usize)
    ensures
        r == (if crate::keys::sat_sub(inner_width, 2) > 20 {
            crate::keys::sat_sub(inner_width, 2)
        } else {
            20
        }),
{
    let w = if inner_width >= 2 {
        inner_width - 2
    } else {
        0
    };
    if w > 20 {
        w
    } else {
        20
    }
}

} // verus!
