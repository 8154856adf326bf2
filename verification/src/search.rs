//! Searching and filtering the channel list: a channel matches the query
//! when its name contains it (ignoring case) or when one of its current/next
//! programmes does (as the cache reported it); filter mode lists only the
//! matching channels; `n`/`N` cycle through the matches.
use vstd::prelude::*;

use crate::app::{clamp_window, last_index, App, AppView, InputMode, Mode};
use crate::guide::ChannelRow;
use crate::text::{
    append, chars_of, clear_string, contains, contains_chars, decimal, is_blank, lower, owned,
    to_lower, trim, decimal_string,
};

verus! {

// ---------------------------------------------------------------------------
// The table of channels with matching current/next programmes
// ---------------------------------------------------------------------------

/// The table has an entry for channel `id`.
pub open spec fn has_key(m: Seq<(String, i64)>, id: Seq<char>) -> bool {
    exists|i: int| 0 <= i < m.len() && (#[trigger] m[i]).0@ == id
}

/// Entry `i` is the first entry for channel `id`.
pub open spec fn is_first_key(m: Seq<(String, i64)>, id: Seq<char>, i: int) -> bool {
    &&& 0 <= i < m.len()
    &&& m[i].0@ == id
    &&& forall|j: int| 0 <= j < i ==> (#[trigger] m[j]).0@ != id
}

/// The position of the first entry for channel `id`.
pub open spec fn key_index(m: Seq<(String, i64)>, id: Seq<char>) -> int {
    choose|i: int| is_first_key(m, id, i)
}

proof fn lemma_key_index(m: Seq<(String, i64)>, id: Seq<char>, i: int)
    requires
        is_first_key(m, id, i),
    ensures
        key_index(m, id) == i,
{
    let k = key_index(m, id);
    assert(is_first_key(m, id, k));
    if k < i {
        assert(m[k].0@ != id);
    } else if k > i {
        assert(m[i].0@ != id);
    }
}

proof fn lemma_has_key_first(m: Seq<(String, i64)>, id: Seq<char>)
    requires
        has_key(m, id),
    ensures
        is_first_key(m, id, key_index(m, id)),
    decreases m.len(),
{
    let i = choose|i: int| 0 <= i < m.len() && (#[trigger] m[i]).0@ == id;
    if has_key(m.drop_last(), id) {
        lemma_has_key_first(m.drop_last(), id);
        let k = key_index(m.drop_last(), id);
        assert(is_first_key(m, id, k)) by {
            assert forall|j: int| 0 <= j < k implies (#[trigger] m[j]).0@ != id by {
                assert(m.drop_last()[j] == m[j]);
            }
        }
    } else {
        assert(i == m.len() - 1) by {
            if i < m.len() - 1 {
                assert(m.drop_last()[i] == m[i]);
            }
        }
        assert(is_first_key(m, id, i)) by {
            assert forall|j: int| 0 <= j < i implies (#[trigger] m[j]).0@ != id by {
                assert(m.drop_last()[j] == m[j]);
            }
        }
    }
}

/// The table after recording `kv`: the count of an existing channel is
/// replaced, a new channel is appended.
pub open spec fn upsert(m: Seq<(String, i64)>, kv: (String, i64)) -> Seq<(String, i64)> {
    if has_key(m, kv.0@) {
        let i = key_index(m, kv.0@);
        m.update(i, (m[i].0, kv.1))
    } else {
        m.push(kv)
    }
}

/// The table built from `pairs` in order, later counts for a channel
/// replacing earlier ones, as collecting into a map does.
pub open spec fn collect_pairs(pairs: Seq<(String, i64)>) -> Seq<(String, i64)>
    decreases pairs.len(),
{
    if pairs.len() == 0 {
        Seq::empty()
    } else {
        upsert(collect_pairs(pairs.drop_last()), pairs.last())
    }
}

/// The count recorded for channel `id`, if any.
pub open spec fn match_count(m: Seq<(String, i64)>, id: Seq<char>) -> Option<i64> {
    if has_key(m, id) {
        Some(m[key_index(m, id)].1)
    } else {
        None
    }
}

/// No channel occurs twice in the table.
pub open spec fn keys_distinct(m: Seq<(String, i64)>) -> bool {
    forall|i: int, j: int| 0 <= i < j < m.len() ==> (#[trigger] m[i]).0@ != (#[trigger] m[j]).0@
}

/// Position of the first entry for `id`, if there is one.
pub fn find_key(m: &Vec<(String, i64)>, id: &String) -> (r: Option<usize>)
    ensures
        r is None <==> !has_key(m@, id@),
        r matches Some(i) ==> i == key_index(m@, id@) && is_first_key(m@, id@, i as int),
{
    let mut i: usize = 0;
    while i < m.len()
        invariant
            i <= m@.len(),
            forall|j: int| 0 <= j < i ==> (#[trigger] m@[j]).0@ != id@,
        decreases m.len() - i,
    {
        if m[i].0 == *id {
            proof {
                lemma_key_index(m@, id@, i as int);
            }
            return Some(i);
        }
        i = i + 1;
    }
    None
}

/// Records `kv` in the table.
fn upsert_exec(m: &mut Vec<(String, i64)>, kv: (String, i64))
    ensures
        final(m)@ == upsert(old(m)@, kv),
{
    match find_key(m, &kv.0) {
        Some(i) => {
            let key = m[i].0.clone();
            m.set(i, (key, kv.1));
        },
        None => {
            m.push(kv);
        },
    }
}

/// Builds the table from `pairs`, later counts for a channel replacing
/// earlier ones.
pub fn collect_pairs_exec(pairs: Vec<(String, i64)>) -> (m: Vec<(String, i64)>)
    ensures
        m@ == collect_pairs(pairs@),
{
    let mut m: Vec<(String, i64)> = Vec::new();
    let mut i: usize = 0;
    while i < pairs.len()
        invariant
            i <= pairs@.len(),
            m@ == collect_pairs(pairs@.take(i as int)),
        decreases pairs.len() - i,
    {
        let kv = (pairs[i].0.clone(), pairs[i].1);
        assert(pairs@.take(i + 1).drop_last() =~= pairs@.take(i as int));
        upsert_exec(&mut m, kv);
        i = i + 1;
    }
    assert(pairs@.take(pairs@.len() as int) =~= pairs@);
    m
}

/// A table built by collecting never lists a channel twice.
pub proof fn lemma_collect_pairs_distinct(pairs: Seq<(String, i64)>)
    ensures
        keys_distinct(collect_pairs(pairs)),
    decreases pairs.len(),
{
    if pairs.len() > 0 {
        lemma_collect_pairs_distinct(pairs.drop_last());
        let m = collect_pairs(pairs.drop_last());
        let kv = pairs.last();
        if has_key(m, kv.0@) {
            lemma_has_key_first(m, kv.0@);
        } else {
            let m2 = m.push(kv);
            assert forall|i: int, j: int| 0 <= i < j < m2.len() implies (#[trigger] m2[i]).0@
                != (#[trigger] m2[j]).0@ by {
                if j == m.len() {
                    assert(m2[i] == m[i]);
                }
            }
        }
    }
}

/// After recording a count for a channel, that count is what the table
/// answers for it.
pub proof fn lemma_upsert_then_lookup(m: Seq<(String, i64)>, kv: (String, i64))
    ensures
        match_count(upsert(m, kv), kv.0@) == Some(kv.1),
{
    let m2 = upsert(m, kv);
    if has_key(m, kv.0@) {
        lemma_has_key_first(m, kv.0@);
        let i = key_index(m, kv.0@);
        assert(is_first_key(m2, kv.0@, i)) by {
            assert forall|j: int| 0 <= j < i implies (#[trigger] m2[j]).0@ != kv.0@ by {
                assert(m2[j] == m[j]);
            }
        }
        lemma_key_index(m2, kv.0@, i);
    } else {
        let i = m.len() as int;
        assert(m2[i].0@ == kv.0@);
        assert(is_first_key(m2, kv.0@, i)) by {
            assert forall|j: int| 0 <= j < i implies (#[trigger] m2[j]).0@ != kv.0@ by {
                assert(m2[j] == m[j]);
            }
        }
        lemma_key_index(m2, kv.0@, i);
    }
}

// ---------------------------------------------------------------------------
// Which channels match
// ---------------------------------------------------------------------------

/// Channel `c` matches the lowercased query `lq`: its lowercased name
/// contains it, or the table lists the channel.
pub open spec fn channel_hit(c: ChannelRow, lq: Seq<char>, pm: Seq<(String, i64)>) -> bool {
    contains(lower(c.display_name@), lq) || has_key(pm, c.channel_id@)
}

/// Indices, in order, of the first `n` channels that match.
pub open spec fn hit_rows(cs: Seq<ChannelRow>, lq: Seq<char>, pm: Seq<(String, i64)>, n: nat) -> Seq<
    usize,
>
    decreases n,
{
    if n == 0 {
        Seq::empty()
    } else {
        let prev = hit_rows(cs, lq, pm, (n - 1) as nat);
        if channel_hit(cs[n - 1], lq, pm) {
            prev.push((n - 1) as usize)
        } else {
            prev
        }
    }
}

/// Positions, in order, among the first `n` listed rows, of those whose
/// channel matches.
pub open spec fn hit_positions(
    cs: Seq<ChannelRow>,
    view: Seq<usize>,
    lq: Seq<char>,
    pm: Seq<(String, i64)>,
    n: nat,
) -> Seq<usize>
    decreases n,
{
    if n == 0 {
        Seq::empty()
    } else {
        let prev = hit_positions(cs, view, lq, pm, (n - 1) as nat);
        if channel_hit(cs[view[n - 1] as int], lq, pm) {
            prev.push((n - 1) as usize)
        } else {
            prev
        }
    }
}

/// The outcome of a programme search as sequences.
pub open spec fn spec_found(found: Result<Vec<(String, i64)>, String>) -> Result<
    Seq<(String, i64)>,
    Seq<char>,
> {
    match found {
        Ok(v) => Ok(v@),
        Err(e) => Err(e@),
    }
}

/// Every entry of a list of indices is below `n`.
pub open spec fn all_below(s: Seq<usize>, n: nat) -> bool {
    forall|i: int| 0 <= i < s.len() ==> (#[trigger] s[i]) < n
}

/// The indices are strictly increasing.
pub open spec fn increasing(s: Seq<usize>) -> bool {
    forall|i: int, j: int| 0 <= i < j < s.len() ==> (#[trigger] s[i]) < (#[trigger] s[j])
}

/// The matching channels among the first `n` are listed by index in
/// increasing order, each below `n`, and a channel is listed exactly when it
/// matches.
pub proof fn lemma_hit_rows_bounds(cs: Seq<ChannelRow>, lq: Seq<char>, pm: Seq<(String, i64)>, n: nat)
    requires
        n <= usize::MAX,
    ensures
        all_below(hit_rows(cs, lq, pm, n), n),
        increasing(hit_rows(cs, lq, pm, n)),
        hit_rows(cs, lq, pm, n).len() <= n,
        forall|i: int|
            0 <= i < n ==> (channel_hit(cs[i], lq, pm) <==> hit_rows(cs, lq, pm, n).contains(
                i as usize,
            )),
    decreases n,
{
    if n > 0 {
        lemma_hit_rows_bounds(cs, lq, pm, (n - 1) as nat);
        let prev = hit_rows(cs, lq, pm, (n - 1) as nat);
        let cur = hit_rows(cs, lq, pm, n);
        assert forall|i: int| 0 <= i < n implies (channel_hit(cs[i], lq, pm) <==> cur.contains(
            i as usize,
        )) by {
            if i < n - 1 {
                if cur.contains(i as usize) && !prev.contains(i as usize) {
                    let k = choose|k: int| 0 <= k < cur.len() && cur[k] == i as usize;
                    if k < prev.len() {
                        assert(prev[k] == cur[k]);
                    }
                }
                if prev.contains(i as usize) {
                    let k = choose|k: int| 0 <= k < prev.len() && prev[k] == i as usize;
                    assert(cur[k] == prev[k]);
                }
            } else {
                if channel_hit(cs[i], lq, pm) {
                    assert(cur[cur.len() - 1] == i as usize);
                } else if cur.contains(i as usize) {
                    let k = choose|k: int| 0 <= k < cur.len() && cur[k] == i as usize;
                    assert(prev[k] < n - 1);
                }
            }
        }
    }
}

/// The match positions among the first `n` listed rows increase and are
/// each below `n`.
pub proof fn lemma_hit_positions_bounds(
    cs: Seq<ChannelRow>,
    view: Seq<usize>,
    lq: Seq<char>,
    pm: Seq<(String, i64)>,
    n: nat,
)
    requires
        n <= usize::MAX,
    ensures
        all_below(hit_positions(cs, view, lq, pm, n), n),
        increasing(hit_positions(cs, view, lq, pm, n)),
        hit_positions(cs, view, lq, pm, n).len() <= n,
        forall|i: int|
            0 <= i < n ==> (channel_hit(cs[view[i] as int], lq, pm) <==> hit_positions(
                cs,
                view,
                lq,
                pm,
                n,
            ).contains(i as usize)),
    decreases n,
{
    if n > 0 {
        lemma_hit_positions_bounds(cs, view, lq, pm, (n - 1) as nat);
        let prev = hit_positions(cs, view, lq, pm, (n - 1) as nat);
        let cur = hit_positions(cs, view, lq, pm, n);
        assert forall|i: int| 0 <= i < n implies (channel_hit(cs[view[i] as int], lq, pm)
            <==> cur.contains(i as usize)) by {
            if i < n - 1 {
                if cur.contains(i as usize) && !prev.contains(i as usize) {
                    let k = choose|k: int| 0 <= k < cur.len() && cur[k] == i as usize;
                    if k < prev.len() {
                        assert(prev[k] == cur[k]);
                    }
                }
                if prev.contains(i as usize) {
                    let k = choose|k: int| 0 <= k < prev.len() && prev[k] == i as usize;
                    assert(cur[k] == prev[k]);
                }
            } else {
                if channel_hit(cs[view[i] as int], lq, pm) {
                    assert(cur[cur.len() - 1] == i as usize);
                } else if cur.contains(i as usize) {
                    let k = choose|k: int| 0 <= k < cur.len() && cur[k] == i as usize;
                    assert(prev[k] < n - 1);
                }
            }
        }
    }
}

/// Does channel `c` match the lowercased query `lq`?
pub fn channel_hit_exec(c: &ChannelRow, lq: &Vec<char>, pm: &Vec<(String, i64)>) -> (r: bool)
    ensures
        r == channel_hit(*c, lq@, pm@),
{
    let name = to_lower(c.display_name.as_str());
    let name_chars = chars_of(name.as_str());
    if contains_chars(&name_chars, lq) {
        return true;
    }
    find_key(pm, &c.channel_id).is_some()
}

/// The lowercased characters of a query.
pub fn lowered_chars(q: &String) -> (r: Vec<char>)
    ensures
        r@ == lower(q@),
{
    let l = to_lower(q.as_str());
    chars_of(l.as_str())
}

impl AppView {
    /// The rows the channel list shows: all channels, or with filter mode
    /// and a query only the matching ones.
    pub open spec fn listed_channels(self) -> Seq<usize> {
        if self.filter_only && self.query.len() > 0 {
            hit_rows(self.channels, lower(self.query), self.prog_match, self.channels.len())
        } else {
            Seq::new(self.channels.len(), |i: int| i as usize)
        }
    }

    /// The positions of the listed rows that match; none without a query.
    pub open spec fn channel_matches(self) -> Seq<usize> {
        if self.query.len() == 0 {
            Seq::empty()
        } else {
            hit_positions(
                self.channels,
                self.view,
                lower(self.query),
                self.prog_match,
                self.view.len(),
            )
        }
    }

    pub open spec fn recompute_view(self) -> AppView {
        let a = AppView { view: self.listed_channels(), ..self };
        let b = AppView { matches: a.channel_matches(), ..a };
        let c = if b.selected >= b.view.len() {
            AppView { selected: last_index(b.view.len()), ..b }
        } else {
            b
        };
        c.clamp_scroll()
    }

    /// Every listed row is a channel.
    pub open spec fn view_valid(self) -> bool {
        all_below(self.view, self.channels.len())
    }

    /// The table of matching programmes after a search that reported
    /// `found` (or failed), given the current query.
    pub open spec fn refresh_prog_match(self, found: Result<Seq<(String, i64)>, Seq<char>>) -> (
        AppView,
        Result<(), Seq<char>>,
    ) {
        if trim(self.query).len() == 0 {
            (AppView { prog_match: Seq::empty(), ..self }, Ok(()))
        } else {
            match found {
                Ok(pairs) => (AppView { prog_match: collect_pairs(pairs), ..self }, Ok(())),
                Err(e) => (self, Err(e)),
            }
        }
    }

    pub open spec fn start_search(self) -> AppView {
        AppView { input: InputMode::Search, status: Seq::empty(), ..self }
    }

    pub open spec fn cancel_search(self) -> AppView {
        AppView {
            input: InputMode::Normal,
            query: Seq::empty(),
            matches: Seq::empty(),
            prog_match: Seq::empty(),
            filter_only: false,
            ..self
        }.recompute_view().with_status(Seq::empty())
    }

    pub open spec fn with_status(self, s: Seq<char>) -> AppView {
        AppView { status: s, ..self }
    }

    /// Confirms the query: outside the schedule the current/next programme
    /// table is refreshed from `found` (a failure is reported and empties the
    /// table), the list is recomputed, and the first match is selected with a
    /// summary, or the absence of matches is reported.
    pub open spec fn confirm_search(self, found: Result<Seq<(String, i64)>, Seq<char>>) -> AppView {
        self.confirm_refresh(found).recompute_view().report_matches()
    }

    /// The first half of confirming: leave the prompt and, outside the
    /// schedule, refresh the table of matching programmes from `found`.
    pub open spec fn confirm_refresh(self, found: Result<Seq<(String, i64)>, Seq<char>>) -> AppView {
        let a = AppView { input: InputMode::Normal, ..self };
        if a.mode != Mode::Programmes {
            let (r, res) = a.refresh_prog_match(found);
            match res {
                Ok(()) => r,
                Err(e) => AppView {
                    status: "search error: "@ + e,
                    prog_match: Seq::empty(),
                    ..r
                },
            }
        } else {
            a
        }
    }

    /// The second half of confirming: select the first match and summarise,
    /// or report that nothing matches.
    pub open spec fn report_matches(self) -> AppView {
        if self.matches.len() > 0 {
            let d = AppView { match_pos: 0, ..self }.goto(self.matches[0]);
            if d.prog_match.len() == 0 {
                d.with_status(decimal(d.matches.len()) + " matches"@)
            } else {
                d.with_status(
                    decimal(d.matches.len()) + " matches • "@ + decimal(d.prog_match.len())
                        + " channels with matching programmes"@,
                )
            }
        } else if self.query.len() > 0 {
            self.with_status(no_matches_text(self.query))
        } else {
            self
        }
    }

    pub open spec fn next_match(self, forward: bool) -> AppView {
        if self.matches.len() == 0 {
            if self.query.len() > 0 {
                self.with_status(no_matches_text(self.query))
            } else {
                self
            }
        } else {
            let n = self.matches.len();
            let p = next_pos(self.match_pos as int, n as int, forward);
            let a = AppView { match_pos: p as usize, ..self }.goto(self.matches[p]);
            a.with_status(match_of_text(p as nat + 1, n))
        }
    }

    pub open spec fn toggle_filter(self) -> AppView {
        if self.query.len() == 0 {
            self.with_status("No search query to filter by"@)
        } else {
            let a = AppView { filter_only: !self.filter_only, ..self }.recompute_view();
            if a.filter_only {
                a.with_status("Filter ON: "@ + decimal(a.view.len()) + " channels"@)
            } else {
                a.with_status("Filter OFF"@)
            }
        }
    }
}

/// The report that nothing matches `q`.
pub open spec fn no_matches_text(q: Seq<char>) -> Seq<char> {
    "No matches for \""@ + q + "\""@
}

/// The report of being at match `k` of `n`.
pub open spec fn match_of_text(k: nat, n: nat) -> Seq<char> {
    "match "@ + decimal(k) + "/"@ + decimal(n)
}

/// The match position after stepping forward or backward from `pos` among
/// `n` matches, wrapping at either end.
pub open spec fn next_pos(pos: int, n: int, forward: bool) -> int {
    if forward {
        (pos + 1) % n
    } else {
        (pos + n - 1) % n
    }
}

/// One step forward or back from a valid position, in plain terms.
pub proof fn lemma_next_pos_step(p: int, n: int)
    requires
        0 <= p < n,
    ensures
        next_pos(p, n, true) == (if p + 1 < n {
            p + 1
        } else {
            0
        }),
        next_pos(p, n, false) == (if p > 0 {
            p - 1
        } else {
            n - 1
        }),
{
    if p + 1 < n {
        vstd::arithmetic::div_mod::lemma_small_mod((p + 1) as nat, n as nat);
    } else {
        vstd::arithmetic::div_mod::lemma_mod_self_0(n);
    }
    if p > 0 {
        vstd::arithmetic::div_mod::lemma_mod_add_multiples_vanish(p - 1, n);
        vstd::arithmetic::div_mod::lemma_small_mod((p - 1) as nat, n as nat);
    } else {
        vstd::arithmetic::div_mod::lemma_small_mod((n - 1) as nat, n as nat);
    }
}

/// A step back undoes a step forward and the other way round; stepping on
/// from the last match reaches the first and back from the first the last.
pub proof fn lemma_next_pos_wraps(pos: int, n: int)
    requires
        0 <= pos < n,
    ensures
        next_pos(next_pos(pos, n, true), n, false) == pos,
        next_pos(next_pos(pos, n, false), n, true) == pos,
        next_pos(n - 1, n, true) == 0,
        next_pos(0, n, false) == n - 1,
{
    lemma_next_pos_step(pos, n);
    lemma_next_pos_step(next_pos(pos, n, true), n);
    lemma_next_pos_step(next_pos(pos, n, false), n);
    lemma_next_pos_step(n - 1, n);
    lemma_next_pos_step(0, n);
}

/// The match position after stepping `k` times forward from `pos` among `n`
/// matches.
pub open spec fn steps_forward(pos: int, n: int, k: nat) -> int
    decreases k,
{
    if k == 0 {
        pos
    } else {
        next_pos(steps_forward(pos, n, (k - 1) as nat), n, true)
    }
}

/// `k` steps forward from `pos` land on `(pos + k) % n`.
pub proof fn lemma_steps_forward(pos: int, n: int, k: nat)
    requires
        0 <= pos < n,
    ensures
        steps_forward(pos, n, k) == (pos + k) % n,
    decreases k,
{
    if k == 0 {
        vstd::arithmetic::div_mod::lemma_small_mod(pos as nat, n as nat);
    } else {
        lemma_steps_forward(pos, n, (k - 1) as nat);
        let q = steps_forward(pos, n, (k - 1) as nat);
        vstd::arithmetic::div_mod::lemma_mod_bound(pos + k - 1, n);
        vstd::arithmetic::div_mod::lemma_add_mod_noop(pos + k - 1, 1, n);
        vstd::arithmetic::div_mod::lemma_mod_twice(pos + k - 1, n);
        if n > 1 {
            vstd::arithmetic::div_mod::lemma_small_mod(1, n as nat);
        } else {
            assert(q == 0);
            assert((pos + k) % n == 0) by {
                vstd::arithmetic::div_mod::lemma_mod_bound(pos + k, n);
            }
        }
    }
}

/// Cycling forward through all `n` matches comes back to the start.
pub proof fn lemma_full_cycle_returns(pos: int, n: int)
    requires
        0 <= pos < n,
    ensures
        steps_forward(pos, n, n as nat) == pos,
{
    lemma_steps_forward(pos, n, n as nat);
    vstd::arithmetic::div_mod::lemma_mod_add_multiples_vanish(pos, n);
    vstd::arithmetic::div_mod::lemma_small_mod(pos as nat, n as nat);
}

pub(crate) fn next_pos_exec(pos: usize, n: usize, forward: bool) -> (r: usize)
    requires
        n > 0,
    ensures
        r == next_pos(pos as int, n as int, forward),
        r < n,
{
    let p = pos % n;
    proof {
        let (x, m) = (pos as int, n as int);
        vstd::arithmetic::div_mod::lemma_mod_bound(x, m);
        vstd::arithmetic::div_mod::lemma_mod_twice(x, m);
        vstd::arithmetic::div_mod::lemma_add_mod_noop(x, 1, m);
        vstd::arithmetic::div_mod::lemma_add_mod_noop(p as int, 1, m);
        vstd::arithmetic::div_mod::lemma_add_mod_noop(x, m - 1, m);
        vstd::arithmetic::div_mod::lemma_add_mod_noop(p as int, m - 1, m);
        lemma_next_pos_step(p as int, m);
        assert(next_pos(x, m, true) == next_pos(p as int, m, true));
        assert(next_pos(x, m, false) == next_pos(p as int, m, false));
    }
    if forward {
        if p + 1 == n {
            0
        } else {
            p + 1
        }
    } else {
        if p == 0 {
            n - 1
        } else {
            p - 1
        }
    }
}

pub(crate) fn no_matches_string(q: &String) -> (s: String)
    ensures
        s@ == no_matches_text(q@),
{
    let mut s = owned("No matches for \"");
    append(&mut s, q.as_str());
    append(&mut s, "\"");
    s
}

pub(crate) fn match_of_string(k: usize, n: usize) -> (s: String)
    ensures
        s@ == match_of_text(k as nat, n as nat),
{
    let mut s = owned("match ");
    let a = decimal_string(k as u64);
    append(&mut s, a.as_str());
    append(&mut s, "/");
    let b = decimal_string(n as u64);
    append(&mut s, b.as_str());
    s
}

/// Indices of the channels that match, in order.
fn hit_rows_exec(cs: &Vec<ChannelRow>, lq: &Vec<char>, pm: &Vec<(String, i64)>) -> (v: Vec<usize>)
    ensures
        v@ == hit_rows(cs@, lq@, pm@, cs@.len()),
{
    let mut v: Vec<usize> = Vec::new();
    let mut i: usize = 0;
    while i < cs.len()
        invariant
            i <= cs@.len(),
            v@ == hit_rows(cs@, lq@, pm@, i as nat),
        decreases cs.len() - i,
    {
        if channel_hit_exec(&cs[i], lq, pm) {
            v.push(i);
        }
        i = i + 1;
    }
    v
}

/// Positions of the listed rows whose channel matches.
fn hit_positions_exec(
    cs: &Vec<ChannelRow>,
    view: &Vec<usize>,
    lq: &Vec<char>,
    pm: &Vec<(String, i64)>,
) -> (v: Vec<usize>)
    requires
        all_below(view@, cs@.len()),
    ensures
        v@ == hit_positions(cs@, view@, lq@, pm@, view@.len()),
{
    let mut v: Vec<usize> = Vec::new();
    let mut i: usize = 0;
    while i < view.len()
        invariant
            i <= view@.len(),
            all_below(view@, cs@.len()),
            v@ == hit_positions(cs@, view@, lq@, pm@, i as nat),
        decreases view.len() - i,
    {
        if channel_hit_exec(&cs[view[i]], lq, pm) {
            v.push(i);
        }
        i = i + 1;
    }
    v
}

impl App {
    /// Recomputes the listed rows and the matches from the channels, the
    /// query, filter mode and the table of matching programmes, then keeps the
    /// selection on a listed row and in the window.
    pub fn recompute_view(&mut self)
        ensures
            final(self)@ == old(self)@.recompute_view(),
            final(self)@.view_valid(),
            final(self)@.selection_visible(),
    {
        let lq = lowered_chars(&self.query);
        if self.filter_only && !self.query.as_str().is_empty() {
            self.view = hit_rows_exec(&self.channels, &lq, &self.prog_match);
            proof {
                assert(self.channels@.len() == self.channels.len());
                lemma_hit_rows_bounds(self.channels@, lq@, self.prog_match@, self.channels@.len());
            }
        } else {
            self.view = crate::app::all_indices(self.channels.len());
        }
        if self.query.as_str().is_empty() {
            self.matches = Vec::new();
        } else {
            self.matches = hit_positions_exec(&self.channels, &self.view, &lq, &self.prog_match);
        }
        if self.selected >= self.view.len() {
            self.selected = if self.view.len() == 0 {
                0
            } else {
                self.view.len() - 1
            };
        }
        self.clamp_scroll();
    }

    /// Refreshes the table of channels whose current/next programme matches
    /// the query from `found`, what the cache reported for it. A blank query
    /// empties the table without consulting `found`; a failure is returned
    /// and leaves the table as it was.
    pub fn refresh_prog_match(&mut self, found: Result<Vec<(String, i64)>, String>) -> (r: Result<
        (),
        String,
    >)
        ensures
            ({
                let (v, res) = old(self)@.refresh_prog_match(spec_found(found));
                &&& final(self)@ == v
                &&& r is Ok <==> res is Ok
                &&& r matches Err(e) ==> res == Err::<(), Seq<char>>(e@)
            }),
            r is Ok ==> keys_distinct(final(self)@.prog_match),
    {
        if is_blank(self.query.as_str()) {
            self.prog_match = Vec::new();
            return Ok(());
        }
        match found {
            Ok(pairs) => {
                proof {
                    lemma_collect_pairs_distinct(pairs@);
                }
                self.prog_match = collect_pairs_exec(pairs);
                Ok(())
            },
            Err(e) => Err(e),
        }
    }

    /// Enters the search prompt, keeping the current query for editing.
    pub fn start_search(&mut self)
        ensures
            final(self)@ == old(self)@.start_search(),
    {
        self.input = InputMode::Search;
        clear_string(&mut self.status);
    }

    /// Leaves the search prompt and drops the query, the matches, the table
    /// of matching programmes and filter mode; the full list shows again.
    pub fn cancel_search(&mut self)
        ensures
            final(self)@ == old(self)@.cancel_search(),
    {
        self.input = InputMode::Normal;
        clear_string(&mut self.query);
        self.matches = Vec::new();
        self.prog_match = Vec::new();
        self.filter_only = false;
        self.recompute_view();
        clear_string(&mut self.status);
    }

    /// Confirms the query. `found` is what the cache reported for the
    /// channels whose current or next programme matches the query; it is
    /// consulted only outside the schedule and for a query that is not blank.
    pub fn confirm_search(&mut self, found: Result<Vec<(String, i64)>, String>)
        ensures
            final(self)@ == old(self)@.confirm_search(spec_found(found)),
    {
        self.confirm_refresh(found);
        self.recompute_view();
        self.report_matches();
    }

    fn confirm_refresh(&mut self, found: Result<Vec<(String, i64)>, String>)
        ensures
            final(self)@ == old(self)@.confirm_refresh(spec_found(found)),
    {
        self.input = InputMode::Normal;
        if self.mode != Mode::Programmes {
            match self.refresh_prog_match(found) {
                Ok(()) => {},
                Err(e) => {
                    let mut s = owned("search error: ");
                    append(&mut s, e.as_str());
                    self.status = s;
                    self.prog_match = Vec::new();
                },
            }
        }
    }

    fn report_matches(&mut self)
        ensures
            final(self)@ == old(self)@.report_matches(),
    {
        if self.matches.len() > 0 {
            self.match_pos = 0;
            let first = self.matches[0];
            self.goto(first);
            let n = decimal_string(self.matches.len() as u64);
            let mut s = String::new();
            append(&mut s, n.as_str());
            if self.prog_match.len() == 0 {
                append(&mut s, " matches");
            } else {
                append(&mut s, " matches • ");
                let m = decimal_string(self.prog_match.len() as u64);
                append(&mut s, m.as_str());
                append(&mut s, " channels with matching programmes");
            }
            self.status = s;
        } else if !self.query.as_str().is_empty() {
            self.status = no_matches_string(&self.query);
        }
    }

    /// Selects the next (or previous) match, wrapping around at either end.
    pub fn next_match(&mut self, forward: bool)
        ensures
            final(self)@ == old(self)@.next_match(forward),
    {
        if self.matches.len() == 0 {
            if !self.query.as_str().is_empty() {
                self.status = no_matches_string(&self.query);
            }
            return;
        }
        let n = self.matches.len();
        let p = next_pos_exec(self.match_pos, n, forward);
        self.match_pos = p;
        let target = self.matches[p];
        self.goto(target);
        self.status = match_of_string(p + 1, n);
    }

    /// Turns filter mode on or off; without a query it only says so.
    pub fn toggle_filter(&mut self)
        ensures
            final(self)@ == old(self)@.toggle_filter(),
    {
        if self.query.as_str().is_empty() {
            self.status = owned("No search query to filter by");
            return;
        }
        self.filter_only = !self.filter_only;
        self.recompute_view();
        if self.filter_only {
            let mut s = owned("Filter ON: ");
            let n = decimal_string(self.view.len() as u64);
            append(&mut s, n.as_str());
            append(&mut s, " channels");
            self.status = s;
        } else {
            self.status = owned("Filter OFF");
        }
    }

    /// Does the table of matching programmes list channel `channel_id`?
    pub fn has_prog_match(&self, channel_id: &str) -> (r: bool)
        ensures
            r == has_key(self.prog_match@, channel_id@),
    {
        let id = owned(channel_id);
        find_key(&self.prog_match, &id).is_some()
    }

    /// The number of matching current/next programmes recorded for a channel.
    pub fn prog_match_count(&self, channel_id: &str) -> (r: Option<i64>)
        ensures
            r == match_count(self.prog_match@, channel_id@),
    {
        let id = owned(channel_id);
        match find_key(&self.prog_match, &id) {
            Some(i) => Some(self.prog_match[i].1),
            None => None,
        }
    }
}

/// Turning filter mode on and off again (or off and on) leaves the list, the
/// matches and filter mode as a plain recomputation would; without a query,
/// toggling changes nothing but the status line.
pub proof fn lemma_toggle_filter_twice(v: AppView)
    ensures
        v.query.len() > 0 ==> v.toggle_filter().toggle_filter().view == v.recompute_view().view,
        v.query.len() > 0 ==> v.toggle_filter().toggle_filter().matches
            == v.recompute_view().matches,
        v.toggle_filter().toggle_filter().filter_only == v.filter_only,
        v.query.len() == 0 ==> v.toggle_filter() == v.with_status(
            "No search query to filter by"@,
        ),
{
}

/// Cancelling a search lists every channel again, with no query, no matches
/// and filter mode off.
pub proof fn lemma_cancel_search_restores_full_list(v: AppView)
    ensures
        v.cancel_search().view == Seq::new(v.channels.len(), |i: int| i as usize),
        v.cancel_search().query.len() == 0,
        v.cancel_search().matches.len() == 0,
        !v.cancel_search().filter_only,
        v.cancel_search().input == InputMode::Normal,
{
}

/// With filter mode on and a query, the channel list shows exactly the
/// channels that match (by name, ignoring case, or by a current/next
/// programme), in the cache's order; with filter mode off it shows every
/// channel.
pub proof fn lemma_filter_lists_exactly_the_matches(v: AppView)
    requires
        v.channels.len() <= usize::MAX,
    ensures
        v.filter_only && v.query.len() > 0 ==> {
            &&& increasing(v.recompute_view().view)
            &&& forall|i: int|
                0 <= i < v.channels.len() ==> (channel_hit(
                    #[trigger] v.channels[i],
                    lower(v.query),
                    v.prog_match,
                ) <==> v.recompute_view().view.contains(i as usize))
        },
        !(v.filter_only && v.query.len() > 0) ==> v.recompute_view().view == Seq::new(
            v.channels.len(),
            |i: int| i as usize,
        ),
{
    assert(v.recompute_view().view == v.listed_channels());
    if v.filter_only && v.query.len() > 0 {
        lemma_hit_rows_bounds(v.channels, lower(v.query), v.prog_match, v.channels.len());
    }
}

/// `n` and `N` step through the matches, wrapping at either end, and
/// select the row of the match they land on.
pub proof fn lemma_next_match_selects_the_match(v: AppView, forward: bool)
    requires
        v.matches.len() > 0,
        v.match_pos < v.matches.len(),
        all_below(v.matches, v.view.len()),
        v.view.len() <= usize::MAX,
        v.matches.len() <= usize::MAX,
    ensures
        v.next_match(forward).match_pos == next_pos(
            v.match_pos as int,
            v.matches.len() as int,
            forward,
        ),
        v.next_match(forward).selected == v.matches[v.next_match(forward).match_pos as int],
{
    let n = v.matches.len() as int;
    lemma_next_pos_step(v.match_pos as int, n);
    let p = next_pos(v.match_pos as int, n, forward);
    assert(0 <= p < n);
    let idx = v.matches[p];
    assert(idx < v.view.len());
    let a = AppView { match_pos: p as usize, ..v };
    assert(a.matches == v.matches && a.view == v.view);
    let g = a.goto(idx);
    assert(clamp_window(idx, a.offset, a.view.len(), a.viewport).0 == idx);
    assert(g.selected == idx);
    assert(v.next_match(forward) == g.with_status(match_of_text(p as nat + 1, n as nat)));
}

/// With a query, the matches that `n`/`N` step through are exactly the
/// positions of the listed rows whose channel matches, in list order;
/// without a query there are none.
pub proof fn lemma_matches_are_the_matching_rows(v: AppView)
    requires
        v.channels.len() <= usize::MAX,
    ensures
        v.query.len() > 0 ==> {
            let w = v.recompute_view();
            &&& increasing(w.matches)
            &&& all_below(w.matches, w.view.len())
            &&& forall|i: int|
                0 <= i < w.view.len() ==> (channel_hit(
                    w.channels[#[trigger] w.view[i] as int],
                    lower(w.query),
                    w.prog_match,
                ) <==> w.matches.contains(i as usize))
        },
        v.query.len() == 0 ==> v.recompute_view().matches.len() == 0,
        v.recompute_view().view.len() <= v.channels.len(),
{
    let a = AppView { view: v.listed_channels(), ..v };
    if v.filter_only && v.query.len() > 0 {
        lemma_hit_rows_bounds(v.channels, lower(v.query), v.prog_match, v.channels.len());
    }
    assert(a.view.len() <= usize::MAX);
    if v.query.len() > 0 {
        lemma_hit_positions_bounds(a.channels, a.view, lower(a.query), a.prog_match, a.view.len());
    }
    assert(v.recompute_view().matches == a.channel_matches());
    assert(v.recompute_view().view == a.view);
}

/// Confirming a search leaves the prompt, lists and marks the channels as a
/// recomputation does (outside a schedule with the table of matching
/// programmes the search reported, on a schedule with the table as it was),
/// and then selects the first match and reports how many there are, or
/// reports that nothing matches the query.
pub proof fn lemma_confirm_search_reports(v: AppView, found: Result<Seq<(String, i64)>, Seq<char>>)
    requires
        v.channels.len() <= usize::MAX,
    ensures
        ({
            let w = v.confirm_search(found);
            let c = v.confirm_refresh(found).recompute_view();
            &&& w.input == InputMode::Normal
            &&& w.view == c.view && w.matches == c.matches
            &&& v.mode == Mode::Programmes ==> w.prog_match == v.prog_match
            &&& w.matches.len() > 0 ==> {
                &&& w.match_pos == 0
                &&& w.selected == w.matches[0]
                &&& w.status == (if w.prog_match.len() == 0 {
                    decimal(w.matches.len()) + " matches"@
                } else {
                    decimal(w.matches.len()) + " matches • "@ + decimal(w.prog_match.len())
                        + " channels with matching programmes"@
                })
            }
            &&& w.matches.len() == 0 && v.query.len() > 0 ==> w.status == no_matches_text(v.query)
        }),
{
    let a = v.confirm_refresh(found);
    assert(a.channels == v.channels && a.query == v.query);
    lemma_matches_are_the_matching_rows(a);
    let c = a.recompute_view();
    if c.matches.len() > 0 {
        let idx = c.matches[0];
        assert(idx < c.view.len());
        assert(c.view.len() <= usize::MAX);
        assert(last_index(c.view.len()) == c.view.len() - 1);
        let d = AppView { match_pos: 0, ..c };
        assert(clamp_window(idx, d.offset, d.view.len(), d.viewport).0 == idx);
        assert(d.goto(idx).selected == idx);
    }
}

/// A confirmed search marks a listed channel as a match exactly when its
/// lowercased name contains the lowercased query anywhere, or the cache
/// reported a matching current/next programme on it; with filter mode on, a
/// channel whose name contains the query is listed.
pub proof fn lemma_confirmed_search_finds_names(
    v: AppView,
    found: Result<Seq<(String, i64)>, Seq<char>>,
)
    requires
        v.channels.len() <= usize::MAX,
        v.query.len() > 0,
    ensures
        ({
            let w = v.confirm_search(found);
            &&& forall|i: int|
                0 <= i < w.view.len() ==> ((contains(
                    lower(w.channels[#[trigger] w.view[i] as int].display_name@),
                    lower(v.query),
                ) || has_key(w.prog_match, w.channels[w.view[i] as int].channel_id@))
                    <==> w.matches.contains(i as usize))
            &&& w.filter_only ==> forall|j: int|
                0 <= j < w.channels.len() && contains(
                    lower(#[trigger] w.channels[j].display_name@),
                    lower(v.query),
                ) ==> w.view.contains(j as usize)
        }),
{
    let a = v.confirm_refresh(found);
    assert(a.channels == v.channels && a.query == v.query);
    lemma_matches_are_the_matching_rows(a);
    lemma_filter_lists_exactly_the_matches(a);
    let c = a.recompute_view();
    let w = v.confirm_search(found);
    assert(w.view == c.view && w.matches == c.matches && w.channels == c.channels && w.prog_match
        == c.prog_match && w.filter_only == c.filter_only) by {
        if c.matches.len() > 0 {
            let d = AppView { match_pos: 0, ..c };
            assert(d.goto(c.matches[0]).view == c.view);
        }
    }
}

} // verus!
