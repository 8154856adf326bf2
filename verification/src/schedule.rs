//! A channel's schedule: opening it with the programmes the cache holds for
//! the channel, filtering and searching it, jumping to what is on air, the
//! detail of one programme, leaving the schedule, and the now/next cache of
//! the channel list.
use vstd::prelude::*;

use crate::app::{last_index, App, AppView, Mode, NowNext};
use crate::guide::{copy_programme, is_airing, is_upcoming, ChannelRow, ProgrammeRow};
use crate::search::{all_below, lowered_chars, spec_found};
use crate::text::{chars_of, contains, contains_chars, lower, owned, text_eq, to_lower};

verus! {

/// Programme `p` matches the lowercased query `lq` by its title or its
/// description (both lowercased).
pub open spec fn prog_hit(p: ProgrammeRow, lq: Seq<char>) -> bool {
    contains(lower(p.title@), lq) || contains(lower(p.desc@), lq)
}

/// Indices, in order, of the first `n` programmes that match.
pub open spec fn prog_rows(ps: Seq<ProgrammeRow>, lq: Seq<char>, n: nat) -> Seq<usize>
    decreases n,
{
    if n == 0 {
        Seq::empty()
    } else {
        let prev = prog_rows(ps, lq, (n - 1) as nat);
        if prog_hit(ps[n - 1], lq) {
            prev.push((n - 1) as usize)
        } else {
            prev
        }
    }
}

/// Positions, among the first `n` listed programmes, of those that match.
pub open spec fn prog_positions(ps: Seq<ProgrammeRow>, pv: Seq<usize>, lq: Seq<char>, n: nat) -> Seq<
    usize,
>
    decreases n,
{
    if n == 0 {
        Seq::empty()
    } else {
        let prev = prog_positions(ps, pv, lq, (n - 1) as nat);
        if prog_hit(ps[pv[n - 1] as int], lq) {
            prev.push((n - 1) as usize)
        } else {
            prev
        }
    }
}

/// The matching programmes among the first `n` are listed by index, each
/// below `n`, and a programme is listed exactly when it matches.
pub proof fn lemma_prog_rows_bounds(ps: Seq<ProgrammeRow>, lq: Seq<char>, n: nat)
    requires
        n <= usize::MAX,
    ensures
        all_below(prog_rows(ps, lq, n), n),
        prog_rows(ps, lq, n).len() <= n,
        forall|i: int|
            0 <= i < n ==> (prog_hit(ps[i], lq) <==> prog_rows(ps, lq, n).contains(i as usize)),
    decreases n,
{
    if n > 0 {
        lemma_prog_rows_bounds(ps, lq, (n - 1) as nat);
        let prev = prog_rows(ps, lq, (n - 1) as nat);
        let cur = prog_rows(ps, lq, n);
        assert forall|i: int| 0 <= i < n implies (prog_hit(ps[i], lq) <==> cur.contains(
            i as usize,
        )) by {
            if i < n - 1 {
                if cur.contains(i as usize) && !prev.contains(i as usize) {
                    let k = choose|k: int| 0 <= k < cur.len() && cur[k] == i as usize;
                    if k < prev.len() {
                        assert(prev[k] == cur[k]);
                    }
                }
                if prev.contains(i as usize) {
                    let k = choose|k: int| 0 <= k < prev.len() && prev[k] == i as usize;
                    assert(cur[k] == prev[k]);
                }
            } else {
                if prog_hit(ps[i], lq) {
                    assert(cur[cur.len() - 1] == i as usize);
                } else if cur.contains(i as usize) {
                    let k = choose|k: int| 0 <= k < cur.len() && cur[k] == i as usize;
                    assert(prev[k] < n - 1);
                }
            }
        }
    }
}

/// The match positions among the first `n` listed programmes increase, are
/// each below `n`, and hold a position exactly when its programme matches.
pub proof fn lemma_prog_positions_bounds(ps: Seq<ProgrammeRow>, pv: Seq<usize>, lq: Seq<char>, n: nat)
    requires
        n <= usize::MAX,
    ensures
        all_below(prog_positions(ps, pv, lq, n), n),
        crate::search::increasing(prog_positions(ps, pv, lq, n)),
        forall|i: int|
            0 <= i < n ==> (prog_hit(ps[pv[i] as int], lq) <==> prog_positions(ps, pv, lq, n).contains(
                i as usize,
            )),
    decreases n,
{
    if n > 0 {
        lemma_prog_positions_bounds(ps, pv, lq, (n - 1) as nat);
        let prev = prog_positions(ps, pv, lq, (n - 1) as nat);
        let cur = prog_positions(ps, pv, lq, n);
        assert forall|i: int| 0 <= i < n implies (prog_hit(ps[pv[i] as int], lq) <==> cur.contains(
            i as usize,
        )) by {
            if i < n - 1 {
                if cur.contains(i as usize) && !prev.contains(i as usize) {
                    let k = choose|k: int| 0 <= k < cur.len() && cur[k] == i as usize;
                    if k < prev.len() {
                        assert(prev[k] == cur[k]);
                    }
                }
                if prev.contains(i as usize) {
                    let k = choose|k: int| 0 <= k < prev.len() && prev[k] == i as usize;
                    assert(cur[k] == prev[k]);
                }
            } else {
                if prog_hit(ps[pv[i] as int], lq) {
                    assert(cur[cur.len() - 1] == i as usize);
                } else if cur.contains(i as usize) {
                    let k = choose|k: int| 0 <= k < cur.len() && cur[k] == i as usize;
                    assert(prev[k] < n - 1);
                }
            }
        }
    }
}

/// The first of the first `n` listed programmes that is on air at `now`.
pub open spec fn first_airing(ps: Seq<ProgrammeRow>, pv: Seq<usize>, now: i64, n: nat) -> Option<nat>
    decreases n,
{
    if n == 0 {
        None
    } else {
        match first_airing(ps, pv, now, (n - 1) as nat) {
            Some(k) => Some(k),
            None => if is_airing(ps[pv[n - 1] as int], now) {
                Some((n - 1) as nat)
            } else {
                None
            },
        }
    }
}

/// The first of the first `n` listed programmes that starts after `now`.
pub open spec fn first_upcoming(ps: Seq<ProgrammeRow>, pv: Seq<usize>, now: i64, n: nat) -> Option<
    nat,
>
    decreases n,
{
    if n == 0 {
        None
    } else {
        match first_upcoming(ps, pv, now, (n - 1) as nat) {
            Some(k) => Some(k),
            None => if is_upcoming(ps[pv[n - 1] as int], now) {
                Some((n - 1) as nat)
            } else {
                None
            },
        }
    }
}

/// `first_airing` finds the earliest listed programme on air, and finds one
/// whenever one is listed; likewise `first_upcoming`.
pub proof fn lemma_first_airing(ps: Seq<ProgrammeRow>, pv: Seq<usize>, now: i64, n: nat)
    ensures
        first_airing(ps, pv, now, n) matches Some(k) ==> k < n && is_airing(ps[pv[k as int] as int], now)
            && forall|j: int| 0 <= j < k ==> !is_airing(ps[pv[j] as int], now),
        first_airing(ps, pv, now, n) is None ==> forall|j: int|
            0 <= j < n ==> !is_airing(ps[pv[j] as int], now),
        first_upcoming(ps, pv, now, n) matches Some(k) ==> k < n && is_upcoming(
            ps[pv[k as int] as int],
            now,
        ) && forall|j: int| 0 <= j < k ==> !is_upcoming(ps[pv[j] as int], now),
        first_upcoming(ps, pv, now, n) is None ==> forall|j: int|
            0 <= j < n ==> !is_upcoming(ps[pv[j] as int], now),
    decreases n,
{
    if n > 0 {
        lemma_first_airing(ps, pv, now, (n - 1) as nat);
    }
}

/// Where the channel's now/next answer sits in the cache: the first entry
/// for it.
pub open spec fn cache_first(c: Seq<(String, Option<ProgrammeRow>, Option<ProgrammeRow>)>, id: Seq<char>, i: int) -> bool {
    &&& 0 <= i < c.len()
    &&& c[i].0@ == id
    &&& forall|j: int| 0 <= j < i ==> (#[trigger] c[j]).0@ != id
}

/// The cached now/next answer for channel `id`, if there is one.
pub open spec fn cache_lookup(c: Seq<(String, Option<ProgrammeRow>, Option<ProgrammeRow>)>, id: Seq<char>) -> Option<NowNext> {
    if exists|i: int| cache_first(c, id, i) {
        let i = choose|i: int| cache_first(c, id, i);
        Some((c[i].1, c[i].2))
    } else {
        None
    }
}

proof fn lemma_cache_has_first(c: Seq<(String, Option<ProgrammeRow>, Option<ProgrammeRow>)>, id: Seq<char>, j: int)
    requires
        0 <= j < c.len(),
        c[j].0@ == id,
    ensures
        exists|i: int| cache_first(c, id, i),
    decreases j,
{
    if exists|m: int| 0 <= m < j && (#[trigger] c[m]).0@ == id {
        let m = choose|m: int| 0 <= m < j && (#[trigger] c[m]).0@ == id;
        lemma_cache_has_first(c, id, m);
    } else {
        assert(cache_first(c, id, j));
    }
}

proof fn lemma_cache_first_unique(c: Seq<(String, Option<ProgrammeRow>, Option<ProgrammeRow>)>, id: Seq<char>, i: int, k: int)
    requires
        cache_first(c, id, i),
        cache_first(c, id, k),
    ensures
        i == k,
{
    if i < k {
        assert(c[i].0@ != id);
    } else if k < i {
        assert(c[k].0@ != id);
    }
}

impl AppView {
    /// The programmes the schedule lists: all, or with filter mode and a
    /// query only the matching ones.
    pub open spec fn listed_programmes(self) -> Seq<usize> {
        if self.filter_only && self.query.len() > 0 {
            prog_rows(self.programmes, lower(self.query), self.programmes.len())
        } else {
            Seq::new(self.programmes.len(), |i: int| i as usize)
        }
    }

    /// Positions of the listed programmes that match; none without a query.
    pub open spec fn programme_matches(self) -> Seq<usize> {
        if self.query.len() == 0 {
            Seq::empty()
        } else {
            prog_positions(self.programmes, self.prog_view, lower(self.query), self.prog_view.len())
        }
    }

    pub open spec fn recompute_prog_view(self) -> AppView {
        let a = AppView { prog_view: self.listed_programmes(), ..self };
        let b = AppView { prog_matches: a.programme_matches(), ..a };
        let c = if b.prog_selected >= b.prog_view.len() {
            AppView { prog_selected: last_index(b.prog_view.len()), ..b }
        } else {
            b
        };
        c.clamp_prog_scroll()
    }

    /// Every listed programme is one of the schedule's.
    pub open spec fn prog_view_valid(self) -> bool {
        all_below(self.prog_view, self.programmes.len())
    }

    /// Selects the listed programme on air at `now`, else the next one to
    /// start; with neither, nothing changes.
    pub open spec fn jump_to_now(self) -> AppView {
        let best = match first_airing(self.programmes, self.prog_view, self.now, self.prog_view.len()) {
            Some(k) => Some(k),
            None => first_upcoming(self.programmes, self.prog_view, self.now, self.prog_view.len()),
        };
        match best {
            Some(k) => AppView { prog_selected: k as usize, ..self }.clamp_prog_scroll(),
            None => self,
        }
    }

    /// The channel whose schedule opening the selected row would load.
    pub open spec fn selected_channel(self) -> Option<ChannelRow> {
        if self.view.len() == 0 || self.selected >= self.view.len() {
            None
        } else {
            Some(self.channels[self.view[self.selected as int] as int])
        }
    }

    /// Opens the selected channel's schedule with `loaded`, the programmes
    /// the cache returned for it: the schedule is filtered and searched like
    /// the list, and the programme on air (or next) is selected.
    pub open spec fn open_channel(self, loaded: Result<Seq<ProgrammeRow>, Seq<char>>) -> (
        AppView,
        Result<(), Seq<char>>,
    ) {
        match self.selected_channel() {
            None => (self, Ok(())),
            Some(ch) => match loaded {
                Err(e) => (self, Err(e)),
                Ok(ps) => {
                    let a = AppView { programmes: ps, cur_channel: Some(ch), ..self };
                    (AppView { mode: Mode::Programmes, ..a.recompute_prog_view().jump_to_now() }, Ok(()))
                },
            },
        }
    }

    pub open spec fn open_detail(self) -> AppView {
        if self.prog_view.len() == 0 || self.prog_selected >= self.prog_view.len() {
            self
        } else {
            AppView {
                detail: Some(self.programmes[self.prog_view[self.prog_selected as int] as int]),
                detail_scroll: 0,
                mode: Mode::Detail,
                ..self
            }
        }
    }

    pub open spec fn close_detail(self) -> AppView {
        AppView { mode: Mode::Programmes, detail: None, ..self }
    }

    /// Leaves the schedule for the channel list. With a query, the table of
    /// matching programmes is refreshed from `found` across all channels and
    /// the list recomputed; a failure is returned after leaving.
    pub open spec fn close_programmes(self, found: Result<Seq<(String, i64)>, Seq<char>>) -> (
        AppView,
        Result<(), Seq<char>>,
    ) {
        let a = AppView {
            mode: Mode::Channels,
            programmes: Seq::empty(),
            prog_view: Seq::empty(),
            prog_matches: Seq::empty(),
            cur_channel: None,
            ..self
        };
        if a.query.len() == 0 {
            (a, Ok(()))
        } else {
            let (b, r) = a.refresh_prog_match(found);
            match r {
                Ok(()) => (b.recompute_view(), Ok(())),
                Err(e) => (b, Err(e)),
            }
        }
    }

    /// Recomputes the schedule on the schedule screen, the list elsewhere.
    pub open spec fn update_search_preview(self) -> AppView {
        if self.mode == Mode::Programmes {
            self.recompute_prog_view()
        } else {
            self.recompute_view()
        }
    }

    /// Replaces the channels with `loaded` (as the cache lists them), sorts
    /// them and recomputes the list; a failure changes nothing.
    pub open spec fn reload_channels(self, loaded: Result<Seq<ChannelRow>, Seq<char>>) -> (
        AppView,
        Result<(), Seq<char>>,
    ) {
        match loaded {
            Err(e) => (self, Err(e)),
            Ok(cs) => (AppView { channels: cs, ..self }.apply_sort().recompute_view(), Ok(())),
        }
    }

    /// The now/next answer for a channel: the cached one if there is one,
    /// else `fetched`, which is then cached.
    pub open spec fn now_next(self, id: Seq<char>, key: String, fetched: NowNext) -> (AppView, NowNext) {
        match cache_lookup(self.now_cache, id) {
            Some(v) => (self, v),
            None => (
                AppView { now_cache: self.now_cache.push((key, fetched.0, fetched.1)), ..self },
                fetched,
            ),
        }
    }
}

/// The outcome of loading programmes, as sequences.
pub open spec fn spec_loaded(loaded: Result<Vec<ProgrammeRow>, String>) -> Result<Seq<ProgrammeRow>, Seq<char>> {
    match loaded {
        Ok(v) => Ok(v@),
        Err(e) => Err(e@),
    }
}

/// The outcome of loading channels, as sequences.
pub open spec fn spec_loaded_channels(loaded: Result<Vec<ChannelRow>, String>) -> Result<Seq<ChannelRow>, Seq<char>> {
    match loaded {
        Ok(v) => Ok(v@),
        Err(e) => Err(e@),
    }
}

/// An outcome of the library, as a sequence-valued result.
pub open spec fn spec_outcome(r: Result<(), String>) -> Result<(), Seq<char>> {
    match r {
        Ok(()) => Ok(()),
        Err(e) => Err(e@),
    }
}

/// Opening a programme and closing it again returns to the schedule with no
/// programme open; opening starts at the top of the description.
pub proof fn lemma_open_close_detail(v: AppView)
    requires
        v.prog_view.len() > 0,
        v.prog_selected < v.prog_view.len(),
    ensures
        v.open_detail().mode == Mode::Detail,
        v.open_detail().detail_scroll == 0,
        v.open_detail().detail == Some(v.programmes[v.prog_view[v.prog_selected as int] as int]),
        v.open_detail().close_detail().mode == Mode::Programmes,
        v.open_detail().close_detail().detail is None,
        v.open_detail().close_detail().prog_view == v.prog_view,
        v.open_detail().close_detail().prog_selected == v.prog_selected,
{
}

/// Once a channel's now/next answer has been given, asking again gives the
/// same answer from the cache, whatever is fetched the second time.
pub proof fn lemma_now_next_cached(v: AppView, key: String, fetched: NowNext, again: NowNext)
    ensures
        ({
            let (w, first) = v.now_next(key@, key, fetched);
            let (x, second) = w.now_next(key@, key, again);
            &&& second == first
            &&& x == w
            &&& cache_lookup(w.now_cache, key@) == Some(first)
        }),
{
    let (w, first) = v.now_next(key@, key, fetched);
    match cache_lookup(v.now_cache, key@) {
        Some(_) => {},
        None => {
            let c = w.now_cache;
            let i = v.now_cache.len() as int;
            assert(!exists|j: int| cache_first(v.now_cache, key@, j));
            assert forall|j: int| 0 <= j < i implies (#[trigger] c[j]).0@ != key@ by {
                assert(c[j] == v.now_cache[j]);
                if v.now_cache[j].0@ == key@ {
                    lemma_cache_has_first(v.now_cache, key@, j);
                }
            }
            assert(cache_first(c, key@, i));
            let k = choose|k: int| cache_first(c, key@, k);
            lemma_cache_first_unique(c, key@, i, k);
        },
    }
}

fn prog_hit_exec(p: &ProgrammeRow, lq: &Vec<char>) -> (r: bool)
    ensures
        r == prog_hit(*p, lq@),
{
    let t = to_lower(p.title.as_str());
    let tc = chars_of(t.as_str());
    if contains_chars(&tc, lq) {
        return true;
    }
    let d = to_lower(p.desc.as_str());
    let dc = chars_of(d.as_str());
    contains_chars(&dc, lq)
}

fn prog_rows_exec(ps: &Vec<ProgrammeRow>, lq: &Vec<char>) -> (v: Vec<usize>)
    ensures
        v@ == prog_rows(ps@, lq@, ps@.len()),
{
    let mut v: Vec<usize> = Vec::new();
    let mut i: usize = 0;
    while i < ps.len()
        invariant
            i <= ps@.len(),
            v@ == prog_rows(ps@, lq@, i as nat),
        decreases ps.len() - i,
    {
        if prog_hit_exec(&ps[i], lq) {
            v.push(i);
        }
        i = i + 1;
    }
    v
}

fn prog_positions_exec(ps: &Vec<ProgrammeRow>, pv: &Vec<usize>, lq: &Vec<char>) -> (v: Vec<usize>)
    requires
        all_below(pv@, ps@.len()),
    ensures
        v@ == prog_positions(ps@, pv@, lq@, pv@.len()),
{
    let mut v: Vec<usize> = Vec::new();
    let mut i: usize = 0;
    while i < pv.len()
        invariant
            i <= pv@.len(),
            all_below(pv@, ps@.len()),
            v@ == prog_positions(ps@, pv@, lq@, i as nat),
        decreases pv.len() - i,
    {
        if prog_hit_exec(&ps[pv[i]], lq) {
            v.push(i);
        }
        i = i + 1;
    }
    v
}

impl App {
    /// Recomputes the listed programmes and their matches, then keeps the
    /// schedule's selection on a listed programme and in the window.
    pub fn recompute_prog_view(&mut self)
        ensures
            final(self)@ == old(self)@.recompute_prog_view(),
            final(self)@.prog_view_valid(),
            final(self)@.prog_selection_visible(),
    {
        let lq = lowered_chars(&self.query);
        if self.filter_only && !self.query.as_str().is_empty() {
            self.prog_view = prog_rows_exec(&self.programmes, &lq);
            proof {
                assert(self.programmes@.len() == self.programmes.len());
                lemma_prog_rows_bounds(self.programmes@, lq@, self.programmes@.len());
            }
        } else {
            self.prog_view = crate::app::all_indices(self.programmes.len());
        }
        if self.query.as_str().is_empty() {
            self.prog_matches = Vec::new();
        } else {
            self.prog_matches = prog_positions_exec(&self.programmes, &self.prog_view, &lq);
        }
        if self.prog_selected >= self.prog_view.len() {
            self.prog_selected = if self.prog_view.len() == 0 {
                0
            } else {
                self.prog_view.len() - 1
            };
        }
        self.clamp_prog_scroll();
    }

    fn find_airing(&self) -> (r: Option<usize>)
        requires
            self@.prog_view_valid(),
        ensures
            r matches Some(k) ==> first_airing(self.programmes@, self.prog_view@, self.now, self.prog_view@.len()) == Some(k as nat),
            r is None ==> first_airing(self.programmes@, self.prog_view@, self.now, self.prog_view@.len()) is None,
    {
        let mut i: usize = 0;
        while i < self.prog_view.len()
            invariant
                i <= self.prog_view@.len(),
                self@.prog_view_valid(),
                first_airing(self.programmes@, self.prog_view@, self.now, i as nat) is None,
            decreases self.prog_view.len() - i,
        {
            let p = &self.programmes[self.prog_view[i]];
            if p.start_ts <= self.now && p.stop_ts > self.now {
                proof {
                    assert(first_airing(self.programmes@, self.prog_view@, self.now, (i + 1) as nat) == Some(i as nat));
                    lemma_first_prefix_airing(self.programmes@, self.prog_view@, self.now, (i + 1) as nat, self.prog_view@.len());
                }
                return Some(i);
            }
            i = i + 1;
        }
        None
    }

    fn find_upcoming(&self) -> (r: Option<usize>)
        requires
            self@.prog_view_valid(),
        ensures
            r matches Some(k) ==> first_upcoming(self.programmes@, self.prog_view@, self.now, self.prog_view@.len()) == Some(k as nat),
            r is None ==> first_upcoming(self.programmes@, self.prog_view@, self.now, self.prog_view@.len()) is None,
    {
        let mut i: usize = 0;
        while i < self.prog_view.len()
            invariant
                i <= self.prog_view@.len(),
                self@.prog_view_valid(),
                first_upcoming(self.programmes@, self.prog_view@, self.now, i as nat) is None,
            decreases self.prog_view.len() - i,
        {
            if self.programmes[self.prog_view[i]].start_ts > self.now {
                proof {
                    assert(first_upcoming(self.programmes@, self.prog_view@, self.now, (i + 1) as nat) == Some(i as nat));
                    lemma_first_prefix_upcoming(self.programmes@, self.prog_view@, self.now, (i + 1) as nat, self.prog_view@.len());
                }
                return Some(i);
            }
            i = i + 1;
        }
        None
    }

    /// Selects the listed programme on air now, else the next to start.
    pub fn jump_to_now_programme(&mut self)
        requires
            old(self)@.prog_view_valid(),
        ensures
            final(self)@ == old(self)@.jump_to_now(),
    {
        let mut best = self.find_airing();
        if best.is_none() {
            best = self.find_upcoming();
        }
        if let Some(vi) = best {
            self.prog_selected = vi;
            self.clamp_prog_scroll();
        }
    }

    /// Opens the detail of the selected programme.
    pub fn open_detail(&mut self)
        requires
            old(self)@.prog_view_valid(),
        ensures
            final(self)@ == old(self)@.open_detail(),
    {
        if self.prog_view.len() == 0 || self.prog_selected >= self.prog_view.len() {
            return;
        }
        let pi = self.prog_view[self.prog_selected];
        self.detail = Some(self.programmes[pi].clone());
        self.detail_scroll = 0;
        self.mode = Mode::Detail;
    }

    /// Returns from the detail to the schedule.
    pub fn close_detail(&mut self)
        ensures
            final(self)@ == old(self)@.close_detail(),
    {
        self.mode = Mode::Programmes;
        self.detail = None;
    }

    /// Leaves the schedule for the channel list; `found` is what the cache
    /// reported for a programme search with the current query across all
    /// channels (consulted only for a query that is not blank).
    pub fn close_programmes(&mut self, found: Result<Vec<(String, i64)>, String>) -> (r: Result<(), String>)
        ensures
            ({
                let (v, res) = old(self)@.close_programmes(spec_found(found));
                final(self)@ == v && spec_outcome(r) == res
            }),
    {
        self.mode = Mode::Channels;
        self.programmes = Vec::new();
        self.prog_view = Vec::new();
        self.prog_matches = Vec::new();
        self.cur_channel = None;
        if !self.query.as_str().is_empty() {
            match self.refresh_prog_match(found) {
                Ok(()) => {},
                Err(e) => {
                    return Err(e);
                },
            }
            self.recompute_view();
        }
        Ok(())
    }

    /// Opens the selected channel's schedule; `loaded` is what the cache
    /// returned for that channel (consulted only when a row is selected).
    pub fn open_channel(&mut self, loaded: Result<Vec<ProgrammeRow>, String>) -> (r: Result<(), String>)
        requires
            old(self)@.view_valid(),
        ensures
            ({
                let (v, res) = old(self)@.open_channel(spec_loaded(loaded));
                final(self)@ == v && spec_outcome(r) == res
            }),
    {
        if self.view.len() == 0 || self.selected >= self.view.len() {
            return Ok(());
        }
        let ci = self.view[self.selected];
        let ch = self.channels[ci].clone();
        match loaded {
            Err(e) => {
                return Err(e);
            },
            Ok(ps) => {
                self.programmes = ps;
            },
        }
        self.cur_channel = Some(ch);
        self.recompute_prog_view();
        self.jump_to_now_programme();
        self.mode = Mode::Programmes;
        Ok(())
    }

    /// Recomputes what the search shows on the current screen.
    pub fn update_search_preview(&mut self)
        ensures
            final(self)@ == old(self)@.update_search_preview(),
    {
        if self.mode == Mode::Programmes {
            self.recompute_prog_view();
        } else {
            self.recompute_view();
        }
    }

    /// Replaces the channels with `loaded`, what the cache lists now.
    pub fn reload_channels(&mut self, loaded: Result<Vec<ChannelRow>, String>) -> (r: Result<(), String>)
        ensures
            ({
                let (v, res) = old(self)@.reload_channels(spec_loaded_channels(loaded));
                final(self)@ == v && spec_outcome(r) == res
            }),
    {
        match loaded {
            Err(e) => Err(e),
            Ok(cs) => {
                self.channels = cs;
                self.apply_sort();
                self.recompute_view();
                Ok(())
            },
        }
    }

    /// The clock has moved on: takes its new reading and forgets the cached
    /// now/next answers, so that the on-air markers are looked up again.
    pub fn tick(&mut self, now: i64)
        ensures
            final(self)@ == (AppView { now, now_cache: Seq::empty(), ..old(self)@ }),
    {
        self.now = now;
        self.now_cache = Vec::new();
    }

    /// The cached now/next answer for a channel, if any.
    pub fn cached_now_next(&self, channel_id: &str) -> (r: Option<NowNext>)
        ensures
            r == cache_lookup(self.now_cache@, channel_id@),
    {
        let mut i: usize = 0;
        while i < self.now_cache.len()
            invariant
                i <= self.now_cache@.len(),
                forall|j: int| 0 <= j < i ==> (#[trigger] self.now_cache@[j]).0@ != channel_id@,
            decreases self.now_cache.len() - i,
        {
            if text_eq(self.now_cache[i].0.as_str(), channel_id) {
                proof {
                    assert(cache_first(self.now_cache@, channel_id@, i as int));
                    let k = choose|k: int| cache_first(self.now_cache@, channel_id@, k);
                    lemma_cache_first_unique(self.now_cache@, channel_id@, i as int, k);
                }
                return Some((copy_programme(&self.now_cache[i].1), copy_programme(&self.now_cache[i].2)));
            }
            i = i + 1;
        }
        None
    }

    /// The programme on air and the next one for a channel: from the cache
    /// when it has them, else `fetched` (what the guide's cache returned at
    /// `now`), which is remembered for the next call.
    pub fn now_next(&mut self, channel_id: &String, fetched: NowNext) -> (r: NowNext)
        ensures
            ({
                let (v, res) = old(self)@.now_next(channel_id@, *channel_id, fetched);
                final(self)@ == v && r == res
            }),
    {
        match self.cached_now_next(channel_id.as_str()) {
            Some(v) => v,
            None => {
                let entry = (channel_id.clone(), copy_programme(&fetched.0), copy_programme(&fetched.1));
                self.now_cache.push(entry);
                fetched
            },
        }
    }
}

proof fn lemma_first_prefix_airing(ps: Seq<ProgrammeRow>, pv: Seq<usize>, now: i64, m: nat, n: nat)
    requires
        m <= n,
        first_airing(ps, pv, now, m) is Some,
    ensures
        first_airing(ps, pv, now, n) == first_airing(ps, pv, now, m),
    decreases n - m,
{
    if n > m {
        lemma_first_prefix_airing(ps, pv, now, m, (n - 1) as nat);
    }
}

proof fn lemma_first_prefix_upcoming(ps: Seq<ProgrammeRow>, pv: Seq<usize>, now: i64, m: nat, n: nat)
    requires
        m <= n,
        first_upcoming(ps, pv, now, m) is Some,
    ensures
        first_upcoming(ps, pv, now, n) == first_upcoming(ps, pv, now, m),
    decreases n - m,
{
    if n > m {
        lemma_first_prefix_upcoming(ps, pv, now, m, (n - 1) as nat);
    }
}

/// With filter mode on and a query, a schedule lists exactly the
/// programmes whose title or description contains the query (ignoring
/// case); with filter mode off it lists them all.
pub proof fn lemma_schedule_filter_lists_exactly_the_matches(v: AppView)
    requires
        v.programmes.len() <= usize::MAX,
    ensures
        v.filter_only && v.query.len() > 0 ==> forall|i: int|
            0 <= i < v.programmes.len() ==> (prog_hit(#[trigger] v.programmes[i], lower(v.query))
                <==> v.recompute_prog_view().prog_view.contains(i as usize)),
        !(v.filter_only && v.query.len() > 0) ==> v.recompute_prog_view().prog_view == Seq::new(
            v.programmes.len(),
            |i: int| i as usize,
        ),
{
    assert(v.recompute_prog_view().prog_view == v.listed_programmes());
    if v.filter_only && v.query.len() > 0 {
        lemma_prog_rows_bounds(v.programmes, lower(v.query), v.programmes.len());
    }
}

/// With a query, the matches that `n`/`N` step through on a schedule are,
/// in order, exactly the positions of the listed programmes whose
/// lowercased title or description contains the lowercased query; without a
/// query there are none.
pub proof fn lemma_schedule_matches_are_the_matching_programmes(v: AppView)
    requires
        v.programmes.len() <= usize::MAX,
    ensures
        ({
            let w = v.recompute_prog_view();
            &&& v.query.len() > 0 ==> {
                &&& crate::search::increasing(w.prog_matches)
                &&& all_below(w.prog_matches, w.prog_view.len())
                &&& forall|i: int|
                    0 <= i < w.prog_view.len() ==> ((contains(
                        lower(w.programmes[#[trigger] w.prog_view[i] as int].title@),
                        lower(v.query),
                    ) || contains(lower(w.programmes[w.prog_view[i] as int].desc@), lower(v.query)))
                        <==> w.prog_matches.contains(i as usize))
            }
            &&& v.query.len() == 0 ==> w.prog_matches.len() == 0
        }),
{
    let a = AppView { prog_view: v.listed_programmes(), ..v };
    if v.filter_only && v.query.len() > 0 {
        lemma_prog_rows_bounds(v.programmes, lower(v.query), v.programmes.len());
    }
    assert(a.prog_view.len() <= usize::MAX);
    if v.query.len() > 0 {
        lemma_prog_positions_bounds(a.programmes, a.prog_view, lower(a.query), a.prog_view.len());
    }
    assert(v.recompute_prog_view().prog_matches == a.programme_matches());
    assert(v.recompute_prog_view().prog_view == a.prog_view);
}

/// Leaving a schedule with a query goes back to the channel list, and when
/// the search of the cache did not fail, the list's matches are, in list
/// order, exactly the listed rows whose channel's lowercased name contains
/// the lowercased query or which the refreshed table of matching programmes
/// names; with filter mode on, exactly those channels are listed. A search
/// that reported its pairs does not fail.
pub proof fn lemma_leaving_schedule_marks_matching_channels(
    v: AppView,
    found: Result<Seq<(String, i64)>, Seq<char>>,
)
    requires
        v.channels.len() <= usize::MAX,
        v.query.len() > 0,
    ensures
        ({
            let (w, res) = v.close_programmes(found);
            &&& w.mode == Mode::Channels
            &&& w.query == v.query && w.channels == v.channels
            &&& found is Ok ==> res is Ok
            &&& res is Ok ==> {
                &&& crate::search::increasing(w.matches)
                &&& forall|i: int|
                    0 <= i < w.view.len() ==> ((contains(
                        lower(w.channels[#[trigger] w.view[i] as int].display_name@),
                        lower(v.query),
                    ) || crate::search::has_key(w.prog_match, w.channels[w.view[i] as int].channel_id@))
                        <==> w.matches.contains(i as usize))
                &&& w.filter_only ==> forall|j: int|
                    0 <= j < w.channels.len() ==> ((contains(
                        lower(#[trigger] w.channels[j].display_name@),
                        lower(v.query),
                    ) || crate::search::has_key(w.prog_match, w.channels[j].channel_id@))
                        <==> w.view.contains(j as usize))
            }
        }),
{
    let a = AppView {
        mode: Mode::Channels,
        programmes: Seq::empty(),
        prog_view: Seq::empty(),
        prog_matches: Seq::empty(),
        cur_channel: None,
        ..v
    };
    let (b, r) = a.refresh_prog_match(found);
    assert(b.channels == v.channels && b.query == v.query && b.mode == Mode::Channels);
    if r is Ok {
        assert(v.close_programmes(found).0 == b.recompute_view());
        crate::search::lemma_matches_are_the_matching_rows(b);
        crate::search::lemma_filter_lists_exactly_the_matches(b);
    } else {
        assert(v.close_programmes(found).0 == b);
    }
}

/// `t` (and opening a schedule) selects the first listed programme on air
/// at `now`; failing that, the first that starts after `now`; failing that,
/// the selection stays. A new selection lies in the window; the schedule
/// itself does not change.
pub proof fn lemma_jump_to_now_selects_on_air_else_next(v: AppView)
    requires
        v.prog_view_valid(),
        v.prog_view.len() <= usize::MAX,
        v.viewport >= 1,
    ensures
        ({
            let w = v.jump_to_now();
            let ps = v.programmes;
            let pv = v.prog_view;
            &&& w.programmes == ps && w.prog_view == pv
            &&& (exists|i: int| 0 <= i < pv.len() && is_airing(ps[pv[i] as int], v.now)) ==> {
                &&& w.prog_selected < pv.len()
                &&& is_airing(ps[pv[w.prog_selected as int] as int], v.now)
                &&& forall|j: int| 0 <= j < w.prog_selected ==> !is_airing(ps[pv[j] as int], v.now)
                &&& w.prog_offset <= w.prog_selected < w.prog_offset + w.viewport
            }
            &&& (forall|i: int| 0 <= i < pv.len() ==> !is_airing(ps[pv[i] as int], v.now)) && (
            exists|i: int| 0 <= i < pv.len() && is_upcoming(ps[pv[i] as int], v.now)) ==> {
                &&& w.prog_selected < pv.len()
                &&& is_upcoming(ps[pv[w.prog_selected as int] as int], v.now)
                &&& forall|j: int| 0 <= j < w.prog_selected ==> !is_upcoming(ps[pv[j] as int], v.now)
                &&& w.prog_offset <= w.prog_selected < w.prog_offset + w.viewport
            }
            &&& (forall|i: int| 0 <= i < pv.len() ==> !is_airing(ps[pv[i] as int], v.now)) && (
            forall|i: int| 0 <= i < pv.len() ==> !is_upcoming(ps[pv[i] as int], v.now)) ==> w == v
        }),
{
    let n = v.prog_view.len();
    lemma_first_airing(v.programmes, v.prog_view, v.now, n);
    let best = match first_airing(v.programmes, v.prog_view, v.now, n) {
        Some(k) => Some(k),
        None => first_upcoming(v.programmes, v.prog_view, v.now, n),
    };
    match best {
        Some(k) => {
            let a = AppView { prog_selected: k as usize, ..v };
            crate::app::lemma_clamp_window(a.prog_selected, a.prog_offset, n, a.viewport);
            assert(v.jump_to_now() == a.clamp_prog_scroll());
            assert(a.clamp_prog_scroll().prog_selected == k);
        },
        None => {},
    }
}

} // verus!
