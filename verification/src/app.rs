//! The viewer's state: which screen is showing, the channel list and the
//! open schedule with their selections and scroll windows, the search, and
//! the now/next cache. Every operation is a transition of the model
//! `AppView`, and each method's contract names the transition it performs.
use vstd::prelude::*;

use crate::guide::{ChannelRow, ProgrammeRow};
use crate::text::{append, digit_char};
use chrono::TimeZone;

verus! {

/// The screen that is showing.
#[derive(Debug, Clone, Copy, PartialEq, Eq, Structural)]
pub enum Mode {
    Channels,
    Programmes,
    Detail,
    Help,
}

/// How the channel list is ordered.
#[derive(Debug, Clone, Copy, PartialEq, Eq, Structural)]
pub enum SortMode {
    Name,
    Count,
}

/// Whether keys go to the search prompt or to the screen.
#[derive(Debug, Clone, Copy, PartialEq, Eq, Structural)]
pub enum InputMode {
    Normal,
    Search,
}

/// A cached now/next answer for one channel.
pub type NowNext = (Option<ProgrammeRow>, Option<ProgrammeRow>);

/// The whole state of the viewer.
pub struct App {
    pub mode: Mode,
    pub prev_mode: Mode,
    pub input: InputMode,
    pub channels: Vec<ChannelRow>,
    /// Indices into `channels` of the rows that are listed, in order.
    pub view: Vec<usize>,
    /// Position in `view` of the highlighted row.
    pub selected: usize,
    /// Position in `view` of the first row on screen.
    pub offset: usize,
    pub query: String,
    /// Positions in `view` of the rows that match the query.
    pub matches: Vec<usize>,
    pub match_pos: usize,
    pub filter_only: bool,
    /// Channel id and number of its current/next programmes that match the
    /// query; each channel id occurs once.
    pub prog_match: Vec<(String, i64)>,
    pub programmes: Vec<ProgrammeRow>,
    /// Indices into `programmes` of the programmes that are listed.
    pub prog_view: Vec<usize>,
    pub prog_selected: usize,
    pub prog_offset: usize,
    pub prog_matches: Vec<usize>,
    pub prog_match_pos: usize,
    pub detail: Option<ProgrammeRow>,
    pub detail_scroll: usize,
    /// Channel whose schedule is open.
    pub cur_channel: Option<ChannelRow>,
    /// Channel id and its now/next programmes, looked up at `now`.
    pub now_cache: Vec<(String, Option<ProgrammeRow>, Option<ProgrammeRow>)>,
    pub now: i64,
    pub sort: SortMode,
    pub source_url: String,
    pub status: String,
    pub quit: bool,
    pub pending_g: bool,
    pub viewport: usize,
}

/// The model of `App`: its fields, with strings and vectors as sequences.
#[verifier::ext_equal]
pub struct AppView {
    pub mode: Mode,
    pub prev_mode: Mode,
    pub input: InputMode,
    pub channels: Seq<ChannelRow>,
    pub view: Seq<usize>,
    pub selected: usize,
    pub offset: usize,
    pub query: Seq<char>,
    pub matches: Seq<usize>,
    pub match_pos: usize,
    pub filter_only: bool,
    pub prog_match: Seq<(String, i64)>,
    pub programmes: Seq<ProgrammeRow>,
    pub prog_view: Seq<usize>,
    pub prog_selected: usize,
    pub prog_offset: usize,
    pub prog_matches: Seq<usize>,
    pub prog_match_pos: usize,
    pub detail: Option<ProgrammeRow>,
    pub detail_scroll: usize,
    pub cur_channel: Option<ChannelRow>,
    pub now_cache: Seq<(String, Option<ProgrammeRow>, Option<ProgrammeRow>)>,
    pub now: i64,
    pub sort: SortMode,
    pub source_url: Seq<char>,
    pub status: Seq<char>,
    pub quit: bool,
    pub pending_g: bool,
    pub viewport: usize,
}

impl View for App {
    type V = AppView;

    open spec fn view(&self) -> AppView {
        AppView {
            mode: self.mode,
            prev_mode: self.prev_mode,
            input: self.input,
            channels: self.channels@,
            view: self.view@,
            selected: self.selected,
            offset: self.offset,
            query: self.query@,
            matches: self.matches@,
            match_pos: self.match_pos,
            filter_only: self.filter_only,
            prog_match: self.prog_match@,
            programmes: self.programmes@,
            prog_view: self.prog_view@,
            prog_selected: self.prog_selected,
            prog_offset: self.prog_offset,
            prog_matches: self.prog_matches@,
            prog_match_pos: self.prog_match_pos,
            detail: self.detail,
            detail_scroll: self.detail_scroll,
            cur_channel: self.cur_channel,
            now_cache: self.now_cache@,
            now: self.now,
            sort: self.sort,
            source_url: self.source_url@,
            status: self.status@,
            quit: self.quit,
            pending_g: self.pending_g,
            viewport: self.viewport,
        }
    }
}

// ---------------------------------------------------------------------------
// Scroll windows
// ---------------------------------------------------------------------------

/// `n - 1`, or 0 when `n` is 0.
pub open spec fn last_index(n: nat) -> usize {
    if n == 0 {
        0
    } else {
        (n - 1) as usize
    }
}

/// The selection and window offset after making the selection valid for a
/// list of `len` rows and visible in a window of `h` rows: the selection is
/// cut to the last row, the window moves just enough to show it, and the
/// window never starts past the last full screen.
pub open spec fn clamp_window(sel: usize, off: usize, len: nat, h: usize) -> (usize, usize) {
    if len == 0 {
        (0, 0)
    } else {
        let s = if sel >= len {
            (len - 1) as usize
        } else {
            sel
        };
        let o = if s < off {
            s
        } else if s - off >= h {
            (s - h + 1) as usize
        } else {
            off
        };
        let max_off = if len >= h {
            (len - h) as usize
        } else {
            0usize
        };
        (s, if o > max_off {
            max_off
        } else {
            o
        })
    }
}

/// The row reached by moving `delta` rows from `sel` in a list of `len` rows,
/// stopping at the first and last rows.
pub open spec fn step_sel(sel: usize, delta: int, len: nat) -> usize {
    let t = sel + delta;
    let n = if t < 0 {
        0
    } else {
        t
    };
    if n > len - 1 {
        (len - 1) as usize
    } else {
        n as usize
    }
}

/// The number of rows one page moves: the window height, or half of it, and
/// at least one.
pub open spec fn page_step(viewport: usize, half: bool) -> int {
    let s = if half {
        viewport as int / 2
    } else {
        viewport as int
    };
    if s < 1 {
        1
    } else {
        s
    }
}

/// After clamping, the selection is a row of the list and the window shows
/// it; the window also starts no later than the last full screen.
pub proof fn lemma_clamp_window(sel: usize, off: usize, len: nat, h: usize)
    requires
        0 < len <= usize::MAX,
    ensures
        ({
            let (s, o) = clamp_window(sel, off, len, h);
            &&& s < len
            &&& h >= 1 ==> o <= s
            &&& h >= 1 ==> s < o + h
            &&& o + h <= len || o == 0
        }),
{
    let s = if sel >= len {
        (len - 1) as usize
    } else {
        sel
    };
    let o = if s < off {
        s
    } else if s - off >= h {
        (s - h + 1) as usize
    } else {
        off
    };
    let max_off = if len >= h {
        (len - h) as usize
    } else {
        0usize
    };
    let o2 = if o > max_off {
        max_off
    } else {
        o
    };
    assert(clamp_window(sel, off, len, h) == (s, o2));
    assert(o2 + h <= len || o2 == 0);
    if h >= 1 {
        assert(o <= s);
        assert(s < o + h);
        assert(o2 <= s);
        assert(s < o2 + h);
    }
}

impl AppView {
    /// The channel list's selection and window made consistent.
    pub open spec fn clamp_scroll(self) -> AppView {
        let (s, o) = clamp_window(self.selected, self.offset, self.view.len(), self.viewport);
        AppView { selected: s, offset: o, ..self }
    }

    /// The schedule's selection and window made consistent.
    pub open spec fn clamp_prog_scroll(self) -> AppView {
        let (s, o) = clamp_window(
            self.prog_selected,
            self.prog_offset,
            self.prog_view.len(),
            self.viewport,
        );
        AppView { prog_selected: s, prog_offset: o, ..self }
    }

    pub open spec fn set_viewport(self, h: usize) -> AppView {
        AppView {
            viewport: if h < 1 {
                1
            } else {
                h
            },
            ..self
        }.clamp_scroll().clamp_prog_scroll()
    }

    pub open spec fn move_sel(self, delta: int) -> AppView {
        if self.view.len() == 0 {
            self
        } else {
            AppView {
                selected: step_sel(self.selected, delta, self.view.len()),
                ..self
            }.clamp_scroll()
        }
    }

    pub open spec fn page(self, pages: int, half: bool) -> AppView {
        self.move_sel(page_step(self.viewport, half) * pages)
    }

    pub open spec fn goto(self, idx: usize) -> AppView {
        let last = last_index(self.view.len());
        AppView {
            selected: if idx < last {
                idx
            } else {
                last
            },
            ..self
        }.clamp_scroll()
    }

    pub open spec fn move_prog(self, delta: int) -> AppView {
        if self.prog_view.len() == 0 {
            self
        } else {
            AppView {
                prog_selected: step_sel(self.prog_selected, delta, self.prog_view.len()),
                ..self
            }.clamp_prog_scroll()
        }
    }

    pub open spec fn prog_page(self, pages: int, half: bool) -> AppView {
        self.move_prog(page_step(self.viewport, half) * pages)
    }

    pub open spec fn prog_goto(self, idx: usize) -> AppView {
        let last = last_index(self.prog_view.len());
        AppView {
            prog_selected: if idx < last {
                idx
            } else {
                last
            },
            ..self
        }.clamp_prog_scroll()
    }

    /// The channel list's selection is a listed row and lies in the window.
    pub open spec fn selection_visible(self) -> bool {
        self.view.len() > 0 ==> {
            &&& self.selected < self.view.len()
            &&& self.viewport >= 1 ==> self.offset <= self.selected
            &&& self.viewport >= 1 ==> self.selected < self.offset + self.viewport
        }
    }

    /// The schedule's selection is a listed programme and lies in the window.
    pub open spec fn prog_selection_visible(self) -> bool {
        self.prog_view.len() > 0 ==> {
            &&& self.prog_selected < self.prog_view.len()
            &&& self.viewport >= 1 ==> self.prog_offset <= self.prog_selected
            &&& self.viewport >= 1 ==> self.prog_selected < self.prog_offset + self.viewport
        }
    }
}

/// Whatever the selection and window were, after a move, a page, a jump or a
/// clamp the highlighted channel is a listed row and is on screen; the same
/// holds for the open schedule.
pub proof fn lemma_navigation_keeps_selection_visible(v: AppView, delta: int, idx: usize)
    requires
        v.view.len() <= usize::MAX,
        v.prog_view.len() <= usize::MAX,
    ensures
        v.clamp_scroll().selection_visible(),
        v.move_sel(delta).selection_visible() || v.view.len() == 0,
        v.goto(idx).selection_visible(),
        v.clamp_prog_scroll().prog_selection_visible(),
        v.move_prog(delta).prog_selection_visible() || v.prog_view.len() == 0,
        v.prog_goto(idx).prog_selection_visible(),
{
    if v.view.len() > 0 {
        lemma_clamp_window(v.selected, v.offset, v.view.len(), v.viewport);
        let w = AppView { selected: step_sel(v.selected, delta, v.view.len()), ..v };
        lemma_clamp_window(w.selected, w.offset, w.view.len(), w.viewport);
        let last = last_index(v.view.len());
        let g = AppView { selected: if idx < last { idx } else { last }, ..v };
        lemma_clamp_window(g.selected, g.offset, g.view.len(), g.viewport);
    }
    if v.prog_view.len() > 0 {
        lemma_clamp_window(v.prog_selected, v.prog_offset, v.prog_view.len(), v.viewport);
        let w = AppView {
            prog_selected: step_sel(v.prog_selected, delta, v.prog_view.len()),
            ..v
        };
        lemma_clamp_window(w.prog_selected, w.prog_offset, w.prog_view.len(), w.viewport);
        let last = last_index(v.prog_view.len());
        let g = AppView { prog_selected: if idx < last { idx } else { last }, ..v };
        lemma_clamp_window(g.prog_selected, g.prog_offset, g.prog_view.len(), g.viewport);
    }
}

fn clamp_window_exec(sel: usize, off: usize, len: usize, h: usize) -> (r: (usize, usize))
    ensures
        r == clamp_window(sel, off, len as nat, h),
{
    if len == 0 {
        return (0, 0);
    }
    let s = if sel >= len {
        len - 1
    } else {
        sel
    };
    let o = if s < off {
        s
    } else if s - off >= h {
        s - h + 1
    } else {
        off
    };
    let max_off = if len >= h {
        len - h
    } else {
        0
    };
    (s, if o > max_off {
        max_off
    } else {
        o
    })
}

fn step_sel_exec(sel: usize, delta: isize, len: usize) -> (r: usize)
    requires
        len > 0,
        sel <= isize::MAX,
        isize::MIN <= sel + delta <= isize::MAX,
    ensures
        r == step_sel(sel, delta as int, len as nat),
{
    let t = (sel as isize + delta);
    let n: usize = if t < 0 {
        0
    } else {
        t as usize
    };
    if n > len - 1 {
        len - 1
    } else {
        n
    }
}

impl App {
    /// A viewer over `channels` (in the order the cache lists them), on the
    /// channel list, with nothing searched and a 40-row window.
    pub fn new(channels: Vec<ChannelRow>, source_url: String, now: i64) -> (app: App)
        ensures
            app@.mode == Mode::Channels,
            app@.prev_mode == Mode::Channels,
            app@.input == InputMode::Normal,
            app@.channels == channels@,
            app@.view == Seq::new(channels@.len(), |i: int| i as usize),
            app@.selected == 0 && app@.offset == 0,
            app@.query.len() == 0,
            app@.matches.len() == 0 && app@.match_pos == 0,
            !app@.filter_only,
            app@.prog_match.len() == 0,
            app@.programmes.len() == 0 && app@.prog_view.len() == 0,
            app@.prog_selected == 0 && app@.prog_offset == 0,
            app@.prog_matches.len() == 0 && app@.prog_match_pos == 0,
            app@.detail is None && app@.detail_scroll == 0,
            app@.cur_channel is None,
            app@.now_cache.len() == 0,
            app@.now == now,
            app@.sort == SortMode::Name,
            app@.source_url == source_url@,
            app@.status.len() == 0,
            !app@.quit && !app@.pending_g,
            app@.viewport == 40,
    {
        let view = all_indices(channels.len());
        App {
            mode: Mode::Channels,
            prev_mode: Mode::Channels,
            input: InputMode::Normal,
            channels,
            view,
            selected: 0,
            offset: 0,
            query: String::new(),
            matches: Vec::new(),
            match_pos: 0,
            filter_only: false,
            prog_match: Vec::new(),
            programmes: Vec::new(),
            prog_view: Vec::new(),
            prog_selected: 0,
            prog_offset: 0,
            prog_matches: Vec::new(),
            prog_match_pos: 0,
            detail: None,
            detail_scroll: 0,
            cur_channel: None,
            now_cache: Vec::new(),
            now,
            sort: SortMode::Name,
            source_url,
            status: String::new(),
            quit: false,
            pending_g: false,
            viewport: 40,
        }
    }

    /// Takes a new reading of the clock.
    pub fn refresh_now(&mut self, now: i64)
        ensures
            final(self)@ == (AppView { now, ..old(self)@ }),
    {
        self.now = now;
    }

    pub fn set_viewport(&mut self, h: usize)
        ensures
            final(self)@ == old(self)@.set_viewport(h),
    {
        self.viewport = if h < 1 {
            1
        } else {
            h
        };
        self.clamp_scroll();
        self.clamp_prog_scroll();
    }

    pub fn clamp_scroll(&mut self)
        ensures
            final(self)@ == old(self)@.clamp_scroll(),
            final(self)@.selection_visible(),
    {
        proof {
            assert(self.view@.len() == self.view.len() && self.prog_view@.len() == self.prog_view.len());
        }
        proof {
            lemma_navigation_keeps_selection_visible(self@, 0, 0);
        }
        let (s, o) = clamp_window_exec(self.selected, self.offset, self.view.len(), self.viewport);
        self.selected = s;
        self.offset = o;
    }

    pub fn clamp_prog_scroll(&mut self)
        ensures
            final(self)@ == old(self)@.clamp_prog_scroll(),
            final(self)@.prog_selection_visible(),
    {
        proof {
            assert(self.view@.len() == self.view.len() && self.prog_view@.len() == self.prog_view.len());
        }
        proof {
            lemma_navigation_keeps_selection_visible(self@, 0, 0);
        }
        let (s, o) = clamp_window_exec(
            self.prog_selected,
            self.prog_offset,
            self.prog_view.len(),
            self.viewport,
        );
        self.prog_selected = s;
        self.prog_offset = o;
    }

    /// Moves the channel selection by `delta` rows, stopping at the ends.
    pub fn move_sel(&mut self, delta: isize)
        requires
            old(self).selected <= isize::MAX,
            isize::MIN <= old(self).selected + delta <= isize::MAX,
        ensures
            final(self)@ == old(self)@.move_sel(delta as int),
    {
        if self.view.len() == 0 {
            return;
        }
        self.selected = step_sel_exec(self.selected, delta, self.view.len());
        self.clamp_scroll();
    }

    /// Moves the channel selection by `pages` windows, or half windows.
    pub fn page(&mut self, pages: isize, half: bool)
        requires
            old(self).viewport <= isize::MAX,
            old(self).selected <= isize::MAX,
            isize::MIN <= page_step(old(self).viewport, half) * pages <= isize::MAX,
            isize::MIN <= old(self).selected + page_step(old(self).viewport, half) * pages
                <= isize::MAX,
        ensures
            final(self)@ == old(self)@.page(pages as int, half),
    {
        let h = self.viewport as isize;
        let step = if half {
            h / 2
        } else {
            h
        };
        let step = if step < 1 {
            1
        } else {
            step
        };
        self.move_sel(step * pages);
    }

    /// Selects row `idx` of the channel list, or the last row.
    pub fn goto(&mut self, idx: usize)
        ensures
            final(self)@ == old(self)@.goto(idx),
    {
        let last = if self.view.len() == 0 {
            0
        } else {
            self.view.len() - 1
        };
        self.selected = if idx < last {
            idx
        } else {
            last
        };
        self.clamp_scroll();
    }

    /// Moves the schedule selection by `delta` rows, stopping at the ends.
    pub fn move_prog(&mut self, delta: isize)
        requires
            old(self).prog_selected <= isize::MAX,
            isize::MIN <= old(self).prog_selected + delta <= isize::MAX,
        ensures
            final(self)@ == old(self)@.move_prog(delta as int),
    {
        if self.prog_view.len() == 0 {
            return;
        }
        self.prog_selected = step_sel_exec(self.prog_selected, delta, self.prog_view.len());
        self.clamp_prog_scroll();
    }

    /// Moves the schedule selection by `pages` windows, or half windows.
    pub fn prog_page(&mut self, pages: isize, half: bool)
        requires
            old(self).viewport <= isize::MAX,
            old(self).prog_selected <= isize::MAX,
            isize::MIN <= page_step(old(self).viewport, half) * pages <= isize::MAX,
            isize::MIN <= old(self).prog_selected + page_step(old(self).viewport, half) * pages
                <= isize::MAX,
        ensures
            final(self)@ == old(self)@.prog_page(pages as int, half),
    {
        let h = self.viewport as isize;
        let step = if half {
            h / 2
        } else {
            h
        };
        let step = if step < 1 {
            1
        } else {
            step
        };
        self.move_prog(step * pages);
    }

    /// Selects programme `idx` of the schedule, or the last one.
    pub fn prog_goto(&mut self, idx: usize)
        ensures
            final(self)@ == old(self)@.prog_goto(idx),
    {
        let last = if self.prog_view.len() == 0 {
            0
        } else {
            self.prog_view.len() - 1
        };
        self.prog_selected = if idx < last {
            idx
        } else {
            last
        };
        self.clamp_prog_scroll();
    }
}

/// `[0, 1, ..., n - 1]`.
pub fn all_indices(n: usize) -> (v: Vec<usize>)
    ensures
        v@ == Seq::new(n as nat, |i: int| i as usize),
{
    let mut v: Vec<usize> = Vec::new();
    let mut i: usize = 0;
    while i < n
        invariant
            i <= n,
            v@ == Seq::new(i as nat, |k: int| k as usize),
        decreases n - i,
    {
        v.push(i);
        assert(v@ =~= Seq::new((i + 1) as nat, |k: int| k as usize));
        i = i + 1;
    }
    v
}

// ---------------------------------------------------------------------------
// Times
// ---------------------------------------------------------------------------

/// Length of a programme in whole minutes; a stop before the start counts as zero.
pub open spec fn spec_duration_mins(start: i64, stop: i64) -> int {
    if stop - start <= 0 {
        0
    } else {
        (stop - start) / 60
    }
}

/// Whole minutes between `start` and `stop`, never negative.
pub fn duration_mins(start: i64, stop: i64) -> (r: i64)
    requires
        i64::MIN <= stop - start <= i64::MAX,
    ensures
        r == spec_duration_mins(start, stop),
        r >= 0,
{
    let d = stop - start;
    if d <= 0 {
        0
    } else {
        d / 60
    }
}


/// The two decimal digits of `n` (below 100), with a leading zero.
pub open spec fn two_digits(n: nat) -> Seq<char> {
    seq![digit_char(n / 10), digit_char(n % 10)]
}

/// A wall-clock reading as the schedule shows it: `MM-DD HH:MM`.
pub open spec fn clock_text(month: nat, day: nat, hour: nat, minute: nat) -> Seq<char> {
    two_digits(month) + seq!['-'] + two_digits(day) + seq![' '] + two_digits(hour) + seq![':']
        + two_digits(minute)
}

/// A reading that a clock of this machine can give: a valid month, day,
/// hour and minute, formatted.
pub open spec fn is_clock_text(s: Seq<char>) -> bool {
    exists|month: nat, day: nat, hour: nat, minute: nat|
        1 <= month <= 12 && 1 <= day <= 31 && hour <= 23 && minute <= 59 && s == clock_text(
            month,
            day,
            hour,
            minute,
        )
}

/// The month and day of the proleptic Gregorian date that lies `days` days
/// after 1970-01-01 (the usual days-to-civil arithmetic, counting in 400-year
/// eras that begin on March 1).
pub open spec fn civil_month_day(days: int) -> (int, int) {
    let z = days + 719468;
    let era = z / 146097;
    let doe = z - era * 146097;
    let yoe = (doe - doe / 1460 + doe / 36524 - doe / 146096) / 365;
    let doy = doe - (365 * yoe + yoe / 4 - yoe / 100);
    let mp = (5 * doy + 2) / 153;
    let d = doy - (153 * mp + 2) / 5 + 1;
    let m = if mp < 10 {
        mp + 3
    } else {
        mp - 9
    };
    (m, d)
}

/// The `MM-DD HH:MM` reading of the civil date and time that is `t` seconds
/// after 1970-01-01 00:00.
pub open spec fn civil_clock(t: int) -> Seq<char> {
    let (m, d) = civil_month_day(t / 86400);
    let secs = t % 86400;
    clock_text(m as nat, d as nat, (secs / 3600) as nat, ((secs % 3600) / 60) as nat)
}

/// Unix times well inside the dates chrono can hold (it documents Jan 1,
/// 262145 BCE to Dec 31, 262143 CE): about 253,000 years either side of 1970.
pub open spec fn in_clock_range(ts: i64) -> bool {
    -8_000_000_000_000 <= ts <= 8_000_000_000_000
}

/// Calls `Local.timestamp_opt(ts, 0)` and, when it gives one local time,
/// formats it with `%m-%d %H:%M`; `None` otherwise. chrono documents that
/// `timestamp_opt` gives `None` only for an out-of-range number of seconds and
/// otherwise always a single time, and documents the four fields as
/// zero-padded two-digit numbers in the ranges 01-12, 01-31, 00-23 and 00-59.
/// chrono turns `ts` into one UTC date-time and adds the zone's offset, which
/// a `FixedOffset` keeps strictly within a day either way; so the reading is
/// the civil clock of `ts` moved by less than a day. Which offset applies
/// depends on the machine's time zone, so nothing more is stated.
#[verifier::external_body]
fn local_clock_text(ts: i64) -> (r: Option<String>)
    ensures
        r matches Some(t) ==> is_clock_text(t@),
        in_clock_range(ts) ==> r is Some,
        in_clock_range(ts) && r is Some ==> exists|u: int|
            ts - 86400 < u < ts + 86400 && r->0@ == #[trigger] civil_clock(u),
{
    match chrono::Local.timestamp_opt(ts, 0) {
        chrono::LocalResult::Single(dt) => Some(dt.format("%m-%d %H:%M").to_string()),
        chrono::LocalResult::Ambiguous(_, _) => None,
        chrono::LocalResult::None => None,
    }
}

/// A unix time as local `MM-DD HH:MM`, or nothing when it lies outside the
/// dates chrono can hold.
pub fn fmt_time(ts: i64) -> (r: String)
    ensures
        r@.len() == 0 || is_clock_text(r@),
        in_clock_range(ts) ==> is_clock_text(r@),
        in_clock_range(ts) ==> exists|u: int|
            ts - 86400 < u < ts + 86400 && r@ == #[trigger] civil_clock(u),
{
    match local_clock_text(ts) {
        Some(t) => t,
        None => String::new(),
    }
}

/// A start and stop time joined by an en dash.
pub fn fmt_range(start: i64, stop: i64) -> (r: String)
    ensures
        exists|a: Seq<char>, b: Seq<char>|
            {
                &&& a.len() == 0 || is_clock_text(a)
                &&& b.len() == 0 || is_clock_text(b)
                &&& in_clock_range(start) ==> is_clock_text(a) && exists|u: int|
                    start - 86400 < u < start + 86400 && a == #[trigger] civil_clock(u)
                &&& in_clock_range(stop) ==> is_clock_text(b) && exists|u: int|
                    stop - 86400 < u < stop + 86400 && b == #[trigger] civil_clock(u)
                &&& r@ == a + " – "@ + b
            },
{
    let mut s = fmt_time(start);
    let ghost a = s@;
    append(&mut s, " – ");
    let b = fmt_time(stop);
    append(&mut s, b.as_str());
    assert(s@ == a + " – "@ + b@);
    s
}

} // verus!
