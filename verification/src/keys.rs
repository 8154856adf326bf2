//! What each key does on each screen. A key that needs data from the cache
//! of the guide or a refresh of the source first names that work
//! (`App::request_for`); the caller performs it and hands the answer to
//! `App::handle_key` together with the key.
use vstd::prelude::*;

use crate::app::{last_index, App, AppView, InputMode, Mode, SortMode};
use crate::guide::{ChannelRow, ProgrammeRow};
use crate::schedule::{spec_loaded, spec_loaded_channels};
use crate::search::{all_below, match_of_text, next_pos, no_matches_text, spec_found};
use crate::text::{
    append, contains, decimal, decimal_string, is_blank, lower, owned, pop_char, push_char, trim,
};

verus! {

/// A key, without its modifiers.
#[derive(Debug, Clone, Copy, PartialEq, Eq, Structural)]
pub enum KeyCode {
    Char(char),
    Enter,
    Esc,
    Backspace,
    Up,
    Down,
    Left,
    Right,
    PageUp,
    PageDown,
    Other,
}

/// A key press: the key, whether Control was held, and whether no modifier
/// other than Shift was held.
#[derive(Debug, Clone, Copy, PartialEq, Eq, Structural)]
pub struct Key {
    pub code: KeyCode,
    pub ctrl: bool,
    pub plain: bool,
}

impl Key {
    /// A key pressed without modifiers.
    pub open spec fn new_spec(code: KeyCode) -> Key {
        Key { code, ctrl: false, plain: true }
    }

    /// A key pressed without modifiers.
    #[verifier::when_used_as_spec(new_spec)]
    pub fn new(code: KeyCode) -> (k: Key)
        ensures
            k == Key::new_spec(code),
    {
        Key { code, ctrl: false, plain: true }
    }

    /// A key pressed with Control.
    pub fn with_ctrl(code: KeyCode) -> (k: Key)
        ensures
            k == (Key { code, ctrl: true, plain: false }),
    {
        Key { code, ctrl: true, plain: false }
    }
}

/// The kind of outside work a key needs before it can be handled.
#[derive(Debug, Clone, Copy, PartialEq, Eq, Structural)]
pub enum RequestKind {
    Nothing,
    ProgrammeSearch,
    Schedule,
    Refresh,
}

/// Outside work a key needs: search the current/next programmes of all
/// channels for `query` at `now`; load up to `limit` programmes of a channel;
/// or download and import the guide from `url`.
#[derive(Debug)]
pub enum Request {
    Nothing,
    ProgrammeSearch { query: String, now: i64 },
    Schedule { channel_id: String, limit: i64 },
    Refresh { url: String },
}

/// The answer to a request: channel ids with their number of matching
/// programmes; a channel's programmes by start time; or, after a refresh,
/// the numbers of channels and programmes imported and the channels the
/// cache lists now. Each may be a failure with its message.
#[derive(Debug)]
pub enum Reply {
    Nothing,
    Matches(Result<Vec<(String, i64)>, String>),
    Schedule(Result<Vec<ProgrammeRow>, String>),
    Refreshed(Result<(usize, usize, Vec<ChannelRow>), String>),
}

/// The kind of a request.
pub open spec fn request_kind(r: Request) -> RequestKind {
    match r {
        Request::Nothing => RequestKind::Nothing,
        Request::ProgrammeSearch { .. } => RequestKind::ProgrammeSearch,
        Request::Schedule { .. } => RequestKind::Schedule,
        Request::Refresh { .. } => RequestKind::Refresh,
    }
}

/// The reply answers a request of this kind.
pub open spec fn reply_fits(kind: RequestKind, reply: Reply) -> bool {
    match kind {
        RequestKind::Nothing => true,
        RequestKind::ProgrammeSearch => reply is Matches,
        RequestKind::Schedule => reply is Schedule,
        RequestKind::Refresh => reply is Refreshed,
    }
}

/// The search result a reply carries (none found if it carries none).
pub open spec fn reply_matches(reply: Reply) -> Result<Seq<(String, i64)>, Seq<char>> {
    match reply {
        Reply::Matches(r) => spec_found(r),
        _ => Ok(Seq::empty()),
    }
}

/// The programmes a reply carries (none if it carries none).
pub open spec fn reply_schedule(reply: Reply) -> Result<Seq<ProgrammeRow>, Seq<char>> {
    match reply {
        Reply::Schedule(r) => spec_loaded(r),
        _ => Ok(Seq::empty()),
    }
}

/// The outcome of a refresh a reply carries (an empty import if none).
pub open spec fn reply_refresh(reply: Reply) -> Result<(usize, usize, Seq<ChannelRow>), Seq<char>> {
    match reply {
        Reply::Refreshed(Ok((c, p, cs))) => Ok((c, p, cs@)),
        Reply::Refreshed(Err(e)) => Err(e@),
        _ => Ok((0, 0, Seq::empty())),
    }
}

fn take_matches(reply: Reply) -> (r: Result<Vec<(String, i64)>, String>)
    ensures
        spec_found(r) == reply_matches(reply),
{
    match reply {
        Reply::Matches(r) => r,
        _ => Ok(Vec::new()),
    }
}

fn take_schedule(reply: Reply) -> (r: Result<Vec<ProgrammeRow>, String>)
    ensures
        spec_loaded(r) == reply_schedule(reply),
{
    match reply {
        Reply::Schedule(r) => r,
        _ => Ok(Vec::new()),
    }
}

fn take_refresh(reply: Reply) -> (r: Result<(usize, usize, Vec<ChannelRow>), String>)
    ensures
        match r {
            Ok((c, p, cs)) => reply_refresh(reply) == Ok::<(usize, usize, Seq<ChannelRow>), Seq<char>>((c, p, cs@)),
            Err(e) => reply_refresh(reply) == Err::<(usize, usize, Seq<ChannelRow>), Seq<char>>(e@),
        },
{
    match reply {
        Reply::Refreshed(r) => r,
        _ => Ok((0, 0, Vec::new())),
    }
}

/// The number of programmes loaded for a schedule.
pub const SCHEDULE_LIMIT: i64 = 100000;

/// The key is one of those that open the selected row.
pub open spec fn is_open_key(c: KeyCode) -> bool {
    c == KeyCode::Enter || c == KeyCode::Char('l') || c == KeyCode::Right
}

/// The key is one of those that go straight back.
pub open spec fn is_back_key(c: KeyCode) -> bool {
    c == KeyCode::Backspace || c == KeyCode::Char('h') || c == KeyCode::Left
}

/// `n - k`, or 0 when `k` exceeds `n`.
pub open spec fn sat_sub(n: usize, k: usize) -> usize {
    if n >= k {
        (n - k) as usize
    } else {
        0
    }
}

/// `n + k`, or the largest `usize` when that overflows.
pub open spec fn sat_add(n: usize, k: usize) -> usize {
    if n + k <= usize::MAX {
        (n + k) as usize
    } else {
        usize::MAX
    }
}

impl AppView {
    /// The channel list's selection and window leave room for the largest
    /// step a key takes.
    pub open spec fn list_room(self) -> bool {
        &&& self.selected + self.viewport + 5 <= isize::MAX
        &&& self.offset + self.viewport <= usize::MAX
    }

    /// The schedule's selection and window leave room for the largest step
    /// a key takes.
    pub open spec fn schedule_room(self) -> bool {
        &&& self.prog_selected + self.viewport + 5 <= isize::MAX
        &&& self.prog_offset + self.viewport <= usize::MAX
    }

    /// The detail's scroll leaves room for the step `key` takes.
    pub open spec fn detail_room(self, key: Key) -> bool {
        &&& key.code == KeyCode::Char('d') && key.ctrl ==> self.detail_scroll + 10 <= usize::MAX
        &&& (key.code == KeyCode::Char('f') && key.ctrl) || key.code == KeyCode::PageDown
            ==> self.detail_scroll + 20 <= usize::MAX
    }

    /// `key` can be handled: every listed row and programme exists, and the
    /// screen the key acts on leaves room for the step it takes (nothing is
    /// asked of the prompt, of `?`, `q` and Esc, or of the help).
    pub open spec fn keys_ok(self, key: Key) -> bool {
        &&& self.view_valid()
        &&& self.prog_view_valid()
        &&& self.input == InputMode::Normal && key.code != KeyCode::Char('?') && key.code
            != KeyCode::Char('q') && key.code != KeyCode::Esc ==> match self.mode {
            Mode::Channels => self.list_room(),
            Mode::Programmes => self.schedule_room(),
            Mode::Detail => self.detail_room(key),
            Mode::Help => true,
        }
    }

    /// The outside work the key needs before it can be handled.
    pub open spec fn needs(self, key: Key) -> RequestKind {
        let c = key.code;
        if self.input == InputMode::Search {
            if c == KeyCode::Enter && self.mode != Mode::Programmes && trim(self.query).len() > 0 {
                RequestKind::ProgrammeSearch
            } else {
                RequestKind::Nothing
            }
        } else if c == KeyCode::Char('?') || c == KeyCode::Char('q') || c == KeyCode::Esc {
            RequestKind::Nothing
        } else if self.mode == Mode::Channels {
            if is_open_key(c) && self.selected_channel() is Some {
                RequestKind::Schedule
            } else if c == KeyCode::Char('r') && self.source_url.len() > 0 {
                RequestKind::Refresh
            } else {
                RequestKind::Nothing
            }
        } else if self.mode == Mode::Programmes {
            if is_back_key(c) && !key.ctrl && trim(self.query).len() > 0 {
                RequestKind::ProgrammeSearch
            } else if c == KeyCode::Char('r') && self.source_url.len() > 0 {
                RequestKind::Refresh
            } else {
                RequestKind::Nothing
            }
        } else {
            RequestKind::Nothing
        }
    }

    /// A key typed at the search prompt.
    pub open spec fn search_key(self, key: Key, reply: Reply) -> AppView {
        let a = AppView { pending_g: false, ..self };
        let c = key.code;
        if c == KeyCode::Esc {
            a.cancel_search()
        } else if c == KeyCode::Enter {
            let b = a.confirm_search(reply_matches(reply));
            if b.mode == Mode::Programmes {
                b.recompute_prog_view()
            } else {
                b
            }
        } else if c == KeyCode::Backspace {
            if a.query.len() == 0 {
                a.cancel_search()
            } else {
                AppView { query: a.query.drop_last(), ..a }.update_search_preview()
            }
        } else {
            match c {
                KeyCode::Char(ch) => if key.plain {
                    AppView { query: a.query.push(ch), ..a }.update_search_preview()
                } else {
                    a
                },
                _ => a,
            }
        }
    }

    /// Esc: close the help, leave the detail, dismiss an active search or
    /// filter, else go back to the channel list.
    pub open spec fn esc_key(self, reply: Reply) -> AppView {
        let a = AppView { pending_g: false, ..self };
        match a.mode {
            Mode::Help => AppView { mode: a.prev_mode, ..a },
            Mode::Detail => a.close_detail(),
            Mode::Programmes => if a.query.len() > 0 || a.filter_only {
                a.cancel_search().recompute_prog_view()
            } else {
                let (v, r) = a.close_programmes(reply_matches(reply));
                match r {
                    Ok(()) => v,
                    Err(e) => v.with_status("error: "@ + e),
                }
            },
            Mode::Channels => if a.query.len() > 0 || a.filter_only {
                a.cancel_search()
            } else {
                a
            },
        }
    }

    /// Downloads and imports the source again, as `reply` reports it, then
    /// reloads the channel list and forgets the now/next answers.
    pub open spec fn do_refresh(self, reply: Reply) -> (AppView, Result<(), Seq<char>>) {
        if self.source_url.len() == 0 {
            (self, Err("no source URL configured"@))
        } else {
            match reply_refresh(reply) {
                Err(e) => (self, Err(e)),
                Ok((c, p, cs)) => {
                    let (v, _r) = self.reload_channels(Ok(cs));
                    (
                        AppView {
                            now_cache: Seq::empty(),
                            status: "refreshed: "@ + decimal(c as nat) + " ch / "@ + decimal(
                                p as nat,
                            ) + " prog"@,
                            ..v
                        },
                        Ok(()),
                    )
                },
            }
        }
    }

    /// The sort mode after `s`, with its report.
    pub open spec fn cycle_sort(self) -> AppView {
        let s = match self.sort {
            SortMode::Name => SortMode::Count,
            SortMode::Count => SortMode::Name,
        };
        let msg = match s {
            SortMode::Name => "sort: name"@,
            SortMode::Count => "sort: count"@,
        };
        AppView { sort: s, status: msg, ..self }.apply_sort().recompute_view()
    }

    /// A key on the channel list, before the pending `g` is dropped.
    pub open spec fn channels_action(self, key: Key, reply: Reply) -> AppView {
        let c = key.code;
        let ctrl = key.ctrl;
        if c == KeyCode::Char('j') || c == KeyCode::Down {
            self.move_sel(1)
        } else if c == KeyCode::Char('k') || c == KeyCode::Up {
            self.move_sel(-1)
        } else if c == KeyCode::Char('G') {
            self.goto(last_index(self.view.len()))
        } else if c == KeyCode::Char('g') {
            if self.pending_g {
                AppView { pending_g: false, ..self.goto(0) }
            } else {
                AppView { pending_g: true, ..self }
            }
        } else if c == KeyCode::Char('J') {
            self.move_sel(5)
        } else if c == KeyCode::Char('K') {
            self.move_sel(-5)
        } else if c == KeyCode::Char('H') {
            self.goto(self.offset)
        } else if c == KeyCode::Char('M') {
            self.goto((self.offset + self.viewport / 2) as usize)
        } else if c == KeyCode::Char('L') {
            self.goto(sat_sub((self.offset + self.viewport) as usize, 1))
        } else if c == KeyCode::PageDown && ctrl {
            self.page(1, true)
        } else if c == KeyCode::PageUp && ctrl {
            self.page(-1, true)
        } else if c == KeyCode::PageDown {
            self.page(1, false)
        } else if c == KeyCode::PageUp {
            self.page(-1, false)
        } else if c == KeyCode::Char('d') && ctrl {
            self.page(1, true)
        } else if c == KeyCode::Char('u') && ctrl {
            self.page(-1, true)
        } else if c == KeyCode::Char('f') && ctrl {
            self.page(1, false)
        } else if c == KeyCode::Char('b') && ctrl {
            self.page(-1, false)
        } else if c == KeyCode::Char('f') {
            self.toggle_filter().recompute_view()
        } else if c == KeyCode::Char('/') {
            self.start_search()
        } else if c == KeyCode::Char('n') {
            self.next_match(true)
        } else if c == KeyCode::Char('N') {
            self.next_match(false)
        } else if c == KeyCode::Char('s') {
            self.cycle_sort()
        } else if is_open_key(c) {
            let (v, r) = self.open_channel(reply_schedule(reply));
            match r {
                Ok(()) => v,
                Err(e) => v.with_status("error: "@ + e),
            }
        } else if c == KeyCode::Char('r') {
            let a = self.with_status("refreshing… (see stderr)"@);
            let (v, r) = a.do_refresh(reply);
            match r {
                Ok(()) => v.with_status("refresh complete"@),
                Err(e) => v.with_status("refresh failed: "@ + e),
            }
        } else {
            self
        }
    }

    /// The next (or previous) schedule match is selected, wrapping around.
    pub open spec fn next_prog_match(self, forward: bool) -> AppView {
        if self.prog_matches.len() == 0 {
            if self.query.len() > 0 {
                self.with_status(no_matches_text(self.query))
            } else {
                self
            }
        } else {
            let n = self.prog_matches.len();
            let p = next_pos(self.prog_match_pos as int, n as int, forward);
            AppView { prog_match_pos: p as usize, ..self }.prog_goto(self.prog_matches[p]).with_status(
                match_of_text(p as nat + 1, n),
            )
        }
    }

    /// A key on a schedule, before the pending `g` is dropped.
    pub open spec fn prog_action(self, key: Key, reply: Reply) -> AppView {
        let c = key.code;
        let ctrl = key.ctrl;
        if c == KeyCode::Char('j') || c == KeyCode::Down {
            self.move_prog(1)
        } else if c == KeyCode::Char('k') || c == KeyCode::Up {
            self.move_prog(-1)
        } else if c == KeyCode::Char('G') {
            self.prog_goto(last_index(self.prog_view.len()))
        } else if c == KeyCode::Char('g') {
            if self.pending_g {
                AppView { pending_g: false, ..self.prog_goto(0) }
            } else {
                AppView { pending_g: true, ..self }
            }
        } else if c == KeyCode::Char('t') {
            self.jump_to_now()
        } else if c == KeyCode::Char('J') {
            self.move_prog(5)
        } else if c == KeyCode::Char('K') {
            self.move_prog(-5)
        } else if c == KeyCode::Char('H') {
            self.prog_goto(self.prog_offset)
        } else if c == KeyCode::Char('M') {
            self.prog_goto((self.prog_offset + self.viewport / 2) as usize)
        } else if c == KeyCode::Char('L') {
            self.prog_goto(sat_sub((self.prog_offset + self.viewport) as usize, 1))
        } else if c == KeyCode::PageDown && ctrl {
            self.prog_page(1, true)
        } else if c == KeyCode::PageUp && ctrl {
            self.prog_page(-1, true)
        } else if c == KeyCode::PageDown {
            self.prog_page(1, false)
        } else if c == KeyCode::PageUp {
            self.prog_page(-1, false)
        } else if c == KeyCode::Char('d') && ctrl {
            self.prog_page(1, true)
        } else if c == KeyCode::Char('u') && ctrl {
            self.prog_page(-1, true)
        } else if c == KeyCode::Char('f') && ctrl {
            self.prog_page(1, false)
        } else if c == KeyCode::Char('b') && ctrl {
            self.prog_page(-1, false)
        } else if c == KeyCode::Char('f') {
            self.toggle_filter().recompute_prog_view()
        } else if c == KeyCode::Char('/') {
            self.start_search()
        } else if c == KeyCode::Char('n') {
            self.next_prog_match(true)
        } else if c == KeyCode::Char('N') {
            self.next_prog_match(false)
        } else if is_open_key(c) {
            self.open_detail()
        } else if is_back_key(c) && !ctrl {
            let (v, r) = self.close_programmes(reply_matches(reply));
            match r {
                Ok(()) => v,
                Err(e) => v.with_status("error: "@ + e),
            }
        } else if c == KeyCode::Char('r') {
            let (v, r) = self.do_refresh(reply);
            match r {
                Ok(()) => v.with_status("refresh complete"@),
                Err(e) => v.with_status("refresh failed: "@ + e),
            }
        } else {
            self
        }
    }

    /// A key on the detail of a programme: scrolling and going back.
    pub open spec fn detail_key(self, key: Key) -> AppView {
        let c = key.code;
        let ctrl = key.ctrl;
        let s = self.detail_scroll;
        if c == KeyCode::Char('j') || c == KeyCode::Down {
            AppView { detail_scroll: sat_add(s, 1), ..self }
        } else if c == KeyCode::Char('k') || c == KeyCode::Up {
            AppView { detail_scroll: sat_sub(s, 1), ..self }
        } else if c == KeyCode::Char('d') && ctrl {
            AppView { detail_scroll: (s + 10) as usize, ..self }
        } else if c == KeyCode::Char('u') && ctrl {
            AppView { detail_scroll: sat_sub(s, 10), ..self }
        } else if c == KeyCode::Char('f') && ctrl {
            AppView { detail_scroll: (s + 20) as usize, ..self }
        } else if c == KeyCode::Char('b') && ctrl {
            AppView { detail_scroll: sat_sub(s, 20), ..self }
        } else if c == KeyCode::PageDown {
            AppView { detail_scroll: (s + 20) as usize, ..self }
        } else if c == KeyCode::PageUp {
            AppView { detail_scroll: sat_sub(s, 20), ..self }
        } else if c == KeyCode::Char('G') {
            AppView { detail_scroll: (usize::MAX / 2) as usize, ..self }
        } else if c == KeyCode::Char('g') {
            AppView { detail_scroll: 0, ..self }
        } else if is_back_key(c) {
            self.close_detail()
        } else {
            self
        }
    }

    /// The state after a key press, given the answer to what it needed.
    pub open spec fn handle_key(self, key: Key, reply: Reply) -> AppView {
        let c = key.code;
        if self.input == InputMode::Search {
            self.search_key(key, reply)
        } else if c == KeyCode::Char('?') {
            if self.mode == Mode::Help {
                AppView { pending_g: false, mode: self.prev_mode, ..self }
            } else {
                AppView { pending_g: false, prev_mode: self.mode, mode: Mode::Help, ..self }
            }
        } else if c == KeyCode::Char('q') {
            AppView { quit: true, ..self }
        } else if c == KeyCode::Esc {
            self.esc_key(reply)
        } else {
            match self.mode {
                Mode::Channels => {
                    let a = self.channels_action(key, reply);
                    if c != KeyCode::Char('g') {
                        AppView { pending_g: false, ..a }
                    } else {
                        a
                    }
                },
                Mode::Programmes => {
                    let a = self.prog_action(key, reply);
                    if c != KeyCode::Char('g') {
                        AppView { pending_g: false, ..a }
                    } else {
                        a
                    }
                },
                Mode::Detail => self.detail_key(key),
                Mode::Help => self,
            }
        }
    }
}

fn error_status(prefix: &str, e: &String) -> (s: String)
    ensures
        s@ == prefix@ + e@,
{
    let mut s = owned(prefix);
    append(&mut s, e.as_str());
    s
}

fn refreshed_status(c: usize, p: usize) -> (s: String)
    ensures
        s@ == "refreshed: "@ + decimal(c as nat) + " ch / "@ + decimal(p as nat) + " prog"@,
{
    let mut s = owned("refreshed: ");
    let a = decimal_string(c as u64);
    append(&mut s, a.as_str());
    append(&mut s, " ch / ");
    let b = decimal_string(p as u64);
    append(&mut s, b.as_str());
    append(&mut s, " prog");
    s
}

fn indices_below(v: &Vec<usize>, n: usize) -> (r: bool)
    ensures
        r == all_below(v@, n as nat),
{
    let mut i: usize = 0;
    while i < v.len()
        invariant
            i <= v@.len(),
            forall|j: int| 0 <= j < i ==> (#[trigger] v@[j]) < n,
        decreases v.len() - i,
    {
        if v[i] >= n {
            return false;
        }
        i = i + 1;
    }
    true
}

impl App {
    /// Whether every listed row and programme exists.
    pub fn rows_ready(&self) -> (r: bool)
        ensures
            r == (self@.view_valid() && self@.prog_view_valid()),
    {
        indices_below(&self.view, self.channels.len()) && indices_below(
            &self.prog_view,
            self.programmes.len(),
        )
    }

    /// Whether `key` can be handled now (`keys_ok`).
    pub fn keys_ready(&self, key: &Key) -> (r: bool)
        ensures
            r == self@.keys_ok(*key),
    {
        if !self.rows_ready() {
            return false;
        }
        let c = key.code;
        if self.input != InputMode::Normal || c == KeyCode::Char('?') || c == KeyCode::Char('q')
            || c == KeyCode::Esc {
            return true;
        }
        let lim: usize = isize::MAX as usize;
        match self.mode {
            Mode::Channels => self.selected <= lim && self.viewport <= lim - self.selected && 5
                <= lim - self.selected - self.viewport && self.viewport <= usize::MAX - self.offset,
            Mode::Programmes => self.prog_selected <= lim && self.viewport <= lim
                - self.prog_selected && 5 <= lim - self.prog_selected - self.viewport
                && self.viewport <= usize::MAX - self.prog_offset,
            Mode::Detail => (!(c == KeyCode::Char('d') && key.ctrl) || self.detail_scroll
                <= usize::MAX - 10) && (!((c == KeyCode::Char('f') && key.ctrl) || c
                == KeyCode::PageDown) || self.detail_scroll <= usize::MAX - 20),
            Mode::Help => true,
        }
    }
}

impl App {
    /// The outside work `key` needs before `handle_key` can run.
    pub fn request_for(&self, key: &Key) -> (r: Request)
        requires
            self@.view_valid(),
        ensures
            request_kind(r) == self@.needs(*key),
            r matches Request::ProgrammeSearch { query, now } ==> query@ == self@.query && now
                == self@.now,
            r matches Request::Schedule { channel_id, limit } ==> self@.selected_channel() matches Some(
                ch,
            ) && channel_id@ == ch.channel_id@ && limit == SCHEDULE_LIMIT,
            r matches Request::Refresh { url } ==> url@ == self@.source_url,
    {
        let c = key.code;
        let search = Request::ProgrammeSearch { query: self.query.clone(), now: self.now };
        if self.input == InputMode::Search {
            if c == KeyCode::Enter && self.mode != Mode::Programmes && !is_blank(self.query.as_str()) {
                return search;
            }
            return Request::Nothing;
        }
        if c == KeyCode::Char('?') || c == KeyCode::Char('q') || c == KeyCode::Esc {
            return Request::Nothing;
        }
        let refresh = c == KeyCode::Char('r') && !self.source_url.as_str().is_empty();
        if self.mode == Mode::Channels {
            if (c == KeyCode::Enter || c == KeyCode::Char('l') || c == KeyCode::Right)
                && self.view.len() > 0 && self.selected < self.view.len() {
                let ci = self.view[self.selected];
                return Request::Schedule {
                    channel_id: self.channels[ci].channel_id.clone(),
                    limit: SCHEDULE_LIMIT,
                };
            }
            if refresh {
                return Request::Refresh { url: self.source_url.clone() };
            }
        } else if self.mode == Mode::Programmes {
            if (c == KeyCode::Backspace || c == KeyCode::Char('h') || c == KeyCode::Left) && !key.ctrl
                && !is_blank(self.query.as_str()) {
                return search;
            }
            if refresh {
                return Request::Refresh { url: self.source_url.clone() };
            }
        }
        Request::Nothing
    }

    /// Handles a key press. `reply` answers what `request_for` named for
    /// this key (anything will do when it named nothing).
    pub fn handle_key(&mut self, key: Key, reply: Reply)
        requires
            old(self)@.keys_ok(key),
            reply_fits(old(self)@.needs(key), reply),
        ensures
            final(self)@ == old(self)@.handle_key(key, reply),
    {
        let c = key.code;
        if self.input == InputMode::Search {
            self.search_key(key, reply);
        } else if c == KeyCode::Char('?') {
            self.pending_g = false;
            if self.mode == Mode::Help {
                self.mode = self.prev_mode;
            } else {
                self.prev_mode = self.mode;
                self.mode = Mode::Help;
            }
        } else if c == KeyCode::Char('q') {
            self.quit = true;
        } else if c == KeyCode::Esc {
            self.esc_key(reply);
        } else {
            match self.mode {
                Mode::Channels => {
                    self.channels_action(key, reply);
                    if c != KeyCode::Char('g') {
                        self.pending_g = false;
                    }
                },
                Mode::Programmes => {
                    self.prog_action(key, reply);
                    if c != KeyCode::Char('g') {
                        self.pending_g = false;
                    }
                },
                Mode::Detail => self.detail_key(key),
                Mode::Help => {},
            }
        }
    }

    fn search_key(&mut self, key: Key, reply: Reply)
        ensures
            final(self)@ == old(self)@.search_key(key, reply),
    {
        self.pending_g = false;
        let c = key.code;
        if c == KeyCode::Esc {
            self.cancel_search();
        } else if c == KeyCode::Enter {
            self.confirm_search(take_matches(reply));
            if self.mode == Mode::Programmes {
                self.recompute_prog_view();
            }
        } else if c == KeyCode::Backspace {
            if self.query.as_str().is_empty() {
                self.cancel_search();
            } else {
                let _ = pop_char(&mut self.query);
                self.update_search_preview();
            }
        } else {
            match c {
                KeyCode::Char(ch) => {
                    if key.plain {
                        push_char(&mut self.query, ch);
                        self.update_search_preview();
                    }
                },
                _ => {},
            }
        }
    }

    fn esc_key(&mut self, reply: Reply)
        ensures
            final(self)@ == old(self)@.esc_key(reply),
    {
        self.pending_g = false;
        match self.mode {
            Mode::Help => {
                self.mode = self.prev_mode;
            },
            Mode::Detail => self.close_detail(),
            Mode::Programmes => {
                if !self.query.as_str().is_empty() || self.filter_only {
                    self.cancel_search();
                    self.recompute_prog_view();
                } else {
                    match self.close_programmes(take_matches(reply)) {
                        Ok(()) => {},
                        Err(e) => {
                            self.status = error_status("error: ", &e);
                        },
                    }
                }
            },
            Mode::Channels => {
                if !self.query.as_str().is_empty() || self.filter_only {
                    self.cancel_search();
                }
            },
        }
    }

    fn do_refresh(&mut self, reply: Reply) -> (r: Result<(), String>)
        ensures
            ({
                let (v, res) = old(self)@.do_refresh(reply);
                &&& final(self)@ == v
                &&& r is Ok <==> res is Ok
                &&& r matches Err(e) ==> res == Err::<(), Seq<char>>(e@)
            }),
    {
        if self.source_url.as_str().is_empty() {
            return Err(owned("no source URL configured"));
        }
        match take_refresh(reply) {
            Err(e) => Err(e),
            Ok((c, p, cs)) => {
                let _ = self.reload_channels(Ok(cs));
                self.now_cache = Vec::new();
                self.status = refreshed_status(c, p);
                Ok(())
            },
        }
    }

    fn cycle_sort(&mut self)
        ensures
            final(self)@ == old(self)@.cycle_sort(),
    {
        self.sort = match self.sort {
            SortMode::Name => SortMode::Count,
            SortMode::Count => SortMode::Name,
        };
        self.status = match self.sort {
            SortMode::Name => owned("sort: name"),
            SortMode::Count => owned("sort: count"),
        };
        self.apply_sort();
        self.recompute_view();
    }

    #[verifier::rlimit(40)]
    fn channels_action(&mut self, key: Key, reply: Reply)
        requires
            old(self)@.view_valid(),
            old(self)@.prog_view_valid(),
            old(self)@.list_room(),
        ensures
            final(self)@ == old(self)@.channels_action(key, reply),
    {
        let c = key.code;
        let ctrl = key.ctrl;
        if c == KeyCode::Char('j') || c == KeyCode::Down {
            self.move_sel(1);
        } else if c == KeyCode::Char('k') || c == KeyCode::Up {
            self.move_sel(-1);
        } else if c == KeyCode::Char('G') {
            let last = if self.view.len() == 0 {
                0
            } else {
                self.view.len() - 1
            };
            self.goto(last);
        } else if c == KeyCode::Char('g') {
            if self.pending_g {
                self.goto(0);
                self.pending_g = false;
            } else {
                self.pending_g = true;
            }
        } else if c == KeyCode::Char('J') {
            self.move_sel(5);
        } else if c == KeyCode::Char('K') {
            self.move_sel(-5);
        } else if c == KeyCode::Char('H') {
            let o = self.offset;
            self.goto(o);
        } else if c == KeyCode::Char('M') {
            let t = self.offset + self.viewport / 2;
            self.goto(t);
        } else if c == KeyCode::Char('L') {
            let e = self.offset + self.viewport;
            self.goto(if e >= 1 {
                e - 1
            } else {
                0
            });
        } else {
            self.channels_page_action(key, reply);
        }
    }

    #[verifier::rlimit(40)]
    fn channels_page_action(&mut self, key: Key, reply: Reply)
        requires
            old(self)@.view_valid(),
            old(self)@.prog_view_valid(),
            old(self)@.list_room(),
            !(key.code == KeyCode::Char('j') || key.code == KeyCode::Down || key.code == KeyCode::Char('k')
                || key.code == KeyCode::Up || key.code == KeyCode::Char('G') || key.code == KeyCode::Char('g')
                || key.code == KeyCode::Char('J') || key.code == KeyCode::Char('K') || key.code
                == KeyCode::Char('H') || key.code == KeyCode::Char('M') || key.code == KeyCode::Char('L')),
        ensures
            final(self)@ == old(self)@.channels_action(key, reply),
    {
        let c = key.code;
        let ctrl = key.ctrl;
        if c == KeyCode::PageDown && ctrl {
            self.page(1, true);
        } else if c == KeyCode::PageUp && ctrl {
            self.page(-1, true);
        } else if c == KeyCode::PageDown {
            self.page(1, false);
        } else if c == KeyCode::PageUp {
            self.page(-1, false);
        } else if c == KeyCode::Char('d') && ctrl {
            self.page(1, true);
        } else if c == KeyCode::Char('u') && ctrl {
            self.page(-1, true);
        } else if c == KeyCode::Char('f') && ctrl {
            self.page(1, false);
        } else if c == KeyCode::Char('b') && ctrl {
            self.page(-1, false);
        } else if c == KeyCode::Char('f') {
            self.toggle_filter();
            self.recompute_view();
        } else if c == KeyCode::Char('/') {
            self.start_search();
        } else if c == KeyCode::Char('n') {
            self.next_match(true);
        } else if c == KeyCode::Char('N') {
            self.next_match(false);
        } else if c == KeyCode::Char('s') {
            self.cycle_sort();
        } else if c == KeyCode::Enter || c == KeyCode::Char('l') || c == KeyCode::Right {
            match self.open_channel(take_schedule(reply)) {
                Ok(()) => {},
                Err(e) => {
                    self.status = error_status("error: ", &e);
                },
            }
        } else if c == KeyCode::Char('r') {
            self.status = owned("refreshing… (see stderr)");
            match self.do_refresh(reply) {
                Ok(()) => {
                    self.status = owned("refresh complete");
                },
                Err(e) => {
                    self.status = error_status("refresh failed: ", &e);
                },
            }
        }
    }

    fn next_prog_match(&mut self, forward: bool)
        ensures
            final(self)@ == old(self)@.next_prog_match(forward),
    {
        if self.prog_matches.len() == 0 {
            if !self.query.as_str().is_empty() {
                self.status = crate::search::no_matches_string(&self.query);
            }
            return;
        }
        let n = self.prog_matches.len();
        let p = crate::search::next_pos_exec(self.prog_match_pos, n, forward);
        self.prog_match_pos = p;
        let target = self.prog_matches[p];
        self.prog_goto(target);
        self.status = crate::search::match_of_string(p + 1, n);
    }

    #[verifier::rlimit(40)]
    fn prog_action(&mut self, key: Key, reply: Reply)
        requires
            old(self)@.view_valid(),
            old(self)@.prog_view_valid(),
            old(self)@.schedule_room(),
        ensures
            final(self)@ == old(self)@.prog_action(key, reply),
    {
        let c = key.code;
        if c == KeyCode::Char('j') || c == KeyCode::Down {
            self.move_prog(1);
        } else if c == KeyCode::Char('k') || c == KeyCode::Up {
            self.move_prog(-1);
        } else if c == KeyCode::Char('G') {
            let last = if self.prog_view.len() == 0 {
                0
            } else {
                self.prog_view.len() - 1
            };
            self.prog_goto(last);
        } else if c == KeyCode::Char('g') {
            if self.pending_g {
                self.prog_goto(0);
                self.pending_g = false;
            } else {
                self.pending_g = true;
            }
        } else if c == KeyCode::Char('t') {
            self.jump_to_now_programme();
        } else if c == KeyCode::Char('J') {
            self.move_prog(5);
        } else if c == KeyCode::Char('K') {
            self.move_prog(-5);
        } else if c == KeyCode::Char('H') {
            let o = self.prog_offset;
            self.prog_goto(o);
        } else if c == KeyCode::Char('M') {
            let t = self.prog_offset + self.viewport / 2;
            self.prog_goto(t);
        } else if c == KeyCode::Char('L') {
            let e = self.prog_offset + self.viewport;
            self.prog_goto(if e >= 1 {
                e - 1
            } else {
                0
            });
        } else {
            self.prog_page_action(key, reply);
        }
    }

    #[verifier::rlimit(40)]
    fn prog_page_action(&mut self, key: Key, reply: Reply)
        requires
            old(self)@.view_valid(),
            old(self)@.prog_view_valid(),
            old(self)@.schedule_room(),
            !(key.code == KeyCode::Char('j') || key.code == KeyCode::Down || key.code == KeyCode::Char('k')
                || key.code == KeyCode::Up || key.code == KeyCode::Char('G') || key.code == KeyCode::Char('g')
                || key.code == KeyCode::Char('t') || key.code == KeyCode::Char('J') || key.code
                == KeyCode::Char('K') || key.code == KeyCode::Char('H') || key.code == KeyCode::Char('M')
                || key.code == KeyCode::Char('L')),
        ensures
            final(self)@ == old(self)@.prog_action(key, reply),
    {
        let c = key.code;
        let ctrl = key.ctrl;
        if c == KeyCode::PageDown && ctrl {
            self.prog_page(1, true);
        } else if c == KeyCode::PageUp && ctrl {
            self.prog_page(-1, true);
        } else if c == KeyCode::PageDown {
            self.prog_page(1, false);
        } else if c == KeyCode::PageUp {
            self.prog_page(-1, false);
        } else if c == KeyCode::Char('d') && ctrl {
            self.prog_page(1, true);
        } else if c == KeyCode::Char('u') && ctrl {
            self.prog_page(-1, true);
        } else if c == KeyCode::Char('f') && ctrl {
            self.prog_page(1, false);
        } else if c == KeyCode::Char('b') && ctrl {
            self.prog_page(-1, false);
        } else if c == KeyCode::Char('f') {
            self.toggle_filter();
            self.recompute_prog_view();
        } else if c == KeyCode::Char('/') {
            self.start_search();
        } else if c == KeyCode::Char('n') {
            self.next_prog_match(true);
        } else if c == KeyCode::Char('N') {
            self.next_prog_match(false);
        } else if c == KeyCode::Enter || c == KeyCode::Char('l') || c == KeyCode::Right {
            self.open_detail();
        } else if (c == KeyCode::Backspace || c == KeyCode::Char('h') || c == KeyCode::Left) && !ctrl {
            match self.close_programmes(take_matches(reply)) {
                Ok(()) => {},
                Err(e) => {
                    self.status = error_status("error: ", &e);
                },
            }
        } else if c == KeyCode::Char('r') {
            match self.do_refresh(reply) {
                Ok(()) => {
                    self.status = owned("refresh complete");
                },
                Err(e) => {
                    self.status = error_status("refresh failed: ", &e);
                },
            }
        }
    }

    fn detail_key(&mut self, key: Key)
        requires
            old(self)@.detail_room(key),
        ensures
            final(self)@ == old(self)@.detail_key(key),
    {
        let c = key.code;
        let ctrl = key.ctrl;
        let s = self.detail_scroll;
        if c == KeyCode::Char('j') || c == KeyCode::Down {
            self.detail_scroll = if s < usize::MAX {
                s + 1
            } else {
                s
            };
        } else if c == KeyCode::Char('k') || c == KeyCode::Up {
            self.detail_scroll = if s >= 1 {
                s - 1
            } else {
                0
            };
        } else if c == KeyCode::Char('d') && ctrl {
            self.detail_scroll = s + 10;
        } else if c == KeyCode::Char('u') && ctrl {
            self.detail_scroll = if s >= 10 {
                s - 10
            } else {
                0
            };
        } else if c == KeyCode::Char('f') && ctrl {
            self.detail_scroll = s + 20;
        } else if c == KeyCode::Char('b') && ctrl {
            self.detail_scroll = if s >= 20 {
                s - 20
            } else {
                0
            };
        } else if c == KeyCode::PageDown {
            self.detail_scroll = s + 20;
        } else if c == KeyCode::PageUp {
            self.detail_scroll = if s >= 20 {
                s - 20
            } else {
                0
            };
        } else if c == KeyCode::Char('G') {
            self.detail_scroll = usize::MAX / 2;
        } else if c == KeyCode::Char('g') {
            self.detail_scroll = 0;
        } else if c == KeyCode::Backspace || c == KeyCode::Char('h') || c == KeyCode::Left {
            self.close_detail();
        }
    }
}


/// `?` opens the help and a second `?` returns to the screen it was opened
/// from.
pub proof fn lemma_help_toggles_back(v: AppView, r1: Reply, r2: Reply)
    requires
        v.input == InputMode::Normal,
        v.mode != Mode::Help,
    ensures
        v.handle_key(Key::new_spec(KeyCode::Char('?')), r1).mode == Mode::Help,
        v.handle_key(Key::new_spec(KeyCode::Char('?')), r1).handle_key(
            Key::new_spec(KeyCode::Char('?')),
            r2,
        ).mode == v.mode,
{
}

/// `q` sets the quit flag from any screen outside the search prompt.
pub proof fn lemma_q_quits(v: AppView, r: Reply)
    requires
        v.input == InputMode::Normal,
    ensures
        v.handle_key(Key::new_spec(KeyCode::Char('q')), r).quit,
{
}

proof fn lemma_channels_g(v: AppView, r: Reply)
    requires
        v.input == InputMode::Normal,
        v.mode == Mode::Channels,
    ensures
        v.handle_key(Key::new_spec(KeyCode::Char('g')), r) == (if v.pending_g {
            AppView { pending_g: false, ..v.goto(0) }
        } else {
            AppView { pending_g: true, ..v }
        }),
{
    let k = Key::new_spec(KeyCode::Char('g'));
    assert(v.channels_action(k, r) == (if v.pending_g {
        AppView { pending_g: false, ..v.goto(0) }
    } else {
        AppView { pending_g: true, ..v }
    }));
}

/// On the channel list, `g` arms a pending `g` and a second `g` selects the
/// first row; `G` selects the last row.
pub proof fn lemma_g_g_and_capital_g(v: AppView, r1: Reply, r2: Reply)
    requires
        v.input == InputMode::Normal,
        v.mode == Mode::Channels,
        !v.pending_g,
        v.view.len() > 0,
        v.view.len() <= usize::MAX,
    ensures
        v.handle_key(Key::new_spec(KeyCode::Char('g')), r1).pending_g,
        v.handle_key(Key::new_spec(KeyCode::Char('g')), r1).handle_key(
            Key::new_spec(KeyCode::Char('g')),
            r2,
        ).selected == 0,
        !v.handle_key(Key::new_spec(KeyCode::Char('g')), r1).handle_key(
            Key::new_spec(KeyCode::Char('g')),
            r2,
        ).pending_g,
        v.handle_key(Key::new_spec(KeyCode::Char('G')), r1).selected == v.view.len() - 1,
{
    lemma_channels_g(v, r1);
    let w = v.handle_key(Key::new_spec(KeyCode::Char('g')), r1);
    lemma_channels_g(w, r2);
    lemma_channels_capital_g(v, r1);
}

proof fn lemma_channels_capital_g(v: AppView, r: Reply)
    requires
        v.input == InputMode::Normal,
        v.mode == Mode::Channels,
        v.view.len() > 0,
        v.view.len() <= usize::MAX,
    ensures
        v.handle_key(Key::new_spec(KeyCode::Char('G')), r).selected == v.view.len() - 1,
{
    let k = Key::new_spec(KeyCode::Char('G'));
    assert(v.channels_action(k, r) == v.goto(last_index(v.view.len())));
}

/// Any key other than `g` on the channel list drops a pending `g`.
pub proof fn lemma_other_key_drops_pending_g(v: AppView, key: Key, r: Reply)
    requires
        v.input == InputMode::Normal,
        v.mode == Mode::Channels,
        key.code != KeyCode::Char('g'),
        key.code != KeyCode::Char('?'),
        key.code != KeyCode::Char('q'),
    ensures
        !v.handle_key(key, r).pending_g,
{
}

proof fn lemma_channels_s(v: AppView, r: Reply)
    requires
        v.input == InputMode::Normal,
        v.mode == Mode::Channels,
    ensures
        v.handle_key(Key::new_spec(KeyCode::Char('s')), r).sort != v.sort,
        v.handle_key(Key::new_spec(KeyCode::Char('s')), r).input == InputMode::Normal,
        v.handle_key(Key::new_spec(KeyCode::Char('s')), r).mode == Mode::Channels,
{
    let k = Key::new_spec(KeyCode::Char('s'));
    assert(v.channels_action(k, r) == v.cycle_sort());
}

/// Two presses of `s` return the list to its sort mode.
pub proof fn lemma_s_twice_restores_sort(v: AppView, r1: Reply, r2: Reply)
    requires
        v.input == InputMode::Normal,
        v.mode == Mode::Channels,
    ensures
        v.handle_key(Key::new_spec(KeyCode::Char('s')), r1).sort != v.sort,
        v.handle_key(Key::new_spec(KeyCode::Char('s')), r1).handle_key(
            Key::new_spec(KeyCode::Char('s')),
            r2,
        ).sort == v.sort,
{
    lemma_channels_s(v, r1);
    lemma_channels_s(v.handle_key(Key::new_spec(KeyCode::Char('s')), r1), r2);
}

/// Esc on the channel list with an active search dismisses the search and
/// stays on the list.
pub proof fn lemma_esc_dismisses_search(v: AppView, r: Reply)
    requires
        v.input == InputMode::Normal,
        v.mode == Mode::Channels,
        v.query.len() > 0 || v.filter_only,
    ensures
        v.handle_key(Key::new_spec(KeyCode::Esc), r).query.len() == 0,
        !v.handle_key(Key::new_spec(KeyCode::Esc), r).filter_only,
        v.handle_key(Key::new_spec(KeyCode::Esc), r).mode == Mode::Channels,
{
}

/// At the search prompt, Esc leaves the prompt and drops the query.
pub proof fn lemma_esc_cancels_prompt(v: AppView, r: Reply)
    requires
        v.input == InputMode::Search,
    ensures
        v.handle_key(Key::new_spec(KeyCode::Esc), r).input == InputMode::Normal,
        v.handle_key(Key::new_spec(KeyCode::Esc), r).query.len() == 0,
{
}

proof fn lemma_close_programmes_keeps_search(v: AppView, found: Result<Seq<(String, i64)>, Seq<char>>)
    ensures
        ({
            let (w, _res) = v.close_programmes(found);
            &&& w.mode == Mode::Channels
            &&& w.query == v.query
            &&& w.filter_only == v.filter_only
            &&& w.programmes.len() == 0
            &&& w.prog_view.len() == 0
            &&& w.cur_channel is None
        }),
{
    let a = AppView {
        mode: Mode::Channels,
        programmes: Seq::empty(),
        prog_view: Seq::empty(),
        prog_matches: Seq::empty(),
        cur_channel: None,
        ..v
    };
    if a.query.len() > 0 {
        let (b, res) = a.refresh_prog_match(found);
        assert(b.mode == a.mode && b.query == a.query && b.filter_only == a.filter_only);
        assert(b.programmes == a.programmes && b.cur_channel == a.cur_channel && b.prog_view
            == a.prog_view);
        let c = b.recompute_view();
        assert(c.mode == b.mode && c.query == b.query && c.filter_only == b.filter_only);
        assert(c.programmes == b.programmes && c.cur_channel == b.cur_channel && c.prog_view
            == b.prog_view);
    }
}

proof fn lemma_prog_back_key(v: AppView, key: Key, r: Reply)
    requires
        is_back_key(key.code),
        !key.ctrl,
    ensures
        v.prog_action(key, r) == ({
            let (w, res) = v.close_programmes(reply_matches(r));
            match res {
                Ok(()) => w,
                Err(e) => w.with_status("error: "@ + e),
            }
        }),
{
}

/// `h`, Backspace or Left on a schedule goes straight back to the channel
/// list and keeps the search; the schedule is dropped.
#[verifier::rlimit(60)]
pub proof fn lemma_back_keeps_search(v: AppView, key: Key, r: Reply)
    requires
        v.input == InputMode::Normal,
        v.mode == Mode::Programmes,
        is_back_key(key.code),
        !key.ctrl,
    ensures
        v.handle_key(key, r).mode == Mode::Channels,
        v.handle_key(key, r).query == v.query,
        v.handle_key(key, r).filter_only == v.filter_only,
        v.handle_key(key, r).programmes.len() == 0,
        v.handle_key(key, r).prog_view.len() == 0,
        v.handle_key(key, r).cur_channel is None,
        !v.handle_key(key, r).pending_g,
{
    lemma_prog_back_key(v, key, r);
    lemma_close_programmes_keeps_search(v, reply_matches(r));
    assert(v.handle_key(key, r) == AppView { pending_g: false, ..v.prog_action(key, r) });
}

/// Esc backs out one screen at a time: from the help to the screen it was
/// opened on, from a programme's detail to its schedule, and from a schedule
/// without a search or filter to the channel list.
pub proof fn lemma_esc_backs_out(v: AppView, r: Reply)
    requires
        v.input == InputMode::Normal,
    ensures
        v.mode == Mode::Help ==> v.handle_key(Key::new_spec(KeyCode::Esc), r).mode == v.prev_mode,
        v.mode == Mode::Detail ==> v.handle_key(Key::new_spec(KeyCode::Esc), r).mode
            == Mode::Programmes && v.handle_key(Key::new_spec(KeyCode::Esc), r).detail is None,
        v.mode == Mode::Programmes && v.query.len() == 0 && !v.filter_only ==> v.handle_key(
            Key::new_spec(KeyCode::Esc),
            r,
        ).mode == Mode::Channels,
{
}

proof fn lemma_channels_enter(v: AppView, progs: Vec<ProgrammeRow>)
    requires
        v.view_valid(),
        v.selected < v.view.len(),
    ensures
        v.channels_action(Key::new_spec(KeyCode::Enter), Reply::Schedule(Ok(progs))).mode
            == Mode::Programmes,
{
    let r = Reply::Schedule(Ok(progs));
    assert(reply_schedule(r) == Ok::<Seq<ProgrammeRow>, Seq<char>>(progs@));
    let (w, res) = v.open_channel(reply_schedule(r));
    assert(res is Ok && w.mode == Mode::Programmes);
    assert(v.channels_action(Key::new_spec(KeyCode::Enter), r) == w);
}

/// Enter (or `l`, or Right) drills in: from the channel list to the
/// selected channel's schedule when it loads, and from a schedule to the
/// selected programme's detail.
#[verifier::rlimit(60)]
pub proof fn lemma_enter_drills_in(v: AppView, progs: Vec<ProgrammeRow>)
    requires
        v.input == InputMode::Normal,
        v.view_valid(),
        v.prog_view_valid(),
    ensures
        v.mode == Mode::Channels && v.selected < v.view.len() ==> v.handle_key(
            Key::new_spec(KeyCode::Enter),
            Reply::Schedule(Ok(progs)),
        ).mode == Mode::Programmes,
        v.mode == Mode::Programmes && v.prog_selected < v.prog_view.len() ==> v.handle_key(
            Key::new_spec(KeyCode::Enter),
            Reply::Nothing,
        ).mode == Mode::Detail,
{
    if v.mode == Mode::Channels && v.selected < v.view.len() {
        lemma_channels_enter(v, progs);
    }
    if v.mode == Mode::Programmes && v.prog_selected < v.prog_view.len() {
        let k = Key::new_spec(KeyCode::Enter);
        assert(v.prog_action(k, Reply::Nothing) == v.open_detail());
    }
}

/// Typing at the search prompt needs no search of the cache: the table of
/// channels with matching programmes is only refreshed on Enter.
pub proof fn lemma_typing_defers_the_programme_search(v: AppView, ch: char, r: Reply)
    requires
        v.input == InputMode::Search,
    ensures
        v.needs(Key::new_spec(KeyCode::Char(ch))) == RequestKind::Nothing,
        v.handle_key(Key::new_spec(KeyCode::Char(ch)), r).prog_match == v.prog_match,
        v.handle_key(Key::new_spec(KeyCode::Char(ch)), r).query == v.query.push(ch),
{
    let a = AppView { pending_g: false, query: v.query.push(ch), ..v };
    assert(a.update_search_preview().prog_match == a.prog_match);
    assert(a.update_search_preview().query == a.query);
}

/// A query typed on a schedule carries over when leaving it: the table of
/// channels with matching current/next programmes is what the search of the
/// cache reported.
pub proof fn lemma_query_carries_over(v: AppView, pairs: Seq<(String, i64)>)
    requires
        trim(v.query).len() > 0,
    ensures
        v.close_programmes(Ok(pairs)).0.prog_match == crate::search::collect_pairs(pairs),
        v.close_programmes(Ok(pairs)).1 is Ok,
{
    let a = AppView {
        mode: Mode::Channels,
        programmes: Seq::empty(),
        prog_view: Seq::empty(),
        prog_matches: Seq::empty(),
        cur_channel: None,
        ..v
    };
    assert(a.query.len() > 0) by {
        if a.query.len() == 0 {
            assert(trim(a.query) =~= a.query);
        }
    }
    let (b, res) = a.refresh_prog_match(Ok(pairs));
    assert(b.recompute_view().prog_match == b.prog_match);
}

/// `f` on a schedule with a query turns filter mode over; with it on, the
/// schedule lists exactly the programmes whose lowercased title or
/// description contains the lowercased query, and otherwise every
/// programme, in order. Without a query filter mode stays as it was and
/// the status says there is nothing to filter by. The programmes
/// themselves do not change.
#[verifier::rlimit(60)]
#[verifier::spinoff_prover]
pub proof fn lemma_f_filters_the_schedule(v: AppView, r: Reply)
    requires
        v.input == InputMode::Normal,
        v.mode == Mode::Programmes,
        v.programmes.len() <= usize::MAX,
    ensures
        ({
            let w = v.handle_key(Key::new_spec(KeyCode::Char('f')), r);
            &&& v.query.len() > 0 ==> w.filter_only == !v.filter_only
            &&& v.query.len() == 0 ==> w.filter_only == v.filter_only && w.status
                == "No search query to filter by"@
            &&& w.programmes == v.programmes
            &&& w.filter_only && v.query.len() > 0 ==> forall|i: int|
                0 <= i < v.programmes.len() ==> ((contains(
                    lower(#[trigger] v.programmes[i].title@),
                    lower(v.query),
                ) || contains(lower(v.programmes[i].desc@), lower(v.query)))
                    <==> w.prog_view.contains(i as usize))
            &&& !(w.filter_only && v.query.len() > 0) ==> w.prog_view == Seq::new(
                v.programmes.len(),
                |i: int| i as usize,
            )
        }),
{
    let k = Key::new_spec(KeyCode::Char('f'));
    let t = v.toggle_filter();
    if v.query.len() > 0 {
        let u = AppView { filter_only: !v.filter_only, ..v }.recompute_view();
        assert(t == u.with_status(t.status));
        assert(t.filter_only == !v.filter_only);
    }
    assert(t.query == v.query && t.programmes == v.programmes);
    assert(v.prog_action(k, r) == t.recompute_prog_view());
    let w = v.handle_key(k, r);
    assert(w == AppView { pending_g: false, ..t.recompute_prog_view() });
    crate::schedule::lemma_schedule_filter_lists_exactly_the_matches(t);
}

/// On a programme's detail, every key but `?`, `q` and Esc does what
/// `detail_key` says (its steps are spelled out by `lemma_detail_keys`).
pub proof fn lemma_detail_handle(v: AppView, key: Key, r: Reply)
    requires
        v.input == InputMode::Normal,
        v.mode == Mode::Detail,
        key.code != KeyCode::Char('?'),
        key.code != KeyCode::Char('q'),
        key.code != KeyCode::Esc,
    ensures
        v.handle_key(key, r) == v.detail_key(key),
{
}

/// On a programme's detail, `j`/Down scroll one line down and `k`/Up one
/// line up (never below the top), Ctrl-u ten lines up, `g` goes to the top
/// and `G` to the bottom (clamped when drawn), and `h`, Backspace or Left go
/// back to the schedule; nothing else changes.
pub proof fn lemma_detail_keys(v: AppView)
    ensures
        v.detail_key(Key::new_spec(KeyCode::Char('j'))) == (AppView {
            detail_scroll: sat_add(v.detail_scroll, 1),
            ..v
        }),
        v.detail_key(Key::new_spec(KeyCode::Down)) == (AppView {
            detail_scroll: sat_add(v.detail_scroll, 1),
            ..v
        }),
        v.detail_key(Key::new_spec(KeyCode::Char('k'))) == (AppView {
            detail_scroll: sat_sub(v.detail_scroll, 1),
            ..v
        }),
        v.detail_key(Key::new_spec(KeyCode::Up)) == (AppView {
            detail_scroll: sat_sub(v.detail_scroll, 1),
            ..v
        }),
        v.detail_key(Key { code: KeyCode::Char('u'), ctrl: true, plain: false }) == (AppView {
            detail_scroll: sat_sub(v.detail_scroll, 10),
            ..v
        }),
        v.detail_key(Key::new_spec(KeyCode::Char('g'))) == (AppView { detail_scroll: 0, ..v }),
        v.detail_key(Key::new_spec(KeyCode::Char('G'))) == (AppView {
            detail_scroll: (usize::MAX / 2) as usize,
            ..v
        }),
        v.detail_key(Key::new_spec(KeyCode::Char('h'))) == (AppView {
            mode: Mode::Programmes,
            detail: None,
            ..v
        }),
        v.detail_key(Key::new_spec(KeyCode::Backspace)) == (AppView {
            mode: Mode::Programmes,
            detail: None,
            ..v
        }),
        v.detail_key(Key::new_spec(KeyCode::Left)) == (AppView {
            mode: Mode::Programmes,
            detail: None,
            ..v
        }),
{
}

// ---------------------------------------------------------------------------
// Every key keeps the lists consistent and the selections on screen
// ---------------------------------------------------------------------------

/// Every listed row is a channel and every listed programme is one of the
/// schedule's; neither holds more rows than a machine index can count.
pub open spec fn rows_valid(v: AppView) -> bool {
    &&& v.view_valid()
    &&& v.prog_view_valid()
    &&& v.channels.len() <= usize::MAX
    &&& v.programmes.len() <= usize::MAX
    &&& v.view.len() <= usize::MAX
    &&& v.prog_view.len() <= usize::MAX
}

/// Both selections are listed rows and lie in their windows.
pub open spec fn on_screen(v: AppView) -> bool {
    v.selection_visible() && v.prog_selection_visible()
}

/// `w` is a consistent successor of `v`: its rows are valid, and its
/// selections are on screen when those of `v` were.
pub open spec fn kept(v: AppView, w: AppView) -> bool {
    rows_valid(w) && (on_screen(v) ==> on_screen(w))
}

/// The lists a reply carries fit in a machine index, as a `Vec`'s do.
pub open spec fn reply_sized(r: Reply) -> bool {
    match r {
        Reply::Schedule(Ok(ps)) => ps@.len() <= usize::MAX,
        Reply::Refreshed(Ok((_c, _p, cs))) => cs@.len() <= usize::MAX,
        _ => true,
    }
}

proof fn lemma_kept_trans(u: AppView, v: AppView, w: AppView)
    requires
        kept(u, v),
        kept(v, w),
    ensures
        kept(u, w),
{
}

proof fn lemma_recompute_view_kept(v: AppView)
    requires
        v.prog_view_valid(),
        v.channels.len() <= usize::MAX,
        v.programmes.len() <= usize::MAX,
        v.prog_view.len() <= usize::MAX,
    ensures
        kept(v, v.recompute_view()),
        v.recompute_view().selection_visible(),
        v.recompute_view().programmes == v.programmes,
        v.recompute_view().prog_view == v.prog_view,
        v.recompute_view().channels == v.channels,
{
    if v.filter_only && v.query.len() > 0 {
        crate::search::lemma_hit_rows_bounds(v.channels, crate::text::lower(v.query), v.prog_match, v.channels.len());
    }
    let a = AppView { view: v.listed_channels(), ..v };
    let b = AppView { matches: a.channel_matches(), ..a };
    let c = if b.selected >= b.view.len() {
        AppView { selected: last_index(b.view.len()), ..b }
    } else {
        b
    };
    crate::app::lemma_navigation_keeps_selection_visible(c, 0, 0);
    assert(v.recompute_view() == c.clamp_scroll());
}

proof fn lemma_recompute_prog_view_kept(v: AppView)
    requires
        v.view_valid(),
        v.channels.len() <= usize::MAX,
        v.programmes.len() <= usize::MAX,
        v.view.len() <= usize::MAX,
    ensures
        kept(v, v.recompute_prog_view()),
        v.recompute_prog_view().prog_selection_visible(),
        v.recompute_prog_view().programmes == v.programmes,
        v.recompute_prog_view().channels == v.channels,
        v.recompute_prog_view().view == v.view,
{
    if v.filter_only && v.query.len() > 0 {
        crate::schedule::lemma_prog_rows_bounds(v.programmes, crate::text::lower(v.query), v.programmes.len());
    }
    let a = AppView { prog_view: v.listed_programmes(), ..v };
    let b = AppView { prog_matches: a.programme_matches(), ..a };
    let c = if b.prog_selected >= b.prog_view.len() {
        AppView { prog_selected: last_index(b.prog_view.len()), ..b }
    } else {
        b
    };
    crate::app::lemma_navigation_keeps_selection_visible(c, 0, 0);
    assert(v.recompute_prog_view() == c.clamp_prog_scroll());
}

proof fn lemma_cancel_search_kept(v: AppView)
    requires
        rows_valid(v),
    ensures
        kept(v, v.cancel_search()),
        v.cancel_search().programmes == v.programmes,
{
    let a = AppView {
        input: InputMode::Normal,
        query: Seq::empty(),
        matches: Seq::empty(),
        prog_match: Seq::empty(),
        filter_only: false,
        ..v
    };
    lemma_recompute_view_kept(a);
}

proof fn lemma_channel_moves_kept(v: AppView)
    requires
        rows_valid(v),
    ensures
        forall|d: int| #![trigger v.move_sel(d)] kept(v, v.move_sel(d)),
        forall|p: int, h: bool| #![trigger v.page(p, h)] kept(v, v.page(p, h)),
        forall|i: usize| #![trigger v.goto(i)] kept(v, v.goto(i)),
        forall|f: bool| #![trigger v.next_match(f)] kept(v, v.next_match(f)),
        kept(v, v.start_search()),
{
    assert forall|d: int| #![trigger v.move_sel(d)] kept(v, v.move_sel(d)) by {
        crate::app::lemma_navigation_keeps_selection_visible(v, d, 0);
    }
    assert forall|p: int, h: bool| #![trigger v.page(p, h)] kept(v, v.page(p, h)) by {
        crate::app::lemma_navigation_keeps_selection_visible(v, crate::app::page_step(v.viewport, h) * p, 0);
    }
    assert forall|i: usize| #![trigger v.goto(i)] kept(v, v.goto(i)) by {
        crate::app::lemma_navigation_keeps_selection_visible(v, 0, i);
    }
    assert forall|f: bool| #![trigger v.next_match(f)] kept(v, v.next_match(f)) by {
        if v.matches.len() > 0 {
            let n = v.matches.len();
            let p = next_pos(v.match_pos as int, n as int, f);
            let a = AppView { match_pos: p as usize, ..v };
            crate::app::lemma_navigation_keeps_selection_visible(a, 0, v.matches[p]);
        }
    }
}

proof fn lemma_prog_moves_kept(v: AppView)
    requires
        rows_valid(v),
    ensures
        forall|d: int| #![trigger v.move_prog(d)] kept(v, v.move_prog(d)),
        forall|p: int, h: bool| #![trigger v.prog_page(p, h)] kept(v, v.prog_page(p, h)),
        forall|i: usize| #![trigger v.prog_goto(i)] kept(v, v.prog_goto(i)),
        forall|f: bool| #![trigger v.next_prog_match(f)] kept(v, v.next_prog_match(f)),
        kept(v, v.jump_to_now()),
        kept(v, v.open_detail()),
        kept(v, v.start_search()),
{
    assert forall|d: int| #![trigger v.move_prog(d)] kept(v, v.move_prog(d)) by {
        crate::app::lemma_navigation_keeps_selection_visible(v, d, 0);
    }
    assert forall|p: int, h: bool| #![trigger v.prog_page(p, h)] kept(v, v.prog_page(p, h)) by {
        crate::app::lemma_navigation_keeps_selection_visible(v, crate::app::page_step(v.viewport, h) * p, 0);
    }
    assert forall|i: usize| #![trigger v.prog_goto(i)] kept(v, v.prog_goto(i)) by {
        crate::app::lemma_navigation_keeps_selection_visible(v, 0, i);
    }
    assert forall|f: bool| #![trigger v.next_prog_match(f)] kept(v, v.next_prog_match(f)) by {
        if v.prog_matches.len() > 0 {
            let n = v.prog_matches.len();
            let p = next_pos(v.prog_match_pos as int, n as int, f);
            let a = AppView { prog_match_pos: p as usize, ..v };
            crate::app::lemma_navigation_keeps_selection_visible(a, 0, v.prog_matches[p]);
        }
    }
    let best = match crate::schedule::first_airing(v.programmes, v.prog_view, v.now, v.prog_view.len()) {
        Some(k) => Some(k),
        None => crate::schedule::first_upcoming(v.programmes, v.prog_view, v.now, v.prog_view.len()),
    };
    match best {
        Some(k) => {
            crate::app::lemma_navigation_keeps_selection_visible(
                AppView { prog_selected: k as usize, ..v },
                0,
                0,
            );
        },
        None => {},
    }
}

proof fn lemma_confirm_search_kept(v: AppView, found: Result<Seq<(String, i64)>, Seq<char>>)
    requires
        rows_valid(v),
    ensures
        kept(v, v.confirm_search(found)),
{
    let a = v.confirm_refresh(found);
    assert(a.channels == v.channels && a.view == v.view && a.programmes == v.programmes
        && a.prog_view == v.prog_view && a.prog_selected == v.prog_selected
        && a.prog_offset == v.prog_offset && a.viewport == v.viewport);
    lemma_recompute_view_kept(a);
    let b = a.recompute_view();
    if b.matches.len() > 0 {
        let c = AppView { match_pos: 0, ..b };
        crate::app::lemma_navigation_keeps_selection_visible(c, 0, b.matches[0]);
    }
}

proof fn lemma_update_search_preview_kept(v: AppView)
    requires
        rows_valid(v),
    ensures
        kept(v, v.update_search_preview()),
{
    if v.mode == Mode::Programmes {
        lemma_recompute_prog_view_kept(v);
    } else {
        lemma_recompute_view_kept(v);
    }
}

proof fn lemma_search_key_kept(v: AppView, key: Key, r: Reply)
    requires
        rows_valid(v),
    ensures
        kept(v, v.search_key(key, r)),
{
    let a = AppView { pending_g: false, ..v };
    let c = key.code;
    if c == KeyCode::Esc {
        lemma_cancel_search_kept(a);
    } else if c == KeyCode::Enter {
        lemma_confirm_search_kept(a, reply_matches(r));
        let b = a.confirm_search(reply_matches(r));
        if b.mode == Mode::Programmes {
            lemma_recompute_prog_view_kept(b);
        }
    } else if c == KeyCode::Backspace {
        if a.query.len() == 0 {
            lemma_cancel_search_kept(a);
        } else {
            lemma_update_search_preview_kept(AppView { query: a.query.drop_last(), ..a });
        }
    } else {
        match c {
            KeyCode::Char(ch) => if key.plain {
                lemma_update_search_preview_kept(AppView { query: a.query.push(ch), ..a });
            },
            _ => {},
        }
    }
}

proof fn lemma_close_programmes_kept(v: AppView, found: Result<Seq<(String, i64)>, Seq<char>>)
    requires
        rows_valid(v),
    ensures
        kept(v, v.close_programmes(found).0),
{
    let a = AppView {
        mode: Mode::Channels,
        programmes: Seq::empty(),
        prog_view: Seq::empty(),
        prog_matches: Seq::empty(),
        cur_channel: None,
        ..v
    };
    assert(kept(v, a));
    if a.query.len() > 0 {
        let (b, _res) = a.refresh_prog_match(found);
        assert(kept(v, b));
        lemma_recompute_view_kept(b);
    }
}

proof fn lemma_esc_key_kept(v: AppView, r: Reply)
    requires
        rows_valid(v),
    ensures
        kept(v, v.esc_key(r)),
{
    let a = AppView { pending_g: false, ..v };
    match a.mode {
        Mode::Programmes => if a.query.len() > 0 || a.filter_only {
            lemma_cancel_search_kept(a);
            lemma_recompute_prog_view_kept(a.cancel_search());
        } else {
            lemma_close_programmes_kept(a, reply_matches(r));
        },
        Mode::Channels => if a.query.len() > 0 || a.filter_only {
            lemma_cancel_search_kept(a);
        },
        _ => {},
    }
}

proof fn lemma_reload_channels_kept(v: AppView, cs: Seq<ChannelRow>)
    requires
        rows_valid(v),
        cs.len() <= usize::MAX,
    ensures
        kept(v, v.reload_channels(Ok(cs)).0),
{
    let a = AppView { channels: cs, ..v };
    crate::sort::lemma_sorted_rows_stable(a.sort, cs);
    lemma_recompute_view_kept(a.apply_sort());
}

proof fn lemma_do_refresh_kept(v: AppView, r: Reply)
    requires
        rows_valid(v),
        reply_sized(r),
    ensures
        kept(v, v.do_refresh(r).0),
{
    if v.source_url.len() > 0 {
        match r {
            Reply::Refreshed(Ok((c, p, cs))) => {
                assert(reply_refresh(r) == Ok::<(usize, usize, Seq<ChannelRow>), Seq<char>>((c, p, cs@)));
                lemma_reload_channels_kept(v, cs@);
            },
            _ => {},
        }
    }
}

proof fn lemma_cycle_sort_kept(v: AppView)
    requires
        rows_valid(v),
    ensures
        kept(v, v.cycle_sort()),
{
    let s = match v.sort {
        SortMode::Name => SortMode::Count,
        SortMode::Count => SortMode::Name,
    };
    let msg = match s {
        SortMode::Name => "sort: name"@,
        SortMode::Count => "sort: count"@,
    };
    let a = AppView { sort: s, status: msg, ..v };
    crate::sort::lemma_sorted_rows_stable(s, v.channels);
    lemma_recompute_view_kept(a.apply_sort());
}

proof fn lemma_open_channel_kept(v: AppView, r: Reply)
    requires
        rows_valid(v),
        reply_sized(r),
    ensures
        kept(v, v.open_channel(reply_schedule(r)).0),
{
    match v.selected_channel() {
        None => {},
        Some(ch) => match r {
            Reply::Schedule(Ok(ps)) => {
                assert(reply_schedule(r) == Ok::<Seq<ProgrammeRow>, Seq<char>>(ps@));
                let a = AppView { programmes: ps@, cur_channel: Some(ch), ..v };
                lemma_recompute_prog_view_kept(a);
                let b = a.recompute_prog_view();
                lemma_prog_moves_kept(b);
            },
            _ => {},
        },
    }
}

proof fn lemma_toggle_filter_kept(v: AppView)
    requires
        rows_valid(v),
    ensures
        kept(v, v.toggle_filter()),
{
    if v.query.len() > 0 {
        lemma_recompute_view_kept(AppView { filter_only: !v.filter_only, ..v });
    }
}

#[verifier::rlimit(100)]
#[verifier::spinoff_prover]
proof fn lemma_channels_action_kept(v: AppView, key: Key, r: Reply)
    requires
        rows_valid(v),
        reply_sized(r),
    ensures
        kept(v, v.channels_action(key, r)),
{
    lemma_channel_moves_kept(v);
    let c = key.code;
    if c == KeyCode::Char('f') && !key.ctrl {
        lemma_toggle_filter_kept(v);
        lemma_recompute_view_kept(v.toggle_filter());
    } else if c == KeyCode::Char('s') {
        lemma_cycle_sort_kept(v);
    } else if is_open_key(c) {
        lemma_open_channel_kept(v, r);
    } else if c == KeyCode::Char('r') {
        lemma_do_refresh_kept(v.with_status("refreshing… (see stderr)"@), r);
    }
}

#[verifier::rlimit(100)]
#[verifier::spinoff_prover]
proof fn lemma_prog_action_kept(v: AppView, key: Key, r: Reply)
    requires
        rows_valid(v),
        reply_sized(r),
    ensures
        kept(v, v.prog_action(key, r)),
{
    lemma_prog_moves_kept(v);
    let c = key.code;
    if c == KeyCode::Char('f') && !key.ctrl {
        lemma_toggle_filter_kept(v);
        let t = v.toggle_filter();
        lemma_recompute_prog_view_kept(t);
    } else if is_back_key(c) && !key.ctrl {
        lemma_close_programmes_kept(v, reply_matches(r));
    } else if c == KeyCode::Char('r') {
        lemma_do_refresh_kept(v, r);
    }
}

proof fn lemma_detail_key_kept(v: AppView, key: Key)
    requires
        rows_valid(v),
    ensures
        kept(v, v.detail_key(key)),
{
}

/// Whatever key is pressed and however the outside work it needed turned
/// out, every listed row still names an existing channel and every listed
/// programme an existing programme; and when the highlighted channel and
/// programme were listed rows inside their windows, they still are.
#[verifier::rlimit(90)]
pub proof fn lemma_keys_keep_the_screen_consistent(v: AppView, key: Key, r: Reply)
    requires
        rows_valid(v),
        reply_sized(r),
    ensures
        rows_valid(v.handle_key(key, r)),
        on_screen(v) ==> on_screen(v.handle_key(key, r)),
{
    let c = key.code;
    let w = v.handle_key(key, r);
    if v.input == InputMode::Search {
        lemma_search_key_kept(v, key, r);
        assert(w == v.search_key(key, r));
    } else if c == KeyCode::Char('?') || c == KeyCode::Char('q') {
        assert(kept(v, w));
    } else if c == KeyCode::Esc {
        lemma_esc_key_kept(v, r);
        assert(w == v.esc_key(r));
    } else {
        match v.mode {
            Mode::Channels => {
                lemma_channels_action_kept(v, key, r);
                let a = v.channels_action(key, r);
                assert(w == a || w == AppView { pending_g: false, ..a });
            },
            Mode::Programmes => {
                lemma_prog_action_kept(v, key, r);
                let a = v.prog_action(key, r);
                assert(w == a || w == AppView { pending_g: false, ..a });
            },
            Mode::Detail => {
                lemma_detail_key_kept(v, key);
                assert(w == v.detail_key(key));
            },
            Mode::Help => {
                assert(w == v);
            },
        }
    }
}

} // verus!
