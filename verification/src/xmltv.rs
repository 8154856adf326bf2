//! The XMLTV format: its date strings, and the importer that turns the
//! events of an XMLTV document into channel and programme records.
//!
//! A document is `<tv>` holding `<channel id=..>` elements (with a
//! `<display-name>` and an `<icon src=..>`) and `<programme channel=..
//! start=.. stop=..>` elements (with a `<title>` and a `<desc>`). The
//! importer consumes the document's events one at a time and says, for
//! each, which record (if any) is complete and whether progress is due.
use vstd::prelude::*;

use crate::text::{append, chars_of, clear_string, owned, string_of, text_eq, trim, trim_chars};

verus! {

// ---------------------------------------------------------------------------
// Numbers and dates
// ---------------------------------------------------------------------------

/// The value of a string of decimal digits.
pub open spec fn digits_value(s: Seq<char>) -> int
    decreases s.len(),
{
    if s.len() == 0 {
        0
    } else {
        digits_value(s.drop_last()) * 10 + (s.last() as int - '0' as int)
    }
}

/// Every character is a decimal digit.
pub open spec fn all_digits(s: Seq<char>) -> bool {
    forall|i: int| 0 <= i < s.len() ==> '0' <= #[trigger] s[i] <= '9'
}

/// `i64`'s `FromStr`: an optional `+` or `-`, then one or more decimal
/// digits, with a value that fits.
pub open spec fn spec_parse_i64(s: Seq<char>) -> Option<i64> {
    let neg = s.len() > 0 && s[0] == '-';
    let body = if s.len() > 0 && (s[0] == '-' || s[0] == '+') {
        s.drop_first()
    } else {
        s
    };
    if body.len() == 0 || !all_digits(body) {
        None
    } else {
        let v = if neg {
            -digits_value(body)
        } else {
            digits_value(body)
        };
        if i64::MIN <= v <= i64::MAX {
            Some(v as i64)
        } else {
            None
        }
    }
}

/// Calls `str::parse::<i64>`, which std documents as an optional sign
/// followed by digits whose value fits.
#[verifier::external_body]
fn parse_i64(s: &str) -> (r: Option<i64>)
    ensures
        r == spec_parse_i64(s@),
{
    s.parse::<i64>().ok()
}

/// The unix time chrono's `DateTime::parse_from_str` reads from `text` in
/// `format` (which must give an offset), if it reads one.
pub uninterp spec fn offset_datetime_parse(text: Seq<char>, format: Seq<char>) -> Option<i64>;

/// The unix time chrono's `NaiveDateTime::parse_from_str` reads from `text`
/// in `format`, taken as UTC, if it reads one.
pub uninterp spec fn naive_datetime_parse(text: Seq<char>, format: Seq<char>) -> Option<i64>;

/// Calls `chrono::DateTime::parse_from_str` and takes the timestamp of what
/// it parsed; the result is named `offset_datetime_parse`.
#[verifier::external_body]
fn parse_offset_datetime(text: &str, format: &str) -> (r: Option<i64>)
    ensures
        r == offset_datetime_parse(text@, format@),
{
    match chrono::DateTime::parse_from_str(text, format) {
        Ok(dt) => Some(dt.timestamp()),
        Err(_) => None,
    }
}

/// Calls `chrono::NaiveDateTime::parse_from_str` and takes the timestamp of
/// what it parsed, read as UTC; the result is named `naive_datetime_parse`.
#[verifier::external_body]
fn parse_naive_datetime(text: &str, format: &str) -> (r: Option<i64>)
    ensures
        r == naive_datetime_parse(text@, format@),
{
    match chrono::NaiveDateTime::parse_from_str(text, format) {
        Ok(ndt) => Some(ndt.and_utc().timestamp()),
        Err(_) => None,
    }
}

/// An XMLTV date (`YYYYMMDDHHMMSS ±ZZZZ`, the space optional, the offset
/// optional and then UTC) as a unix time: the trimmed text is read with an
/// offset after a space, else with an offset directly after the seconds,
/// else without an offset.
pub open spec fn spec_parse_xmltv_date(s: Seq<char>) -> Option<i64> {
    let t = trim(s);
    if t.len() == 0 {
        None
    } else if offset_datetime_parse(t, "%Y%m%d%H%M%S %z"@) is Some {
        offset_datetime_parse(t, "%Y%m%d%H%M%S %z"@)
    } else if offset_datetime_parse(t, "%Y%m%d%H%M%S%z"@) is Some {
        offset_datetime_parse(t, "%Y%m%d%H%M%S%z"@)
    } else {
        naive_datetime_parse(t, "%Y%m%d%H%M%S"@)
    }
}

/// Parses an XMLTV date string like `20260816022600 +0300` into a unix
/// timestamp.
pub fn parse_xmltv_date(s: &str) -> (r: Option<i64>)
    ensures
        r == spec_parse_xmltv_date(s@),
{
    let cs = chars_of(s);
    let tc = trim_chars(&cs);
    if tc.len() == 0 {
        return None;
    }
    let t = string_of(&tc);
    let a = parse_offset_datetime(t.as_str(), "%Y%m%d%H%M%S %z");
    if a.is_some() {
        return a;
    }
    let b = parse_offset_datetime(t.as_str(), "%Y%m%d%H%M%S%z");
    if b.is_some() {
        return b;
    }
    parse_naive_datetime(t.as_str(), "%Y%m%d%H%M%S")
}

/// An empty or blank date string is no date.
pub proof fn lemma_blank_date_is_none(s: Seq<char>)
    requires
        trim(s).len() == 0,
    ensures
        spec_parse_xmltv_date(s) is None,
{
}

// ---------------------------------------------------------------------------
// Events of an XML document
// ---------------------------------------------------------------------------

/// An element's tag: its name and its attributes (key, value), in order.
#[derive(Debug)]
pub struct XmlTag {
    pub name: String,
    pub attrs: Vec<(String, String)>,
}

/// One event of an XML document, as a streaming reader reports it, text
/// already unescaped.
#[derive(Debug)]
pub enum XmlEvent {
    Start(XmlTag),
    Empty(XmlTag),
    Text(String),
    End(String),
    Eof,
    Other,
}

/// The value of the first attribute named `key`.
pub open spec fn attr_value(attrs: Seq<(String, String)>, key: Seq<char>) -> Option<Seq<char>>
    decreases attrs.len(),
{
    if attrs.len() == 0 {
        None
    } else {
        match attr_value(attrs.drop_last(), key) {
            Some(v) => Some(v),
            None => if attrs.last().0@ == key {
                Some(attrs.last().1@)
            } else {
                None
            },
        }
    }
}

/// An optional string as an optional sequence of characters.
pub open spec fn opt_view(o: Option<String>) -> Option<Seq<char>> {
    match o {
        Some(s) => Some(s@),
        None => None,
    }
}

/// The value of the first attribute named `key`, if any.
pub fn attr(attrs: &Vec<(String, String)>, key: &str) -> (r: Option<String>)
    ensures
        opt_view(r) == attr_value(attrs@, key@),
{
    let mut i: usize = 0;
    assert(attrs@.take(0) =~= Seq::<(String, String)>::empty());
    while i < attrs.len()
        invariant
            i <= attrs@.len(),
            attr_value(attrs@.take(i as int), key@) is None,
        decreases attrs.len() - i,
    {
        assert(attrs@.take(i + 1).drop_last() =~= attrs@.take(i as int));
        if text_eq(attrs[i].0.as_str(), key) {
            proof {
                assert(attr_value(attrs@.take(i + 1), key@) == Some(attrs@[i as int].1@));
                lemma_attr_prefix(attrs@, key@, (i + 1) as nat);
            }
            return Some(attrs[i].1.clone());
        }
        i = i + 1;
    }
    assert(attrs@.take(attrs@.len() as int) =~= attrs@);
    None
}

proof fn lemma_attr_prefix(attrs: Seq<(String, String)>, key: Seq<char>, k: nat)
    requires
        k <= attrs.len(),
        attr_value(attrs.take(k as int), key) is Some,
    ensures
        attr_value(attrs, key) == attr_value(attrs.take(k as int), key),
    decreases attrs.len() - k,
{
    if k < attrs.len() {
        assert(attrs.take(k + 1 as int).drop_last() =~= attrs.take(k as int));
        lemma_attr_prefix(attrs, key, k + 1);
    } else {
        assert(attrs.take(k as int) =~= attrs);
    }
}

// ---------------------------------------------------------------------------
// The importer
// ---------------------------------------------------------------------------

/// Where the importer is in the document.
#[derive(Debug, Clone, Copy, PartialEq, Eq, Structural)]
pub enum ParseState {
    Outside,
    Channel,
    DisplayName,
    Programme,
    Title,
    Desc,
}

/// A channel read from the document.
#[derive(Debug)]
pub struct ChannelRecord {
    pub channel_id: String,
    pub display_name: String,
    pub icon: Option<String>,
}

/// A programme read from the document.
#[derive(Debug)]
pub struct ProgrammeRecord {
    pub channel_id: String,
    pub start_ts: i64,
    pub stop_ts: i64,
    pub start_text: String,
    pub stop_text: String,
    pub title: String,
    pub desc: String,
}

/// The record an event completes, if any.
#[derive(Debug)]
pub enum Insert {
    Nothing,
    Channel(ChannelRecord),
    Programme(ProgrammeRecord),
}

/// Whether the document goes on, ended properly, or ended without `</tv>`.
#[derive(Debug, Clone, Copy, PartialEq, Eq, Structural)]
pub enum Outcome {
    Continue,
    Finished,
    Incomplete,
}

/// What one event yields: a completed record, whether progress is due, and
/// whether the document ended.
#[derive(Debug)]
pub struct Step {
    pub insert: Insert,
    pub progress: bool,
    pub outcome: Outcome,
}

/// The importer's state between events.
pub struct Importer {
    pub state: ParseState,
    pub chan_id: String,
    pub chan_name: String,
    pub chan_icon: Option<String>,
    pub chan_has_name: bool,
    pub prog_channel: String,
    pub prog_start_ts: i64,
    pub prog_stop_ts: i64,
    pub prog_start_text: String,
    pub prog_stop_text: String,
    pub prog_title: String,
    pub prog_desc: String,
    pub text_buf: String,
    pub n_chan: usize,
    pub n_prog: usize,
    pub completed_tv: bool,
}

/// The model of the importer: its fields with strings as sequences.
#[verifier::ext_equal]
pub struct ImporterView {
    pub state: ParseState,
    pub chan_id: Seq<char>,
    pub chan_name: Seq<char>,
    pub chan_icon: Option<Seq<char>>,
    pub chan_has_name: bool,
    pub prog_channel: Seq<char>,
    pub prog_start_ts: i64,
    pub prog_stop_ts: i64,
    pub prog_start_text: Seq<char>,
    pub prog_stop_text: Seq<char>,
    pub prog_title: Seq<char>,
    pub prog_desc: Seq<char>,
    pub text_buf: Seq<char>,
    pub n_chan: nat,
    pub n_prog: nat,
    pub completed_tv: bool,
}

impl View for Importer {
    type V = ImporterView;

    open spec fn view(&self) -> ImporterView {
        ImporterView {
            state: self.state,
            chan_id: self.chan_id@,
            chan_name: self.chan_name@,
            chan_icon: opt_view(self.chan_icon),
            chan_has_name: self.chan_has_name,
            prog_channel: self.prog_channel@,
            prog_start_ts: self.prog_start_ts,
            prog_stop_ts: self.prog_stop_ts,
            prog_start_text: self.prog_start_text@,
            prog_stop_text: self.prog_stop_text@,
            prog_title: self.prog_title@,
            prog_desc: self.prog_desc@,
            text_buf: self.text_buf@,
            n_chan: self.n_chan as nat,
            n_prog: self.n_prog as nat,
            completed_tv: self.completed_tv,
        }
    }
}

/// A completed record, with strings as sequences.
pub enum InsertView {
    Nothing,
    Channel { channel_id: Seq<char>, display_name: Seq<char>, icon: Option<Seq<char>> },
    Programme {
        channel_id: Seq<char>,
        start_ts: i64,
        stop_ts: i64,
        start_text: Seq<char>,
        stop_text: Seq<char>,
        title: Seq<char>,
        desc: Seq<char>,
    },
}

/// The model of a step.
pub struct StepView {
    pub insert: InsertView,
    pub progress: bool,
    pub outcome: Outcome,
}

/// A step as its model.
pub open spec fn step_view(s: Step) -> StepView {
    StepView {
        insert: match s.insert {
            Insert::Nothing => InsertView::Nothing,
            Insert::Channel(c) => InsertView::Channel {
                channel_id: c.channel_id@,
                display_name: c.display_name@,
                icon: opt_view(c.icon),
            },
            Insert::Programme(p) => InsertView::Programme {
                channel_id: p.channel_id@,
                start_ts: p.start_ts,
                stop_ts: p.stop_ts,
                start_text: p.start_text@,
                stop_text: p.stop_text@,
                title: p.title@,
                desc: p.desc@,
            },
        },
        progress: s.progress,
        outcome: s.outcome,
    }
}

/// The value of an optional attribute, or nothing.
pub open spec fn or_empty(o: Option<Seq<char>>) -> Seq<char> {
    match o {
        Some(v) => v,
        None => Seq::empty(),
    }
}

/// A programme's time: the `*_timestamp` attribute when it holds an
/// integer, else the date string parsed, else 0.
pub open spec fn programme_time(stamp: Option<Seq<char>>, text: Seq<char>) -> i64 {
    match stamp {
        Some(s) if spec_parse_i64(s) is Some => spec_parse_i64(s)->0,
        _ => match spec_parse_xmltv_date(text) {
            Some(t) => t,
            None => 0,
        },
    }
}

/// Nothing completed, no progress, the document goes on.
pub open spec fn quiet() -> StepView {
    StepView { insert: InsertView::Nothing, progress: false, outcome: Outcome::Continue }
}

impl ImporterView {
    /// The state after the start tag of an element.
    pub open spec fn start(self, tag: XmlTag) -> ImporterView {
        let n = tag.name@;
        let attrs = tag.attrs@;
        if n == "channel"@ {
            ImporterView {
                chan_id: or_empty(attr_value(attrs, "id"@)),
                chan_name: Seq::empty(),
                chan_icon: None,
                chan_has_name: false,
                state: ParseState::Channel,
                ..self
            }
        } else if n == "programme"@ {
            let start_text = or_empty(attr_value(attrs, "start"@));
            let stop_text = or_empty(attr_value(attrs, "stop"@));
            ImporterView {
                prog_channel: or_empty(attr_value(attrs, "channel"@)),
                prog_start_text: start_text,
                prog_stop_text: stop_text,
                prog_start_ts: programme_time(attr_value(attrs, "start_timestamp"@), start_text),
                prog_stop_ts: programme_time(attr_value(attrs, "stop_timestamp"@), stop_text),
                prog_title: Seq::empty(),
                prog_desc: Seq::empty(),
                state: ParseState::Programme,
                ..self
            }
        } else if n == "display-name"@ && self.state == ParseState::Channel {
            ImporterView { text_buf: Seq::empty(), state: ParseState::DisplayName, ..self }
        } else if n == "icon"@ && self.state == ParseState::Channel && self.chan_icon is None {
            ImporterView { chan_icon: attr_value(attrs, "src"@), ..self }
        } else if n == "title"@ && self.state == ParseState::Programme {
            ImporterView { text_buf: Seq::empty(), state: ParseState::Title, ..self }
        } else if n == "desc"@ && self.state == ParseState::Programme {
            ImporterView { text_buf: Seq::empty(), state: ParseState::Desc, ..self }
        } else {
            self
        }
    }

    /// The state after an empty element (`<icon .. />`).
    pub open spec fn empty(self, tag: XmlTag) -> ImporterView {
        if tag.name@ == "icon"@ && self.state == ParseState::Channel && self.chan_icon is None {
            ImporterView { chan_icon: attr_value(tag.attrs@, "src"@), ..self }
        } else {
            self
        }
    }

    /// The state after text: kept when inside a name, title or description.
    pub open spec fn text(self, t: Seq<char>) -> ImporterView {
        if self.state == ParseState::DisplayName || self.state == ParseState::Title || self.state
            == ParseState::Desc {
            ImporterView { text_buf: self.text_buf + t, ..self }
        } else {
            self
        }
    }

    /// The state and step after an end tag.
    pub open spec fn end(self, n: Seq<char>) -> (ImporterView, StepView) {
        if n == "tv"@ {
            (ImporterView { completed_tv: true, state: ParseState::Outside, ..self }, quiet())
        } else if n == "channel"@ {
            let has = self.chan_id.len() > 0;
            let count = if has {
                self.n_chan + 1
            } else {
                self.n_chan
            };
            let ins = if has {
                InsertView::Channel {
                    channel_id: self.chan_id,
                    display_name: if self.chan_name.len() == 0 {
                        self.chan_id
                    } else {
                        self.chan_name
                    },
                    icon: self.chan_icon,
                }
            } else {
                InsertView::Nothing
            };
            (
                ImporterView { n_chan: count, state: ParseState::Outside, ..self },
                StepView { insert: ins, progress: count % 500 == 0, outcome: Outcome::Continue },
            )
        } else if n == "programme"@ {
            let has = self.prog_channel.len() > 0;
            let count = if has {
                self.n_prog + 1
            } else {
                self.n_prog
            };
            let ins = if has {
                InsertView::Programme {
                    channel_id: self.prog_channel,
                    start_ts: self.prog_start_ts,
                    stop_ts: self.prog_stop_ts,
                    start_text: self.prog_start_text,
                    stop_text: self.prog_stop_text,
                    title: self.prog_title,
                    desc: self.prog_desc,
                }
            } else {
                InsertView::Nothing
            };
            (
                ImporterView { n_prog: count, state: ParseState::Outside, ..self },
                StepView { insert: ins, progress: count % 5000 == 0, outcome: Outcome::Continue },
            )
        } else if n == "display-name"@ && self.state == ParseState::DisplayName {
            if !self.chan_has_name {
                (
                    ImporterView {
                        chan_name: self.text_buf,
                        text_buf: Seq::empty(),
                        chan_has_name: true,
                        state: ParseState::Channel,
                        ..self
                    },
                    quiet(),
                )
            } else {
                (ImporterView { state: ParseState::Channel, ..self }, quiet())
            }
        } else if n == "title"@ && self.state == ParseState::Title {
            (
                ImporterView {
                    prog_title: self.text_buf,
                    text_buf: Seq::empty(),
                    state: ParseState::Programme,
                    ..self
                },
                quiet(),
            )
        } else if n == "desc"@ && self.state == ParseState::Desc {
            (
                ImporterView {
                    prog_desc: self.text_buf,
                    text_buf: Seq::empty(),
                    state: ParseState::Programme,
                    ..self
                },
                quiet(),
            )
        } else {
            (self, quiet())
        }
    }

    /// The state and step after any event.
    pub open spec fn feed(self, ev: XmlEvent) -> (ImporterView, StepView) {
        match ev {
            XmlEvent::Start(tag) => (self.start(tag), quiet()),
            XmlEvent::Empty(tag) => (self.empty(tag), quiet()),
            XmlEvent::Text(t) => (self.text(t@), quiet()),
            XmlEvent::End(n) => self.end(n@),
            XmlEvent::Eof => (
                self,
                StepView {
                    insert: InsertView::Nothing,
                    progress: false,
                    outcome: if self.completed_tv {
                        Outcome::Finished
                    } else {
                        Outcome::Incomplete
                    },
                },
            ),
            XmlEvent::Other => (self, quiet()),
        }
    }
}

/// A programme's explicit timestamp attribute wins over its date string.
pub proof fn lemma_timestamp_attribute_wins(v: ImporterView, tag: XmlTag)
    requires
        tag.name@ == "programme"@,
        attr_value(tag.attrs@, "start_timestamp"@) matches Some(s) && spec_parse_i64(s) is Some,
    ensures
        v.start(tag).prog_start_ts == spec_parse_i64(attr_value(tag.attrs@, "start_timestamp"@)->0)->0,
{
    reveal_strlit("programme");
    reveal_strlit("channel");
    assert("programme"@.len() != "channel"@.len());
}

/// A channel without a display name is stored under its id as its name.
pub proof fn lemma_channel_name_falls_back_to_id(v: ImporterView)
    requires
        v.chan_id.len() > 0,
        v.chan_name.len() == 0,
    ensures
        v.end("channel"@).1.insert == (InsertView::Channel {
            channel_id: v.chan_id,
            display_name: v.chan_id,
            icon: v.chan_icon,
        }),
{
    reveal_strlit("channel");
    reveal_strlit("tv");
    assert("channel"@.len() != "tv"@.len());
}

/// The end of the document before `</tv>` is an incomplete document.
pub proof fn lemma_missing_end_of_tv_is_incomplete(v: ImporterView)
    requires
        !v.completed_tv,
    ensures
        v.feed(XmlEvent::Eof).1.outcome == Outcome::Incomplete,
{
}

/// Once a channel has its name, later display names do not replace it.
pub proof fn lemma_first_display_name_wins(v: ImporterView)
    requires
        v.state == ParseState::DisplayName,
        v.chan_has_name,
    ensures
        v.end("display-name"@).0.chan_name == v.chan_name,
{
}

/// The importer's counts count the records it hands out: each event adds
/// one to the channels for a channel record and one to the programmes for a
/// programme record, and nothing otherwise.
pub proof fn lemma_counts_count_records(v: ImporterView, ev: XmlEvent)
    ensures
        v.feed(ev).0.n_chan == v.n_chan + (if v.feed(ev).1.insert is Channel {
            1int
        } else {
            0int
        }),
        v.feed(ev).0.n_prog == v.n_prog + (if v.feed(ev).1.insert is Programme {
            1int
        } else {
            0int
        }),
{
}

/// The importer's state after the events `evs`, and what each of them
/// yielded, in order.
pub open spec fn feed_all(v: ImporterView, evs: Seq<XmlEvent>) -> (ImporterView, Seq<StepView>)
    decreases evs.len(),
{
    if evs.len() == 0 {
        (v, Seq::empty())
    } else {
        let (w, steps) = feed_all(v, evs.drop_last());
        let (x, st) = w.feed(evs.last());
        (x, steps.push(st))
    }
}

/// How many of the steps hand out a channel record.
pub open spec fn channel_records(steps: Seq<StepView>) -> nat
    decreases steps.len(),
{
    if steps.len() == 0 {
        0
    } else {
        channel_records(steps.drop_last()) + if steps.last().insert is Channel {
            1nat
        } else {
            0nat
        }
    }
}

/// How many of the steps hand out a programme record.
pub open spec fn programme_records(steps: Seq<StepView>) -> nat
    decreases steps.len(),
{
    if steps.len() == 0 {
        0
    } else {
        programme_records(steps.drop_last()) + if steps.last().insert is Programme {
            1nat
        } else {
            0nat
        }
    }
}

/// Over a whole document, the importer's counts are the numbers of channel
/// and programme records it handed out (a channel element without an id and
/// a programme element without a channel hand out none), one step per event,
/// and the counts never go down as the document is read.
pub proof fn lemma_document_counts(v: ImporterView, evs: Seq<XmlEvent>)
    ensures
        feed_all(v, evs).0.n_chan == v.n_chan + channel_records(feed_all(v, evs).1),
        feed_all(v, evs).0.n_prog == v.n_prog + programme_records(feed_all(v, evs).1),
        feed_all(v, evs).1.len() == evs.len(),
        forall|i: int, j: int|
            0 <= i <= j <= evs.len() ==> feed_all(v, evs.take(i)).0.n_chan <= feed_all(
                v,
                #[trigger] evs.take(j),
            ).0.n_chan && feed_all(v, #[trigger] evs.take(i)).0.n_prog <= feed_all(
                v,
                evs.take(j),
            ).0.n_prog,
    decreases evs.len(),
{
    if evs.len() > 0 {
        let prev = evs.drop_last();
        lemma_document_counts(v, prev);
        let (w, steps) = feed_all(v, prev);
        lemma_counts_count_records(w, evs.last());
        assert(feed_all(v, evs).1.drop_last() =~= steps);
        assert forall|i: int, j: int| 0 <= i <= j <= evs.len() implies feed_all(
            v,
            evs.take(i),
        ).0.n_chan <= feed_all(v, #[trigger] evs.take(j)).0.n_chan && feed_all(
            v,
            #[trigger] evs.take(i),
        ).0.n_prog <= feed_all(v, evs.take(j)).0.n_prog by {
            if j == evs.len() {
                assert(evs.take(j) =~= evs);
                if i < j {
                    assert(evs.take(i) =~= prev.take(i));
                    assert(prev.take(prev.len() as int) =~= prev);
                } else {
                    assert(evs.take(i) =~= evs);
                }
            } else {
                assert(evs.take(i) =~= prev.take(i));
                assert(evs.take(j) =~= prev.take(j));
            }
        }
    }
}

/// The event starts an element named `name`.
pub open spec fn starts_element(ev: XmlEvent, name: Seq<char>) -> bool {
    ev matches XmlEvent::Start(t) && t.name@ == name
}

proof fn lemma_no_desc_keeps_desc_empty(v: ImporterView, evs: Seq<XmlEvent>)
    requires
        v.prog_desc == Seq::<char>::empty(),
        v.state != ParseState::Desc,
        forall|i: int| 0 <= i < evs.len() ==> !starts_element(#[trigger] evs[i], "desc"@),
    ensures
        feed_all(v, evs).0.prog_desc == Seq::<char>::empty(),
        feed_all(v, evs).0.state != ParseState::Desc,
    decreases evs.len(),
{
    if evs.len() > 0 {
        let prev = evs.drop_last();
        assert forall|i: int| 0 <= i < prev.len() implies !starts_element(#[trigger] prev[i], "desc"@) by {
            assert(prev[i] == evs[i]);
        }
        lemma_no_desc_keeps_desc_empty(v, prev);
        assert(!starts_element(evs[evs.len() - 1], "desc"@));
    }
}

/// A programme record's description comes from a `<desc>` inside that
/// programme: when no `<desc>` starts between the programme's start tag and
/// its end tag, the record handed out at the end has an empty description,
/// whatever the programmes before it held.
pub proof fn lemma_programme_without_desc_has_no_desc(v: ImporterView, tag: XmlTag, evs: Seq<XmlEvent>)
    requires
        tag.name@ == "programme"@,
        forall|i: int| 0 <= i < evs.len() ==> !starts_element(#[trigger] evs[i], "desc"@),
    ensures
        feed_all(v.start(tag), evs).0.prog_desc == Seq::<char>::empty(),
        feed_all(v.start(tag), evs).0.end("programme"@).1.insert matches InsertView::Programme {
            desc,
            ..
        } ==> desc == Seq::<char>::empty(),
{
    reveal_strlit("programme");
    reveal_strlit("channel");
    assert("programme"@.len() != "channel"@.len());
    lemma_no_desc_keeps_desc_empty(v.start(tag), evs);
}

/// The event is an element named `name`, started or empty.
pub open spec fn has_element(ev: XmlEvent, name: Seq<char>) -> bool {
    ||| ev matches XmlEvent::Start(t) && t.name@ == name
    ||| ev matches XmlEvent::Empty(t) && t.name@ == name
}

proof fn lemma_no_title_keeps_title_empty(v: ImporterView, evs: Seq<XmlEvent>)
    requires
        v.prog_title == Seq::<char>::empty(),
        v.state != ParseState::Title,
        forall|i: int| 0 <= i < evs.len() ==> !starts_element(#[trigger] evs[i], "title"@),
    ensures
        feed_all(v, evs).0.prog_title == Seq::<char>::empty(),
        feed_all(v, evs).0.state != ParseState::Title,
    decreases evs.len(),
{
    if evs.len() > 0 {
        let prev = evs.drop_last();
        assert forall|i: int| 0 <= i < prev.len() implies !starts_element(#[trigger] prev[i], "title"@) by {
            assert(prev[i] == evs[i]);
        }
        lemma_no_title_keeps_title_empty(v, prev);
        assert(!starts_element(evs[evs.len() - 1], "title"@));
    }
}

/// Likewise a programme record's title comes from a `<title>` inside that
/// programme, and is empty when none starts before the programme ends.
pub proof fn lemma_programme_without_title_has_no_title(v: ImporterView, tag: XmlTag, evs: Seq<XmlEvent>)
    requires
        tag.name@ == "programme"@,
        forall|i: int| 0 <= i < evs.len() ==> !starts_element(#[trigger] evs[i], "title"@),
    ensures
        feed_all(v.start(tag), evs).0.end("programme"@).1.insert matches InsertView::Programme {
            title,
            ..
        } ==> title == Seq::<char>::empty(),
{
    reveal_strlit("programme");
    reveal_strlit("channel");
    assert("programme"@.len() != "channel"@.len());
    lemma_no_title_keeps_title_empty(v.start(tag), evs);
}

proof fn lemma_no_name_keeps_name_empty(v: ImporterView, evs: Seq<XmlEvent>)
    requires
        v.chan_name == Seq::<char>::empty(),
        v.state != ParseState::DisplayName,
        forall|i: int| 0 <= i < evs.len() ==> !starts_element(#[trigger] evs[i], "display-name"@),
    ensures
        feed_all(v, evs).0.chan_name == Seq::<char>::empty(),
        feed_all(v, evs).0.state != ParseState::DisplayName,
    decreases evs.len(),
{
    if evs.len() > 0 {
        let prev = evs.drop_last();
        assert forall|i: int| 0 <= i < prev.len() implies !starts_element(
            #[trigger] prev[i],
            "display-name"@,
        ) by {
            assert(prev[i] == evs[i]);
        }
        lemma_no_name_keeps_name_empty(v, prev);
        assert(!starts_element(evs[evs.len() - 1], "display-name"@));
    }
}

proof fn lemma_no_icon_keeps_icon_none(v: ImporterView, evs: Seq<XmlEvent>)
    requires
        v.chan_icon is None,
        forall|i: int| 0 <= i < evs.len() ==> !has_element(#[trigger] evs[i], "icon"@),
    ensures
        feed_all(v, evs).0.chan_icon is None,
    decreases evs.len(),
{
    if evs.len() > 0 {
        let prev = evs.drop_last();
        assert forall|i: int| 0 <= i < prev.len() implies !has_element(#[trigger] prev[i], "icon"@) by {
            assert(prev[i] == evs[i]);
        }
        lemma_no_icon_keeps_icon_none(v, prev);
        assert(!has_element(evs[evs.len() - 1], "icon"@));
    }
}

/// A channel record's name and icon come from inside that channel element:
/// when no `<display-name>` starts before the channel ends, the record is
/// named by its id, and when no `<icon>` appears, it has no icon, whatever
/// the channels before it held.
pub proof fn lemma_channel_fields_come_from_its_element(v: ImporterView, tag: XmlTag, evs: Seq<XmlEvent>)
    requires
        tag.name@ == "channel"@,
    ensures
        (forall|i: int| 0 <= i < evs.len() ==> !starts_element(#[trigger] evs[i], "display-name"@))
            ==> (feed_all(v.start(tag), evs).0.end("channel"@).1.insert matches InsertView::Channel {
            channel_id,
            display_name,
            ..
        } ==> display_name == channel_id),
        (forall|i: int| 0 <= i < evs.len() ==> !has_element(#[trigger] evs[i], "icon"@)) ==> (feed_all(
            v.start(tag),
            evs,
        ).0.end("channel"@).1.insert matches InsertView::Channel { icon, .. } ==> icon is None),
{
    if forall|i: int| 0 <= i < evs.len() ==> !starts_element(#[trigger] evs[i], "display-name"@) {
        lemma_no_name_keeps_name_empty(v.start(tag), evs);
    }
    if forall|i: int| 0 <= i < evs.len() ==> !has_element(#[trigger] evs[i], "icon"@) {
        lemma_no_icon_keeps_icon_none(v.start(tag), evs);
    }
}

fn or_empty_exec(o: Option<String>) -> (r: String)
    ensures
        r@ == or_empty(opt_view(o)),
{
    match o {
        Some(s) => s,
        None => String::new(),
    }
}

fn take_string(s: &mut String) -> (r: String)
    ensures
        r@ == old(s)@,
        final(s)@ == Seq::<char>::empty(),
{
    let r = s.clone();
    clear_string(s);
    r
}

fn programme_time_exec(stamp: Option<String>, text: &String) -> (r: i64)
    ensures
        r == programme_time(opt_view(stamp), text@),
{
    match stamp {
        Some(s) => match parse_i64(s.as_str()) {
            Some(v) => {
                return v;
            },
            None => {},
        },
        None => {},
    }
    match parse_xmltv_date(text.as_str()) {
        Some(t) => t,
        None => 0,
    }
}

impl Importer {
    /// An importer at the start of a document.
    pub fn new() -> (r: Importer)
        ensures
            r@ == (ImporterView {
                state: ParseState::Outside,
                chan_id: Seq::empty(),
                chan_name: Seq::empty(),
                chan_icon: None,
                chan_has_name: false,
                prog_channel: Seq::empty(),
                prog_start_ts: 0,
                prog_stop_ts: 0,
                prog_start_text: Seq::empty(),
                prog_stop_text: Seq::empty(),
                prog_title: Seq::empty(),
                prog_desc: Seq::empty(),
                text_buf: Seq::empty(),
                n_chan: 0,
                n_prog: 0,
                completed_tv: false,
            }),
    {
        Importer {
            state: ParseState::Outside,
            chan_id: String::new(),
            chan_name: String::new(),
            chan_icon: None,
            chan_has_name: false,
            prog_channel: String::new(),
            prog_start_ts: 0,
            prog_stop_ts: 0,
            prog_start_text: String::new(),
            prog_stop_text: String::new(),
            prog_title: String::new(),
            prog_desc: String::new(),
            text_buf: String::new(),
            n_chan: 0,
            n_prog: 0,
            completed_tv: false,
        }
    }

    /// Whether text read now is kept: inside a display name, a title or a
    /// description.
    pub fn keeps_text(&self) -> (r: bool)
        ensures
            r == (self.state == ParseState::DisplayName || self.state == ParseState::Title
                || self.state == ParseState::Desc),
    {
        self.state == ParseState::DisplayName || self.state == ParseState::Title || self.state
            == ParseState::Desc
    }

    /// The numbers of channels and programmes read so far.
    pub fn counts(&self) -> (r: (usize, usize))
        ensures
            r.0 == self.n_chan && r.1 == self.n_prog,
    {
        (self.n_chan, self.n_prog)
    }

    fn start(&mut self, tag: XmlTag)
        ensures
            final(self)@ == old(self)@.start(tag),
    {
        let n = tag.name.as_str();
        if text_eq(n, "channel") {
            self.chan_id = or_empty_exec(attr(&tag.attrs, "id"));
            clear_string(&mut self.chan_name);
            self.chan_icon = None;
            self.chan_has_name = false;
            self.state = ParseState::Channel;
        } else if text_eq(n, "programme") {
            self.prog_channel = or_empty_exec(attr(&tag.attrs, "channel"));
            self.prog_start_text = or_empty_exec(attr(&tag.attrs, "start"));
            self.prog_stop_text = or_empty_exec(attr(&tag.attrs, "stop"));
            self.prog_start_ts = programme_time_exec(attr(&tag.attrs, "start_timestamp"), &self.prog_start_text);
            self.prog_stop_ts = programme_time_exec(attr(&tag.attrs, "stop_timestamp"), &self.prog_stop_text);
            clear_string(&mut self.prog_title);
            clear_string(&mut self.prog_desc);
            self.state = ParseState::Programme;
        } else if text_eq(n, "display-name") && self.state == ParseState::Channel {
            clear_string(&mut self.text_buf);
            self.state = ParseState::DisplayName;
        } else if text_eq(n, "icon") && self.state == ParseState::Channel && self.chan_icon.is_none() {
            self.chan_icon = attr(&tag.attrs, "src");
        } else if text_eq(n, "title") && self.state == ParseState::Programme {
            clear_string(&mut self.text_buf);
            self.state = ParseState::Title;
        } else if text_eq(n, "desc") && self.state == ParseState::Programme {
            clear_string(&mut self.text_buf);
            self.state = ParseState::Desc;
        }
    }

    #[verifier::rlimit(30)]
    fn end(&mut self, name: String) -> (r: Step)
        requires
            old(self).n_chan < usize::MAX,
            old(self).n_prog < usize::MAX,
        ensures
            (final(self)@, step_view(r)) == old(self)@.end(name@),
    {
        let n = name.as_str();
        if text_eq(n, "tv") {
            self.completed_tv = true;
            self.state = ParseState::Outside;
            return Step { insert: Insert::Nothing, progress: false, outcome: Outcome::Continue };
        }
        if text_eq(n, "channel") {
            let mut ins = Insert::Nothing;
            if !self.chan_id.as_str().is_empty() {
                let display_name = if self.chan_name.as_str().is_empty() {
                    self.chan_id.clone()
                } else {
                    self.chan_name.clone()
                };
                let icon = match &self.chan_icon {
                    Some(s) => Some(s.clone()),
                    None => None,
                };
                ins = Insert::Channel(ChannelRecord { channel_id: self.chan_id.clone(), display_name, icon });
                self.n_chan = self.n_chan + 1;
            }
            self.state = ParseState::Outside;
            return Step { insert: ins, progress: self.n_chan % 500 == 0, outcome: Outcome::Continue };
        }
        if text_eq(n, "programme") {
            let mut ins = Insert::Nothing;
            if !self.prog_channel.as_str().is_empty() {
                ins = Insert::Programme(ProgrammeRecord {
                    channel_id: self.prog_channel.clone(),
                    start_ts: self.prog_start_ts,
                    stop_ts: self.prog_stop_ts,
                    start_text: self.prog_start_text.clone(),
                    stop_text: self.prog_stop_text.clone(),
                    title: self.prog_title.clone(),
                    desc: self.prog_desc.clone(),
                });
                self.n_prog = self.n_prog + 1;
            }
            self.state = ParseState::Outside;
            return Step { insert: ins, progress: self.n_prog % 5000 == 0, outcome: Outcome::Continue };
        }
        if text_eq(n, "display-name") && self.state == ParseState::DisplayName {
            if !self.chan_has_name {
                self.chan_name = take_string(&mut self.text_buf);
                self.chan_has_name = true;
            }
            self.state = ParseState::Channel;
        } else if text_eq(n, "title") && self.state == ParseState::Title {
            self.prog_title = take_string(&mut self.text_buf);
            self.state = ParseState::Programme;
        } else if text_eq(n, "desc") && self.state == ParseState::Desc {
            self.prog_desc = take_string(&mut self.text_buf);
            self.state = ParseState::Programme;
        }
        Step { insert: Insert::Nothing, progress: false, outcome: Outcome::Continue }
    }

    /// Consumes one event of the document: returns the record it completes
    /// (if any), whether progress is due (every 500th channel, every 5000th
    /// programme), and whether the document ended, properly after `</tv>` or
    /// without it.
    pub fn feed(&mut self, ev: XmlEvent) -> (r: Step)
        requires
            old(self).n_chan < usize::MAX,
            old(self).n_prog < usize::MAX,
        ensures
            (final(self)@, step_view(r)) == old(self)@.feed(ev),
    {
        match ev {
            XmlEvent::Start(tag) => {
                self.start(tag);
                Step { insert: Insert::Nothing, progress: false, outcome: Outcome::Continue }
            },
            XmlEvent::Empty(tag) => {
                if text_eq(tag.name.as_str(), "icon") && self.state == ParseState::Channel
                    && self.chan_icon.is_none() {
                    self.chan_icon = attr(&tag.attrs, "src");
                }
                Step { insert: Insert::Nothing, progress: false, outcome: Outcome::Continue }
            },
            XmlEvent::Text(t) => {
                if self.state == ParseState::DisplayName || self.state == ParseState::Title
                    || self.state == ParseState::Desc {
                    append(&mut self.text_buf, t.as_str());
                }
                Step { insert: Insert::Nothing, progress: false, outcome: Outcome::Continue }
            },
            XmlEvent::End(name) => self.end(name),
            XmlEvent::Eof => Step {
                insert: Insert::Nothing,
                progress: false,
                outcome: if self.completed_tv {
                    Outcome::Finished
                } else {
                    Outcome::Incomplete
                },
            },
            XmlEvent::Other => Step { insert: Insert::Nothing, progress: false, outcome: Outcome::Continue },
        }
    }
}

} // verus!
