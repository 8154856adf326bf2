//! The rows of the guide as the cache hands them out: one per channel and
//! one per programme.
use vstd::prelude::*;

verus! {

/// A channel of the guide, with the number of programmes cached for it.
#[derive(Debug)]
pub struct ChannelRow {
    pub channel_id: String,
    pub display_name: String,
    pub icon: Option<String>,
    pub prog_count: i64,
}

/// One programme of a channel's schedule. Timestamps are unix seconds.
#[derive(Debug)]
pub struct ProgrammeRow {
    pub rowid: i64,
    pub channel_id: String,
    pub start_ts: i64,
    pub stop_ts: i64,
    pub start_text: String,
    pub stop_text: String,
    pub title: String,
    pub desc: String,
}

fn copy_opt_string(s: &Option<String>) -> (r: Option<String>)
    ensures
        r == *s,
{
    match s {
        Some(t) => Some(t.clone()),
        None => None,
    }
}

impl Clone for ChannelRow {
    fn clone(&self) -> (r: Self)
        ensures
            r == *self,
    {
        ChannelRow {
            channel_id: self.channel_id.clone(),
            display_name: self.display_name.clone(),
            icon: copy_opt_string(&self.icon),
            prog_count: self.prog_count,
        }
    }
}

impl Clone for ProgrammeRow {
    fn clone(&self) -> (r: Self)
        ensures
            r == *self,
    {
        ProgrammeRow {
            rowid: self.rowid,
            channel_id: self.channel_id.clone(),
            start_ts: self.start_ts,
            stop_ts: self.stop_ts,
            start_text: self.start_text.clone(),
            stop_text: self.stop_text.clone(),
            title: self.title.clone(),
            desc: self.desc.clone(),
        }
    }
}

/// A copy of an optional programme that equals the original.
pub fn copy_programme(p: &Option<ProgrammeRow>) -> (r: Option<ProgrammeRow>)
    ensures
        r == *p,
{
    match p {
        Some(q) => Some(q.clone()),
        None => None,
    }
}

/// A programme is on air at `now` when it started at or before `now` and
/// stops after it.
pub open spec fn is_airing(p: ProgrammeRow, now: i64) -> bool {
    p.start_ts <= now && p.stop_ts > now
}

/// A programme is upcoming at `now` when it starts after `now`.
pub open spec fn is_upcoming(p: ProgrammeRow, now: i64) -> bool {
    p.start_ts > now
}

} // verus!
