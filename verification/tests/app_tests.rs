use epg::app::{all_indices, duration_mins, fmt_range, fmt_time, App, InputMode, Mode, SortMode};
use epg::guide::{ChannelRow, ProgrammeRow};
use epg::keys::{Key, KeyCode};

fn chan(id: &str, name: &str, count: i64) -> ChannelRow {
    ChannelRow {
        channel_id: id.into(),
        display_name: name.into(),
        icon: None,
        prog_count: count,
    }
}

fn prog(rowid: i64, start: i64, stop: i64, title: &str) -> ProgrammeRow {
    ProgrammeRow {
        rowid,
        channel_id: "c1".into(),
        start_ts: start,
        stop_ts: stop,
        start_text: String::new(),
        stop_text: String::new(),
        title: title.into(),
        desc: String::new(),
    }
}

fn empty_app() -> App {
    App::new(Vec::new(), String::new(), 0)
}

/// `n` channels named "Channel 000".., in the order the cache lists them.
fn app_with_channels(n: usize) -> App {
    let channels: Vec<ChannelRow> = (0..n)
        .map(|i| chan(&format!("c{i:03}"), &format!("Channel {i:03}"), 0))
        .collect();
    let mut app = App::new(channels, String::new(), 0);
    app.set_viewport(10);
    app
}

/// Channels as the cache lists them: by name, ignoring case.
fn app_over(channels: Vec<ChannelRow>) -> App {
    App::new(channels, String::new(), 0)
}

fn selected_prog_title(app: &App) -> &str {
    &app.programmes[app.prog_view[app.prog_selected]].title
}

// ---------- navigation ----------

#[test]
fn move_sel_clamps_at_boundaries() {
    let mut app = app_with_channels(5);
    app.move_sel(-1);
    assert_eq!(app.selected, 0, "moving up from the top stays at 0");
    app.goto(4);
    app.move_sel(10);
    assert_eq!(
        app.selected, 4,
        "moving down past the end clamps to the last row"
    );
}

#[test]
fn goto_clamps_to_last_index() {
    let mut app = app_with_channels(5);
    app.goto(999);
    assert_eq!(app.selected, 4);
}

#[test]
fn move_sel_scrolls_window_to_follow_selection() {
    let mut app = app_with_channels(50);
    app.set_viewport(10);
    for _ in 0..15 {
        app.move_sel(1);
    }
    assert_eq!(app.selected, 15);
    assert!(app.offset <= app.selected);
    assert!(app.selected < app.offset + app.viewport);
    app.goto(0);
    assert_eq!(app.offset, 0, "jumping to the top resets the scroll offset");
}

#[test]
fn page_moves_by_full_and_half_viewport() {
    let mut app = app_with_channels(100);
    app.set_viewport(10);
    app.page(1, false);
    assert_eq!(app.selected, 10, "full page down");
    app.page(1, true);
    assert_eq!(app.selected, 15, "half page down");
    app.page(-1, false);
    assert_eq!(app.selected, 5, "full page up");
    app.page(-10, false);
    assert_eq!(app.selected, 0, "paging past the top clamps to 0");
}

#[test]
fn set_viewport_never_goes_below_one_row() {
    let mut app = app_with_channels(5);
    app.set_viewport(0);
    assert_eq!(app.viewport, 1);
    app.goto(3);
    assert_eq!(app.offset, 3);
}

#[test]
fn scroll_offset_never_leaves_empty_rows_at_the_bottom() {
    let mut app = app_with_channels(12);
    app.set_viewport(10);
    app.goto(11);
    assert_eq!(app.offset, 2);
    app.set_viewport(20);
    assert_eq!(app.offset, 0);
}

#[test]
fn navigation_on_an_empty_list_stays_at_zero() {
    let mut app = empty_app();
    app.move_sel(3);
    app.page(2, false);
    app.goto(7);
    assert_eq!(app.selected, 0);
    assert_eq!(app.offset, 0);
}

#[test]
fn programme_navigation_clamps_and_pages() {
    let mut app = empty_app();
    app.programmes = (0..30).map(|i| prog(i, i * 60, i * 60 + 60, "p")).collect();
    app.prog_view = (0..30).collect();
    app.set_viewport(10);
    app.prog_page(1, true);
    assert_eq!(app.prog_selected, 5);
    app.move_prog(100);
    assert_eq!(app.prog_selected, 29);
    assert_eq!(app.prog_offset, 20);
    app.prog_goto(0);
    assert_eq!(app.prog_selected, 0);
    assert_eq!(app.prog_offset, 0);
}

// ---------- sorting ----------

#[test]
fn sort_by_name_is_case_insensitive() {
    let mut app = empty_app();
    app.channels = vec![
        chan("c1", "banana", 0),
        chan("c2", "Apple", 0),
        chan("c3", "cherry", 0),
    ];
    app.sort = SortMode::Name;
    app.apply_sort();
    let names: Vec<&str> = app
        .channels
        .iter()
        .map(|c| c.display_name.as_str())
        .collect();
    assert_eq!(names, vec!["Apple", "banana", "cherry"]);
}

#[test]
fn sort_by_count_descending_then_name() {
    let mut app = empty_app();
    app.channels = vec![
        chan("c1", "low", 1),
        chan("c2", "high", 10),
        chan("c3", "mid-b", 5),
        chan("c4", "mid-a", 5),
    ];
    app.sort = SortMode::Count;
    app.apply_sort();
    let names: Vec<&str> = app
        .channels
        .iter()
        .map(|c| c.display_name.as_str())
        .collect();
    assert_eq!(names, vec!["high", "mid-a", "mid-b", "low"]);
}

#[test]
fn sort_keeps_the_order_of_equal_names() {
    let mut app = empty_app();
    app.channels = vec![
        chan("c1", "Same", 0),
        chan("c2", "b", 0),
        chan("c3", "same", 0),
    ];
    app.apply_sort();
    let ids: Vec<&str> = app.channels.iter().map(|c| c.channel_id.as_str()).collect();
    assert_eq!(ids, vec!["c2", "c1", "c3"]);
}

// ---------- search & filter (channels) ----------

#[test]
fn confirm_search_matches_channel_names_case_insensitively() {
    let mut app = app_over(vec![
        chan("c3", "Comedy Central", 0),
        chan("c1", "Sky News", 0),
        chan("c2", "Sky Sports", 0),
    ]);
    app.start_search();
    app.query = "sky".into();
    app.confirm_search(Ok(vec![]));
    assert_eq!(app.matches.len(), 2);
    let ci = app.view[app.selected];
    assert!(app.channels[ci].display_name.to_lowercase().contains("sky"));
    assert!(app.status.contains("2 matches"));
}

#[test]
fn confirm_search_finds_channels_via_current_or_next_programme_text() {
    let mut app = app_over(vec![chan("c2", "Docs", 1), chan("c1", "Movies", 0)]);
    app.now = 30;
    app.start_search();
    app.query = "oceans".into();
    // The cache finds the query in c2's current programme.
    app.confirm_search(Ok(vec![("c2".into(), 1)]));
    assert!(
        app.has_prog_match("c2"),
        "c2 has a matching current programme"
    );
    let names: Vec<String> = app
        .matches
        .iter()
        .map(|&vi| app.channels[app.view[vi]].display_name.clone())
        .collect();
    assert_eq!(names, vec!["Docs"]);
}

#[test]
fn confirm_search_reports_channels_with_matching_programmes() {
    let mut app = app_over(vec![chan("c2", "Docs", 1), chan("c1", "Movies", 0)]);
    app.start_search();
    app.query = "oceans".into();
    app.confirm_search(Ok(vec![("c2".into(), 1)]));
    assert_eq!(
        app.status,
        "1 matches • 1 channels with matching programmes"
    );
}

#[test]
fn confirm_search_without_matches_says_so() {
    let mut app = app_over(vec![chan("c1", "Alpha", 0)]);
    app.start_search();
    app.query = "zzz".into();
    app.confirm_search(Ok(vec![]));
    assert_eq!(app.input, InputMode::Normal);
    assert!(app.matches.is_empty());
    assert_eq!(app.status, "No matches for \"zzz\"");
}

#[test]
fn confirm_search_error_is_shown_and_name_matches_remain() {
    let mut app = app_over(vec![chan("c1", "Sky News", 0), chan("c2", "Other", 0)]);
    app.start_search();
    app.query = "sky".into();
    app.confirm_search(Err("disk I/O error".into()));
    assert_eq!(app.prog_match_count("c1"), None);
    assert_eq!(app.matches, vec![0]);
    assert_eq!(app.status, "1 matches");
}

#[test]
fn later_counts_for_a_channel_replace_earlier_ones() {
    let mut app = app_over(vec![chan("c1", "Alpha", 0)]);
    app.query = "x".into();
    app.confirm_search(Ok(vec![("c1".into(), 1), ("c1".into(), 2)]));
    assert_eq!(app.prog_match_count("c1"), Some(2));
    assert_eq!(app.prog_match.len(), 1);
}

#[test]
fn next_match_wraps_around_in_both_directions() {
    let mut app = app_over(vec![
        chan("c1", "News 1", 0),
        chan("c2", "News 2", 0),
        chan("c3", "News 3", 0),
    ]);
    app.start_search();
    app.query = "news".into();
    app.confirm_search(Ok(vec![]));
    assert_eq!(app.matches.len(), 3);
    assert_eq!(app.match_pos, 0);
    app.next_match(true);
    assert_eq!(app.match_pos, 1);
    app.next_match(true);
    assert_eq!(app.match_pos, 2);
    app.next_match(true);
    assert_eq!(app.match_pos, 0, "forward wraps to the first match");
    app.next_match(false);
    assert_eq!(app.match_pos, 2, "backward wraps to the last match");
    assert_eq!(app.status, "match 3/3");
    assert_eq!(app.selected, 2);
}

#[test]
fn next_match_without_matches_reports_the_query() {
    let mut app = app_over(vec![chan("c1", "Alpha", 0)]);
    app.query = "zzz".into();
    app.next_match(true);
    assert_eq!(app.status, "No matches for \"zzz\"");
    assert_eq!(app.match_pos, 0);
}

#[test]
fn toggle_filter_narrows_and_restores_view() {
    let mut app = app_over(vec![
        chan("c3", "Comedy Central", 0),
        chan("c1", "Sky News", 0),
        chan("c2", "Sky Sports", 0),
    ]);
    app.start_search();
    app.query = "sky".into();
    app.confirm_search(Ok(vec![]));
    assert_eq!(app.view.len(), 3, "filter off shows all channels");
    app.toggle_filter();
    assert!(app.filter_only);
    assert_eq!(app.view.len(), 2, "filter on shows only matches");
    assert_eq!(app.status, "Filter ON: 2 channels");
    app.toggle_filter();
    assert!(!app.filter_only);
    assert_eq!(app.view.len(), 3, "toggling off restores the full view");
    assert_eq!(app.status, "Filter OFF");
}

#[test]
fn toggle_filter_without_query_sets_status() {
    let mut app = empty_app();
    app.toggle_filter();
    assert!(!app.filter_only);
    assert_eq!(app.status, "No search query to filter by");
}

#[test]
fn cancel_search_clears_query_and_restores_view() {
    let mut app = app_over(vec![chan("c2", "Other", 0), chan("c1", "Sky News", 0)]);
    app.start_search();
    app.query = "sky".into();
    app.confirm_search(Ok(vec![]));
    app.filter_only = true;
    app.recompute_view();
    assert_eq!(app.view.len(), 1);
    app.cancel_search();
    assert_eq!(app.input, InputMode::Normal);
    assert!(app.query.is_empty());
    assert!(!app.filter_only);
    assert_eq!(app.view.len(), 2, "cancelling restores the unfiltered view");
}

#[test]
fn start_search_keeps_the_query_and_clears_the_status() {
    let mut app = empty_app();
    app.query = "abc".into();
    app.status = "old".into();
    app.start_search();
    assert_eq!(app.input, InputMode::Search);
    assert_eq!(app.query, "abc");
    assert!(app.status.is_empty());
}

#[test]
fn blank_query_clears_programme_matches() {
    let mut app = app_over(vec![chan("c1", "Alpha", 0)]);
    app.query = "   ".into();
    app.refresh_prog_match(Ok(vec![("c1".into(), 1)])).unwrap();
    assert!(!app.has_prog_match("c1"));
}

#[test]
fn refresh_prog_match_passes_the_error_on() {
    let mut app = app_over(vec![chan("c1", "Alpha", 0)]);
    app.query = "a".into();
    assert_eq!(
        app.refresh_prog_match(Err("locked".into())),
        Err("locked".to_string())
    );
}

// ---------- programmes ----------

#[test]
fn jump_to_now_prefers_currently_airing() {
    let mut app = empty_app();
    app.now = 1000;
    app.programmes = vec![
        prog(1, 100, 500, "past"),
        prog(2, 500, 1500, "airing"),
        prog(3, 1500, 2500, "next"),
    ];
    app.prog_view = (0..3).collect();
    app.jump_to_now_programme();
    assert_eq!(selected_prog_title(&app), "airing");
}

#[test]
fn jump_to_now_falls_back_to_next_upcoming() {
    let mut app = empty_app();
    app.now = 1000;
    app.programmes = vec![
        prog(1, 100, 500, "past"),
        prog(2, 1500, 2500, "next"),
        prog(3, 2600, 3000, "later"),
    ];
    app.prog_view = (0..3).collect();
    app.jump_to_now_programme();
    assert_eq!(selected_prog_title(&app), "next");
}

#[test]
fn jump_to_now_keeps_the_selection_when_everything_is_over() {
    let mut app = empty_app();
    app.now = 10_000;
    app.programmes = vec![prog(1, 100, 500, "a"), prog(2, 500, 900, "b")];
    app.prog_view = (0..2).collect();
    app.prog_selected = 1;
    app.jump_to_now_programme();
    assert_eq!(app.prog_selected, 1);
}

#[test]
fn recompute_prog_view_filters_by_title_or_desc() {
    let mut app = empty_app();
    let mut p1 = prog(1, 0, 60, "Morning News");
    p1.desc = "daily headlines".into();
    let p2 = prog(2, 60, 120, "Cartoon");
    let mut p3 = prog(3, 120, 180, "Documentary");
    p3.desc = "all about the news industry".into();
    app.programmes = vec![p1, p2, p3];
    app.query = "news".into();
    app.filter_only = true;
    app.recompute_prog_view();
    let titles: Vec<&str> = app
        .prog_view
        .iter()
        .map(|&pi| app.programmes[pi].title.as_str())
        .collect();
    assert_eq!(titles, vec!["Morning News", "Documentary"]);
    assert_eq!(app.prog_matches, vec![0, 1]);
}

#[test]
fn open_channel_loads_programmes_switches_mode_and_jumps_to_now() {
    let now = 1_000_000i64;
    let mut app = app_over(vec![chan("c1", "Alpha", 3)]);
    app.now = now;
    // What the cache gives for c1, by start time.
    let loaded = vec![
        prog(1, now - 7200, now - 3600, "Earlier"),
        prog(2, now - 1800, now + 1800, "Airing Now"),
        prog(3, now + 1800, now + 3600, "Later"),
    ];
    app.open_channel(Ok(loaded)).unwrap();
    assert_eq!(app.mode, Mode::Programmes);
    assert_eq!(app.programmes.len(), 3);
    assert_eq!(selected_prog_title(&app), "Airing Now");
    assert_eq!(app.cur_channel.as_ref().unwrap().channel_id, "c1");
}

#[test]
fn open_channel_failure_leaves_the_channel_list() {
    let mut app = app_over(vec![chan("c1", "Alpha", 3)]);
    assert_eq!(app.open_channel(Err("gone".into())), Err("gone".to_string()));
    assert_eq!(app.mode, Mode::Channels);
    assert!(app.cur_channel.is_none());
}

#[test]
fn open_channel_on_an_empty_list_does_nothing() {
    let mut app = empty_app();
    assert_eq!(app.open_channel(Ok(vec![prog(1, 0, 60, "x")])), Ok(()));
    assert_eq!(app.mode, Mode::Channels);
    assert!(app.programmes.is_empty());
}

#[test]
fn open_detail_then_close_returns_to_programmes() {
    let mut app = empty_app();
    app.programmes = vec![prog(1, 0, 60, "Show A"), prog(2, 60, 120, "Show B")];
    app.prog_view = (0..2).collect();
    app.prog_selected = 1;
    app.mode = Mode::Programmes;
    app.detail_scroll = 5;
    app.open_detail();
    assert_eq!(app.mode, Mode::Detail);
    assert_eq!(app.detail.as_ref().unwrap().title, "Show B");
    assert_eq!(app.detail_scroll, 0, "opening detail resets the scroll");
    app.close_detail();
    assert_eq!(app.mode, Mode::Programmes);
    assert!(app.detail.is_none());
}

#[test]
fn close_programmes_returns_to_channels_and_refreshes_search() {
    let mut app = app_over(vec![chan("c1", "Alpha", 1), chan("c2", "Beta", 0)]);
    app.now = 30;
    app.query = "oceans".into();
    app.mode = Mode::Programmes;
    app.programmes = vec![prog(1, 0, 60, "Oceans Deep")];
    app.prog_view = vec![0];
    // The cache finds the query in c1's current programme.
    app.close_programmes(Ok(vec![("c1".into(), 1)])).unwrap();
    assert_eq!(app.mode, Mode::Channels);
    assert!(app.programmes.is_empty());
    assert!(app.prog_view.is_empty());
    assert!(app.has_prog_match("c1"));
}

#[test]
fn reload_channels_sorts_and_keeps_the_selection_in_range() {
    let mut app = app_with_channels(5);
    app.goto(4);
    app.sort = SortMode::Count;
    app.reload_channels(Ok(vec![chan("a", "A", 1), chan("b", "B", 7)])).unwrap();
    let ids: Vec<&str> = app.channels.iter().map(|c| c.channel_id.as_str()).collect();
    assert_eq!(ids, vec!["b", "a"]);
    assert_eq!(app.view, vec![0, 1]);
    assert_eq!(app.selected, 1);
}

// ---------- now/next cache ----------

#[test]
fn now_next_returns_airing_and_next_and_uses_cache() {
    let now = 1_000_000i64;
    let mut app = app_over(vec![chan("c1", "Alpha", 2)]);
    app.now = now;
    let c1 = "c1".to_string();
    assert!(app.cached_now_next("c1").is_none());
    // What the cache gives for c1 at `now`.
    let fetched = (
        Some(prog(1, now - 100, now + 100, "Now Show")),
        Some(prog(2, now + 100, now + 200, "Next Show")),
    );
    let (cur, nxt) = app.now_next(&c1, fetched);
    assert_eq!(cur.unwrap().title, "Now Show");
    assert_eq!(nxt.unwrap().title, "Next Show");
    assert!(app.cached_now_next("c1").is_some(), "result is cached");
    // A second call is served from the cache with identical data.
    let (cur2, nxt2) = app.now_next(&c1, (None, None));
    assert_eq!(cur2.unwrap().title, "Now Show");
    assert_eq!(nxt2.unwrap().title, "Next Show");
    assert_eq!(app.now_cache.len(), 1);
}

// ---------- formatting helpers ----------

#[test]
fn duration_mins_computes_and_clamps_negative() {
    assert_eq!(duration_mins(0, 3600), 60);
    assert_eq!(duration_mins(1000, 1000 + 90 * 60), 90);
    assert_eq!(
        duration_mins(2000, 1000),
        0,
        "negative durations clamp to 0"
    );
}

#[test]
fn duration_mins_rounds_down_to_whole_minutes() {
    assert_eq!(duration_mins(0, 119), 1);
    assert_eq!(duration_mins(0, 59), 0);
}

#[test]
fn fmt_time_has_mmdd_hhmm_shape() {
    let s = fmt_time(0);
    assert_eq!(s.len(), 11);
    assert!(s.contains('-'));
    assert!(s.contains(':'));
}

#[test]
fn fmt_range_joins_start_and_stop() {
    let s = fmt_range(0, 3600);
    assert!(s.contains('\u{2013}'), "range uses an en dash separator");
}

#[test]
fn fmt_range_is_both_times_around_the_dash() {
    let s = fmt_range(0, 3600);
    assert_eq!(s, format!("{} \u{2013} {}", fmt_time(0), fmt_time(3600)));
}

#[test]
fn fmt_time_pads_each_field_to_two_digits() {
    let s = fmt_time(1_700_000_000);
    let b = s.as_bytes();
    assert_eq!(b.len(), 11);
    for i in [0, 1, 3, 4, 6, 7, 9, 10] {
        assert!(b[i].is_ascii_digit(), "{s:?}");
    }
    assert_eq!((b[2], b[5], b[8]), (b'-', b' ', b':'));
}

#[test]
fn all_indices_counts_up_from_zero() {
    assert_eq!(all_indices(4), vec![0, 1, 2, 3]);
    assert!(all_indices(0).is_empty());
}

#[test]
fn new_app_lists_every_channel_in_order() {
    let app = App::new(vec![chan("a", "A", 0), chan("b", "B", 0)], "http://x".into(), 42);
    assert_eq!(app.view, vec![0, 1]);
    assert_eq!(app.mode, Mode::Channels);
    assert_eq!(app.now, 42);
    assert_eq!(app.viewport, 40);
    assert_eq!(app.source_url, "http://x");
}

#[test]
fn tick_moves_the_clock_and_forgets_now_next() {
    let mut app = app_over(vec![chan("c1", "Alpha", 0)]);
    app.now_next(&"c1".to_string(), (None, None));
    assert!(app.cached_now_next("c1").is_some());
    app.tick(99);
    assert_eq!(app.now, 99);
    assert!(app.cached_now_next("c1").is_none());
}

#[test]
fn keys_are_ready_on_a_fresh_app_and_not_with_a_dangling_row() {
    let mut app = app_over(vec![chan("c1", "Alpha", 0)]);
    let j = Key::new(KeyCode::Char('j'));
    assert!(app.keys_ready(&j));
    assert!(app.rows_ready());
    app.view = vec![3];
    assert!(!app.keys_ready(&j));
    assert!(!app.rows_ready());
}

#[test]
fn refresh_now_takes_the_new_reading() {
    let mut app = empty_app();
    app.refresh_now(1234);
    assert_eq!(app.now, 1234);
}

#[test]
fn fmt_range_is_twenty_five_characters_for_representable_times() {
    assert_eq!(fmt_range(0, 3600).chars().count(), 25);
}
