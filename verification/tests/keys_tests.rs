use epg::app::{App, InputMode, Mode, SortMode};
use epg::guide::{ChannelRow, ProgrammeRow};
use epg::keys::{Key, KeyCode, Reply, Request, SCHEDULE_LIMIT};

/// Channels named as given (ids `c0`, `c1`, ..), listed by name as the
/// cache lists them; the cache holds no programmes.
fn app_with_channels(names: &[&str]) -> App {
    let mut channels: Vec<ChannelRow> = names
        .iter()
        .enumerate()
        .map(|(i, n)| ChannelRow {
            channel_id: format!("c{i}"),
            display_name: n.to_string(),
            icon: None,
            prog_count: 0,
        })
        .collect();
    channels.sort_by_key(|c| c.display_name.to_lowercase());
    App::new(channels, String::new(), 0)
}

/// Answers what a key needs from a cache without programmes.
fn answer(req: Request) -> Reply {
    match req {
        Request::Nothing => Reply::Nothing,
        Request::ProgrammeSearch { .. } => Reply::Matches(Ok(vec![])),
        Request::Schedule { .. } => Reply::Schedule(Ok(vec![])),
        Request::Refresh { .. } => Reply::Refreshed(Err("offline".into())),
    }
}

fn press(app: &mut App, k: Key) {
    let req = app.request_for(&k);
    app.handle_key(k, answer(req));
}

fn key(c: char) -> Key {
    Key::new(KeyCode::Char(c))
}

fn code(k: KeyCode) -> Key {
    Key::new(k)
}

fn prog(rowid: i64, start: i64, stop: i64, title: &str) -> ProgrammeRow {
    ProgrammeRow {
        rowid,
        channel_id: "c0".into(),
        start_ts: start,
        stop_ts: stop,
        start_text: String::new(),
        stop_text: String::new(),
        title: title.into(),
        desc: String::new(),
    }
}

#[test]
fn g_then_g_goes_to_top_and_capital_g_to_bottom() {
    let mut app = app_with_channels(&["a", "b", "c", "d", "e"]);
    press(&mut app, key('G'));
    assert_eq!(app.selected, 4, "G jumps to the bottom");
    press(&mut app, key('g'));
    assert!(app.pending_g, "first g arms the pending-g state");
    press(&mut app, key('g'));
    assert_eq!(app.selected, 0, "second g jumps to the top");
    assert!(!app.pending_g);
}

#[test]
fn pending_g_is_cleared_by_other_keys() {
    let mut app = app_with_channels(&["a", "b", "c", "d", "e"]);
    app.goto(2);
    press(&mut app, key('g'));
    assert!(app.pending_g);
    press(&mut app, key('j'));
    assert_eq!(
        app.selected, 3,
        "j just moves down; the pending g is discarded"
    );
    assert!(!app.pending_g);
}

#[test]
fn slash_typing_and_enter_confirms_search() {
    let mut app = app_with_channels(&["Sky News", "Sky Sports", "Comedy"]);
    press(&mut app, key('/'));
    assert_eq!(app.input, InputMode::Search);
    for c in "sky".chars() {
        press(&mut app, key(c));
    }
    assert_eq!(app.query, "sky");
    press(&mut app, code(KeyCode::Enter));
    assert_eq!(app.input, InputMode::Normal);
    assert_eq!(app.matches.len(), 2);
}

#[test]
fn esc_cancels_search_input_mode() {
    let mut app = app_with_channels(&["a", "b"]);
    press(&mut app, key('/'));
    press(&mut app, key('x'));
    press(&mut app, code(KeyCode::Esc));
    assert_eq!(app.input, InputMode::Normal);
    assert!(app.query.is_empty());
}

#[test]
fn esc_with_active_search_clears_it_before_backing_out() {
    let mut app = app_with_channels(&["Sky News", "Other"]);
    press(&mut app, key('/'));
    for c in "sky".chars() {
        press(&mut app, key(c));
    }
    press(&mut app, code(KeyCode::Enter));
    assert!(!app.query.is_empty());
    press(&mut app, code(KeyCode::Esc));
    assert!(app.query.is_empty(), "Esc dismisses the active search");
    assert_eq!(app.mode, Mode::Channels, "and stays on the channels view");
}

#[test]
fn f_toggles_filter_mode() {
    let mut app = app_with_channels(&["Sky News", "Sky Sports", "Comedy"]);
    press(&mut app, key('/'));
    for c in "sky".chars() {
        press(&mut app, key(c));
    }
    press(&mut app, code(KeyCode::Enter));
    assert_eq!(app.view.len(), 3);
    press(&mut app, key('f'));
    assert!(app.filter_only);
    assert_eq!(app.view.len(), 2);
}

#[test]
fn s_cycles_sort_mode() {
    let mut app = app_with_channels(&["a", "b"]);
    assert_eq!(app.sort, SortMode::Name);
    press(&mut app, key('s'));
    assert_eq!(app.sort, SortMode::Count);
    press(&mut app, key('s'));
    assert_eq!(app.sort, SortMode::Name);
}

#[test]
fn q_sets_quit_flag() {
    let mut app = app_with_channels(&["a"]);
    press(&mut app, key('q'));
    assert!(app.quit);
}

#[test]
fn question_mark_opens_help_and_closes_it_again() {
    let mut app = app_with_channels(&["a"]);
    press(&mut app, key('?'));
    assert_eq!(app.mode, Mode::Help);
    press(&mut app, key('?'));
    assert_eq!(app.mode, Mode::Channels);
}

#[test]
fn backspace_on_an_empty_prompt_cancels_the_search() {
    let mut app = app_with_channels(&["a"]);
    press(&mut app, key('/'));
    press(&mut app, key('a'));
    press(&mut app, code(KeyCode::Backspace));
    assert_eq!(app.query, "");
    assert_eq!(app.input, InputMode::Search);
    press(&mut app, code(KeyCode::Backspace));
    assert_eq!(app.input, InputMode::Normal);
}

#[test]
fn typing_at_the_prompt_previews_the_matches() {
    let mut app = app_with_channels(&["Sky News", "Comedy"]);
    press(&mut app, key('/'));
    press(&mut app, key('c'));
    press(&mut app, key('o'));
    assert_eq!(app.matches, vec![0]);
}

#[test]
fn control_characters_are_not_typed_into_the_prompt() {
    let mut app = app_with_channels(&["a"]);
    press(&mut app, key('/'));
    press(&mut app, Key::with_ctrl(KeyCode::Char('x')));
    assert_eq!(app.query, "");
}

#[test]
fn enter_asks_for_the_selected_channels_schedule() {
    let app = app_with_channels(&["a", "b"]);
    match app.request_for(&code(KeyCode::Enter)) {
        Request::Schedule { channel_id, limit } => {
            assert_eq!(channel_id, "c0");
            assert_eq!(limit, SCHEDULE_LIMIT);
        }
        other => panic!("unexpected request {other:?}"),
    }
}

#[test]
fn enter_opens_the_schedule_and_backspace_returns() {
    let mut app = app_with_channels(&["a"]);
    let k = code(KeyCode::Enter);
    let req = app.request_for(&k);
    assert!(matches!(req, Request::Schedule { .. }));
    app.handle_key(k, Reply::Schedule(Ok(vec![prog(1, 0, 60, "x"), prog(2, 60, 120, "y")])));
    assert_eq!(app.mode, Mode::Programmes);
    assert_eq!(app.programmes.len(), 2);
    press(&mut app, code(KeyCode::Enter));
    assert_eq!(app.mode, Mode::Detail);
    assert_eq!(app.detail.as_ref().unwrap().title, "x");
    press(&mut app, key('j'));
    assert_eq!(app.detail_scroll, 1);
    press(&mut app, code(KeyCode::Esc));
    assert_eq!(app.mode, Mode::Programmes);
    press(&mut app, code(KeyCode::Backspace));
    assert_eq!(app.mode, Mode::Channels);
    assert!(app.programmes.is_empty());
}

#[test]
fn a_failed_schedule_load_is_reported() {
    let mut app = app_with_channels(&["a"]);
    app.handle_key(code(KeyCode::Enter), Reply::Schedule(Err("locked".into())));
    assert_eq!(app.mode, Mode::Channels);
    assert_eq!(app.status, "error: locked");
}

#[test]
fn refresh_without_a_source_needs_nothing() {
    let app = app_with_channels(&["a"]);
    assert!(matches!(app.request_for(&key('r')), Request::Nothing));
}

#[test]
fn refresh_reloads_channels_and_reports_counts() {
    let mut app = App::new(Vec::new(), "http://example.com/epg.xml".into(), 0);
    match app.request_for(&key('r')) {
        Request::Refresh { url } => assert_eq!(url, "http://example.com/epg.xml"),
        other => panic!("unexpected request {other:?}"),
    }
    let channels = vec![ChannelRow {
        channel_id: "c1".into(),
        display_name: "Alpha".into(),
        icon: None,
        prog_count: 3,
    }];
    app.handle_key(key('r'), Reply::Refreshed(Ok((1, 3, channels))));
    assert_eq!(app.channels.len(), 1);
    assert_eq!(app.status, "refresh complete");
}

#[test]
fn failed_refresh_is_reported() {
    let mut app = App::new(Vec::new(), "http://example.com/epg.xml".into(), 0);
    app.handle_key(key('r'), Reply::Refreshed(Err("timed out".into())));
    assert_eq!(app.status, "refresh failed: timed out");
}

#[test]
fn t_jumps_to_the_programme_on_air() {
    let mut app = app_with_channels(&["a"]);
    app.now = 100;
    app.handle_key(
        code(KeyCode::Enter),
        Reply::Schedule(Ok(vec![prog(1, 0, 50, "old"), prog(2, 50, 150, "on")])),
    );
    press(&mut app, key('k'));
    assert_eq!(app.prog_selected, 0);
    press(&mut app, key('t'));
    assert_eq!(app.prog_selected, 1);
}

#[test]
fn detail_scroll_never_goes_below_zero() {
    let mut app = app_with_channels(&["a"]);
    app.handle_key(code(KeyCode::Enter), Reply::Schedule(Ok(vec![prog(1, 0, 50, "x")])));
    press(&mut app, code(KeyCode::Enter));
    press(&mut app, key('k'));
    assert_eq!(app.detail_scroll, 0);
    press(&mut app, code(KeyCode::PageDown));
    assert_eq!(app.detail_scroll, 20);
    press(&mut app, key('g'));
    assert_eq!(app.detail_scroll, 0);
}

#[test]
fn backspace_on_a_schedule_returns_and_keeps_the_search() {
    let mut app = app_with_channels(&["Sky News", "Other"]);
    app.handle_key(code(KeyCode::Enter), Reply::Schedule(Ok(vec![prog(1, 0, 60, "x")])));
    assert_eq!(app.mode, Mode::Programmes);
    app.query = "sky".into();
    let k = code(KeyCode::Backspace);
    assert!(matches!(app.request_for(&k), Request::ProgrammeSearch { .. }));
    app.handle_key(k, Reply::Matches(Ok(vec![])));
    assert_eq!(app.mode, Mode::Channels);
    assert_eq!(app.query, "sky");
    assert!(app.programmes.is_empty());
    assert!(app.cur_channel.is_none());
}

#[test]
fn esc_on_a_schedule_without_search_returns_to_the_list() {
    let mut app = app_with_channels(&["a"]);
    app.handle_key(code(KeyCode::Enter), Reply::Schedule(Ok(vec![prog(1, 0, 60, "x")])));
    press(&mut app, code(KeyCode::Esc));
    assert_eq!(app.mode, Mode::Channels);
}

#[test]
fn keys_keep_the_rows_valid_and_the_selection_on_screen() {
    let mut app = app_with_channels(&["Sky News", "Sky Sports", "Comedy", "Docs"]);
    let keys = [
        key('/'), key('s'), key('k'), code(KeyCode::Enter), key('f'), key('G'), key('s'),
        code(KeyCode::Esc), key('j'), key('J'), code(KeyCode::PageDown), key('n'), key('N'),
    ];
    app.set_viewport(2);
    for k in keys {
        assert!(app.keys_ready(&k));
        press(&mut app, k);
        assert!(app.view.iter().all(|&i| i < app.channels.len()));
        if !app.view.is_empty() {
            assert!(app.selected < app.view.len());
            assert!(app.offset <= app.selected && app.selected < app.offset + app.viewport);
        }
    }
    assert!(app.rows_ready());
}

#[test]
fn typing_at_the_prompt_does_not_search_the_cache() {
    let mut app = app_with_channels(&["Sky News", "Comedy"]);
    app.query = "x".into();
    app.confirm_search(Ok(vec![("c1".into(), 1)]));
    press(&mut app, key('/'));
    let k = key('y');
    assert!(matches!(app.request_for(&k), Request::Nothing));
    app.handle_key(k, Reply::Nothing);
    assert_eq!(app.query, "xy");
    assert_eq!(app.prog_match_count("c1"), Some(1));
}

#[test]
fn esc_closes_the_help_back_to_where_it_was_opened() {
    let mut app = app_with_channels(&["a"]);
    app.handle_key(code(KeyCode::Enter), Reply::Schedule(Ok(vec![prog(1, 0, 60, "x")])));
    press(&mut app, key('?'));
    assert_eq!(app.mode, Mode::Help);
    press(&mut app, code(KeyCode::Esc));
    assert_eq!(app.mode, Mode::Programmes);
}

#[test]
fn q_is_handled_whatever_the_detail_scroll() {
    let mut app = app_with_channels(&["a"]);
    app.handle_key(code(KeyCode::Enter), Reply::Schedule(Ok(vec![prog(1, 0, 60, "x")])));
    press(&mut app, code(KeyCode::Enter));
    app.detail_scroll = usize::MAX - 3;
    assert!(!app.keys_ready(&code(KeyCode::PageDown)));
    assert!(app.keys_ready(&key('j')));
    assert!(app.keys_ready(&key('q')));
    press(&mut app, key('q'));
    assert!(app.quit);
}
