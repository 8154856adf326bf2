use epg::app::{App, InputMode, Mode};
use epg::guide::{ChannelRow, ProgrammeRow};
use epg::ui::{
    detail_wrap_width, highlight_segments, mode_name, pct, row_time, starts_with_ignore_case,
    textwrap_lines, truncate, visible_range, RowTime, StatusLine,
};

fn highlighted_parts(text: &str, query: &str) -> Vec<String> {
    highlight_segments(text, &query.to_lowercase())
        .into_iter()
        .filter(|s| s.highlighted)
        .map(|s| s.text)
        .collect()
}

fn prog(start: i64, stop: i64, title: &str, desc: &str) -> ProgrammeRow {
    ProgrammeRow {
        rowid: 1,
        channel_id: "c1".into(),
        start_ts: start,
        stop_ts: stop,
        start_text: String::new(),
        stop_text: String::new(),
        title: title.into(),
        desc: desc.into(),
    }
}

// ---------- highlighting ----------

#[test]
fn highlight_is_case_insensitive() {
    assert_eq!(highlighted_parts("The Morning News", "news"), vec!["News"]);
    assert_eq!(highlighted_parts("NEWS at Ten", "news"), vec!["NEWS"]);
    assert_eq!(
        highlighted_parts("news and more news", "news"),
        vec!["news", "news"]
    );
}

#[test]
fn highlight_handles_multibyte_and_no_match() {
    assert_eq!(
        highlighted_parts("Télévision Française", "FRAN"),
        vec!["Fran"]
    );
    assert!(highlighted_parts("nothing here", "xyz").is_empty());
    assert!(highlighted_parts("anything", "").is_empty());
    assert_eq!(highlighted_parts("Émission", "émi"), vec!["Émi"]);
}

#[test]
fn highlight_covers_adjacent_and_full_matches() {
    assert_eq!(highlighted_parts("aaaa", "aa"), vec!["aa", "aa"]);
    assert_eq!(highlighted_parts("abc", "abc"), vec!["abc"]);
}

#[test]
fn highlight_segments_join_back_to_the_text() {
    let segs = highlight_segments("The Morning News today", "news");
    let joined: String = segs.iter().map(|s| s.text.as_str()).collect();
    assert_eq!(joined, "The Morning News today");
    let plain: Vec<&str> = segs
        .iter()
        .filter(|s| !s.highlighted)
        .map(|s| s.text.as_str())
        .collect();
    assert_eq!(plain, vec!["The Morning ", " today"]);
}

#[test]
fn empty_query_gives_one_plain_segment() {
    let segs = highlight_segments("anything", "");
    assert_eq!(segs.len(), 1);
    assert_eq!(segs[0].text, "anything");
    assert!(!segs[0].highlighted);
}

// ---------- truncate ----------

#[test]
fn truncate_leaves_short_strings_unchanged() {
    assert_eq!(truncate("hello", 10), "hello");
    assert_eq!(truncate("hello", 5), "hello", "exact fit is unchanged");
}

#[test]
fn truncate_respects_max_width() {
    let s = truncate("hello world", 8);
    assert!(s.starts_with("hello"));
    assert!(unicode_width::UnicodeWidthStr::width(s.as_str()) <= 8);
}

#[test]
fn truncate_adds_ellipsis_when_room_remains() {
    let s = truncate("abcd世efgh", 5);
    assert_eq!(s, "abcd\u{2026}");
}

#[test]
fn truncate_counts_wide_chars_as_double_width() {
    let s = truncate("世界世界", 5);
    assert!(unicode_width::UnicodeWidthStr::width(s.as_str()) <= 5);
    assert!(s.ends_with('\u{2026}'));
}

#[test]
fn truncate_keeps_the_longest_prefix_that_fits() {
    assert_eq!(truncate("hello world", 8), "hello wo");
    assert_eq!(truncate("anything", 0), "");
}

// ---------- textwrap_lines ----------

#[test]
fn textwrap_wraps_at_width() {
    let lines = textwrap_lines("the quick brown fox jumps over the lazy dog", 10);
    assert!(lines.len() > 1, "long text should wrap");
    for l in &lines {
        assert!(
            unicode_width::UnicodeWidthStr::width(l.as_str()) <= 10,
            "line {l:?} exceeds width"
        );
    }
}

#[test]
fn textwrap_fills_lines_greedily() {
    let lines = textwrap_lines("the quick brown fox jumps over the lazy dog", 10);
    assert_eq!(
        lines,
        vec!["the quick", "brown fox", "jumps over", "the lazy", "dog"]
    );
}

#[test]
fn textwrap_preserves_paragraph_breaks() {
    let lines = textwrap_lines("para one\n\npara two", 80);
    assert_eq!(lines, vec!["para one", "", "para two"]);
}

#[test]
fn textwrap_keeps_overlong_word_on_its_own_line() {
    let lines = textwrap_lines("a supercalifragilistic word", 8);
    assert!(lines.iter().any(|l| l == "supercalifragilistic"));
}

#[test]
fn textwrap_empty_input_yields_single_empty_line() {
    let lines = textwrap_lines("", 10);
    assert_eq!(lines, vec![String::new()]);
}

#[test]
fn textwrap_collapses_runs_of_spaces() {
    assert_eq!(textwrap_lines("a    b", 10), vec!["a b"]);
}

// ---------- misc helpers ----------

#[test]
fn pct_computes_percentage_and_handles_zero_total() {
    assert_eq!(pct(1, 4), 25);
    assert_eq!(pct(3, 4), 75);
    assert_eq!(pct(0, 0), 0, "zero total must not panic");
    assert_eq!(pct(5, 0), 0);
}

#[test]
fn pct_rounds_down() {
    assert_eq!(pct(1, 3), 33);
    assert_eq!(pct(2, 3), 66);
}

#[test]
fn starts_with_ignore_case_matches_prefixes() {
    assert!(starts_with_ignore_case("Hello World", "hello"));
    assert!(starts_with_ignore_case("NEWS", "news"));
    assert!(
        !starts_with_ignore_case("News", "newspaper"),
        "query longer than text"
    );
    assert!(!starts_with_ignore_case("abc", "abd"));
    assert!(
        starts_with_ignore_case("Émission", "émi"),
        "multibyte case-insensitive"
    );
}

#[test]
fn empty_query_is_a_prefix_of_everything() {
    assert!(starts_with_ignore_case("", ""));
    assert!(starts_with_ignore_case("abc", ""));
}

#[test]
fn mode_names_are_upper_case() {
    let mut app = App::new(Vec::new(), String::new(), 0);
    assert_eq!(mode_name(&app), "CHANNELS");
    app.mode = Mode::Detail;
    assert_eq!(mode_name(&app), "DETAIL");
}

#[test]
fn status_line_shows_position_and_percentage() {
    let channels: Vec<ChannelRow> = (0..4)
        .map(|i| ChannelRow {
            channel_id: format!("c{i}"),
            display_name: format!("C{i}"),
            icon: None,
            prog_count: 0,
        })
        .collect();
    let mut app = App::new(channels, String::new(), 0);
    match app.status_line() {
        StatusLine::Plain(t) => assert_eq!(t, " CHANNELS  1/4   25% "),
        other => panic!("unexpected {other:?}"),
    }
    app.status = "Filter OFF".into();
    match app.status_line() {
        StatusLine::Plain(t) => assert_eq!(t, " CHANNELS  1/4 — Filter OFF "),
        other => panic!("unexpected {other:?}"),
    }
    app.input = InputMode::Search;
    app.query = "news".into();
    match app.status_line() {
        StatusLine::Prompt(q) => assert_eq!(q, "news"),
        other => panic!("unexpected {other:?}"),
    }
}

#[test]
fn hint_line_follows_the_screen_and_the_prompt() {
    let mut app = App::new(Vec::new(), String::new(), 0);
    assert!(app.hint_line().contains("s sort"));
    app.input = InputMode::Search;
    assert_eq!(app.hint_line(), "Enter confirm • Esc cancel");
    app.input = InputMode::Normal;
    app.mode = Mode::Help;
    assert_eq!(app.hint_line(), "Esc / ? close");
}

#[test]
fn detail_shows_a_note_when_there_is_no_description() {
    let mut app = App::new(Vec::new(), String::new(), 0);
    app.detail = Some(prog(0, 60, "Big Film", ""));
    assert_eq!(app.description_lines(40), vec!["(no description)"]);
    app.detail = Some(prog(0, 60, "Big Film", "alpha beta gamma delta"));
    assert_eq!(app.description_lines(11), vec!["alpha beta", "gamma delta"]);
}

#[test]
fn detail_scroll_is_clamped_to_the_last_page() {
    let mut app = App::new(Vec::new(), String::new(), 0);
    app.detail_scroll = 50;
    app.clamp_detail_scroll(30, 10);
    assert_eq!(app.detail_scroll, 20);
    app.clamp_detail_scroll(5, 10);
    assert_eq!(app.detail_scroll, 0);
}

#[test]
fn visible_range_fits_the_panel() {
    assert_eq!(visible_range(0, 100, 12), (0, 10));
    assert_eq!(visible_range(95, 100, 12), (95, 100));
    assert_eq!(visible_range(500, 100, 12), (99, 100));
    assert_eq!(visible_range(0, 0, 12), (0, 0));
    assert_eq!(visible_range(0, 5, 1), (0, 0));
}

#[test]
fn row_time_tells_airing_past_and_upcoming_apart() {
    assert_eq!(row_time(&prog(0, 100, "a", ""), 50), RowTime::Airing);
    assert_eq!(row_time(&prog(0, 100, "a", ""), 100), RowTime::Past);
    assert_eq!(row_time(&prog(200, 300, "a", ""), 100), RowTime::Upcoming);
}

#[test]
fn detail_wrap_width_is_at_least_twenty() {
    assert_eq!(detail_wrap_width(60), 58);
    assert_eq!(detail_wrap_width(10), 20);
    assert_eq!(detail_wrap_width(0), 20);
}

#[test]
fn programme_total_adds_up_the_counts() {
    let channels = vec![
        ChannelRow { channel_id: "a".into(), display_name: "A".into(), icon: None, prog_count: 2 },
        ChannelRow { channel_id: "b".into(), display_name: "B".into(), icon: None, prog_count: i64::MAX },
        ChannelRow { channel_id: "c".into(), display_name: "C".into(), icon: None, prog_count: 5 },
    ];
    let app = App::new(channels, String::new(), 0);
    assert_eq!(app.programme_total(), i64::MAX as i128 + 7);
    assert_eq!(App::new(Vec::new(), String::new(), 0).programme_total(), 0);
}

#[test]
fn channel_name_cell_highlights_and_badges_while_searching() {
    let ch = ChannelRow {
        channel_id: "c1".into(),
        display_name: "Sky News".into(),
        icon: None,
        prog_count: 0,
    };
    let mut app = App::new(vec![ch.clone()], String::new(), 0);
    let (segs, badge) = app.channel_name_cell(&ch);
    assert_eq!(segs.len(), 1);
    assert_eq!(segs[0].text, "Sky News");
    assert!(!segs[0].highlighted);
    assert_eq!(badge, None);

    app.query = "NEWS".into();
    app.confirm_search(Ok(vec![("c1".into(), 2)]));
    let (segs, badge) = app.channel_name_cell(&ch);
    let marked: Vec<&str> = segs.iter().filter(|s| s.highlighted).map(|s| s.text.as_str()).collect();
    assert_eq!(marked, vec!["News"]);
    assert_eq!(badge, Some(2));
}

#[test]
fn channel_names_are_cut_to_the_column() {
    let long = "x".repeat(60);
    let ch = ChannelRow { channel_id: "c".into(), display_name: long, icon: None, prog_count: 0 };
    let mut app = App::new(vec![ch.clone()], String::new(), 0);
    assert_eq!(app.channel_name_cell(&ch).0[0].text.chars().count(), 48);
    app.query = "y".into();
    let joined: String = app.channel_name_cell(&ch).0.iter().map(|s| s.text.clone()).collect();
    assert_eq!(joined.chars().count(), 42);
}

#[test]
fn sort_names() {
    assert_eq!(epg::ui::sort_name(epg::app::SortMode::Name), "name");
    assert_eq!(epg::ui::sort_name(epg::app::SortMode::Count), "count");
}

#[test]
fn wrapping_keeps_every_word_in_order() {
    let text = "the quick  brown fox\njumps over\n\nthe lazy dog";
    let lines = textwrap_lines(text, 9);
    let from_lines: Vec<String> = lines
        .iter()
        .flat_map(|l| l.split_whitespace().map(String::from).collect::<Vec<_>>())
        .collect();
    let from_text: Vec<String> = text.split_whitespace().map(String::from).collect();
    assert_eq!(from_lines, from_text);
}

#[test]
fn title_text_shows_counts_mode_sort_query_filter_and_clock() {
    let channels = vec![
        ChannelRow { channel_id: "a".into(), display_name: "A".into(), icon: None, prog_count: 2 },
        ChannelRow { channel_id: "b".into(), display_name: "B".into(), icon: None, prog_count: 3 },
    ];
    let mut app = App::new(channels, String::new(), 0);
    assert_eq!(
        app.title_text("08-16 10:00"),
        " 2 channels  5 programmes  [CHANNELS] sort:name now: 08-16 10:00"
    );
    app.query = "news".into();
    app.filter_only = true;
    app.sort = epg::app::SortMode::Count;
    assert_eq!(
        app.title_text("x"),
        " 2 channels  5 programmes  [CHANNELS] sort:count /news FILTER now: x"
    );
    let parts = app.title_parts("x");
    assert_eq!(parts.len(), 8);
    assert_eq!(parts[5].text, "/news ");
    assert_eq!(parts[5].style, epg::ui::TitleStyle::Query);
    assert_eq!(parts[6].text, "FILTER ");
}

#[test]
fn fit_detail_scroll_counts_the_heading_lines_and_the_description() {
    let mut app = App::new(Vec::new(), String::new(), 0);
    app.detail = Some(prog(0, 60, "Big Film", "alpha beta gamma delta"));
    app.detail_scroll = 100;
    // 8 heading lines and one line of description in a 40-column panel.
    app.fit_detail_scroll(40, 5);
    assert_eq!(app.detail_scroll, 4);
    app.fit_detail_scroll(40, 50);
    assert_eq!(app.detail_scroll, 0);
}

#[test]
fn status_line_needs_room_only_for_the_screen_showing() {
    let channels: Vec<ChannelRow> = (0..2)
        .map(|i| ChannelRow {
            channel_id: format!("c{i}"),
            display_name: format!("C{i}"),
            icon: None,
            prog_count: 0,
        })
        .collect();
    let mut app = App::new(channels, String::new(), 0);
    app.prog_selected = usize::MAX;
    assert!(app.status_line_ready());
    app.mode = Mode::Programmes;
    app.prog_view = vec![0];
    assert!(!app.status_line_ready());
    app.input = InputMode::Search;
    assert!(app.status_line_ready());
}

#[test]
fn minutes_text_is_whole_minutes_or_nothing() {
    assert_eq!(epg::ui::minutes_text(&prog(0, 5400, "a", "")), "90");
    assert_eq!(epg::ui::minutes_text(&prog(100, 0, "a", "")), "0");
    assert_eq!(epg::ui::minutes_text(&prog(i64::MIN, i64::MAX, "a", "")), "");
}

#[test]
fn schedule_title_and_channel_label() {
    let mut app = App::new(Vec::new(), String::new(), 0);
    let p = prog(0, 60, "Show", "");
    assert_eq!(app.schedule_title(), " Programmes ");
    assert_eq!(app.channel_label(&p), "c1");
    app.cur_channel = Some(ChannelRow {
        channel_id: "c1".into(),
        display_name: "Test Channel".into(),
        icon: None,
        prog_count: 1,
    });
    app.programmes = vec![p.clone()];
    assert_eq!(app.schedule_title(), " Test Channel \u{2014} 1 programmes ");
    assert_eq!(app.channel_label(&p), "Test Channel");
}
