use epg::xmltv::{
    attr, parse_xmltv_date, ChannelRecord, Importer, Insert, Outcome, ProgrammeRecord, XmlEvent,
    XmlTag,
};
use quick_xml::events::{BytesStart, Event};
use quick_xml::Reader;

fn tag_of(e: &BytesStart) -> XmlTag {
    XmlTag {
        name: String::from_utf8_lossy(e.name().as_ref()).into_owned(),
        attrs: e
            .attributes()
            .flatten()
            .map(|a| {
                (
                    String::from_utf8_lossy(a.key.as_ref()).into_owned(),
                    String::from_utf8_lossy(a.value.as_ref()).into_owned(),
                )
            })
            .collect(),
    }
}

/// The events of a document, as a streaming reader with trimmed text reports
/// them.
fn events_of(xml: &str) -> Vec<XmlEvent> {
    let mut reader = Reader::from_str(xml);
    reader.config_mut().trim_text(true);
    let mut out = Vec::new();
    loop {
        let ev = match reader.read_event().unwrap() {
            Event::Start(e) => XmlEvent::Start(tag_of(&e)),
            Event::Empty(e) => XmlEvent::Empty(tag_of(&e)),
            Event::Text(t) => XmlEvent::Text(t.unescape().unwrap().into_owned()),
            Event::End(e) => XmlEvent::End(String::from_utf8_lossy(e.name().as_ref()).into_owned()),
            Event::Eof => XmlEvent::Eof,
            _ => XmlEvent::Other,
        };
        let done = matches!(ev, XmlEvent::Eof);
        out.push(ev);
        if done {
            return out;
        }
    }
}

struct Imported {
    channels: Vec<ChannelRecord>,
    programmes: Vec<ProgrammeRecord>,
    outcome: Outcome,
    counts: (usize, usize),
    progress_calls: usize,
}

fn import(xml: &str) -> Imported {
    let mut imp = Importer::new();
    let mut channels = Vec::new();
    let mut programmes = Vec::new();
    let mut outcome = Outcome::Continue;
    let mut progress_calls = 0;
    for ev in events_of(xml) {
        let step = imp.feed(ev);
        match step.insert {
            Insert::Nothing => {}
            Insert::Channel(c) => channels.push(c),
            Insert::Programme(p) => programmes.push(p),
        }
        if step.progress {
            progress_calls += 1;
        }
        outcome = step.outcome;
    }
    Imported {
        channels,
        programmes,
        outcome,
        counts: imp.counts(),
        progress_calls,
    }
}

fn rfc3339(s: &str) -> i64 {
    chrono::DateTime::parse_from_rfc3339(s).unwrap().timestamp()
}

// ---------- dates ----------

#[test]
fn parse_xmltv_date_with_space_and_offset() {
    let ts = parse_xmltv_date("20260816022600 +0300").unwrap();
    assert_eq!(ts, rfc3339("2026-08-16T02:26:00+03:00"));
}

#[test]
fn parse_xmltv_date_without_space_matches_with_space() {
    let no_space = parse_xmltv_date("20260816022600+0300").unwrap();
    let with_space = parse_xmltv_date("20260816022600 +0300").unwrap();
    assert_eq!(no_space, with_space);
}

#[test]
fn parse_xmltv_date_without_timezone_is_treated_as_utc() {
    let ts = parse_xmltv_date("20260816022600").unwrap();
    assert_eq!(ts, rfc3339("2026-08-16T02:26:00+00:00"));
}

#[test]
fn parse_xmltv_date_rejects_empty_and_garbage() {
    assert_eq!(parse_xmltv_date(""), None);
    assert_eq!(parse_xmltv_date("   "), None);
    assert_eq!(parse_xmltv_date("not a date"), None);
    assert_eq!(parse_xmltv_date("2026-08-16 02:26:00"), None);
}

#[test]
fn parse_xmltv_date_ignores_surrounding_whitespace() {
    assert_eq!(
        parse_xmltv_date("  20260816022600 -0130\n"),
        Some(rfc3339("2026-08-16T02:26:00-01:30"))
    );
}

// ---------- attributes ----------

#[test]
fn attr_returns_the_first_value_for_a_key() {
    let attrs = vec![
        ("id".to_string(), "one".to_string()),
        ("src".to_string(), "x".to_string()),
        ("id".to_string(), "two".to_string()),
    ];
    assert_eq!(attr(&attrs, "id"), Some("one".to_string()));
    assert_eq!(attr(&attrs, "src"), Some("x".to_string()));
    assert_eq!(attr(&attrs, "lang"), None);
}

// ---------- the importer ----------

#[test]
fn importer_reads_channels_and_programmes() {
    let xml = r#"<?xml version="1.0" encoding="UTF-8"?>
<tv>
  <channel id="c1">
    <display-name>Alpha News</display-name>
    <icon src="http://example.com/a.png"/>
  </channel>
  <channel id="c2">
    <display-name>Beta Movies</display-name>
  </channel>
  <programme channel="c1" start="20260816100000 +0000" stop="20260816110000 +0000">
    <title>Morning Bulletin</title>
    <desc>Headlines</desc>
  </programme>
  <programme channel="c1" start="20260816110000 +0000" stop="20260816120000 +0000">
    <title>Midday Show</title>
    <desc>Chat</desc>
  </programme>
  <programme channel="c2" start="20260816100000 +0000" stop="20260816120000 +0000" start_timestamp="1755000000" stop_timestamp="1755007200">
    <title>Film</title>
    <desc>A movie</desc>
  </programme>
</tv>"#;
    let r = import(xml);
    assert_eq!(r.counts, (2, 3));
    assert_eq!(r.outcome, Outcome::Finished);
    assert_eq!(r.channels[0].channel_id, "c1");
    assert_eq!(r.channels[0].display_name, "Alpha News");
    assert_eq!(r.channels[0].icon.as_deref(), Some("http://example.com/a.png"));
    assert_eq!(r.channels[1].display_name, "Beta Movies");
    assert_eq!(r.channels[1].icon, None);
    assert_eq!(r.programmes[0].title, "Morning Bulletin");
    assert_eq!(r.programmes[0].desc, "Headlines");
    assert_eq!(r.programmes[1].title, "Midday Show");
    assert_eq!(r.programmes[0].start_ts, rfc3339("2026-08-16T10:00:00+00:00"));
    assert_eq!(r.programmes[0].stop_ts, rfc3339("2026-08-16T11:00:00+00:00"));
    assert_eq!(r.programmes[0].start_text, "20260816100000 +0000");
    assert_eq!(r.programmes[2].channel_id, "c2");
    assert_eq!(r.progress_calls, 0);
}

#[test]
fn importer_prefers_timestamp_attributes_over_date_strings() {
    let xml = r#"<?xml version="1.0"?>
<tv>
  <channel id="c2"><display-name>Beta</display-name></channel>
  <programme channel="c2" start="20260816100000 +0000" stop="20260816120000 +0000" start_timestamp="1755000000" stop_timestamp="1755007200">
    <title>Film</title>
  </programme>
</tv>"#;
    let r = import(xml);
    assert_eq!(r.programmes[0].start_ts, 1755000000);
    assert_eq!(r.programmes[0].stop_ts, 1755007200);
}

#[test]
fn unreadable_timestamp_attribute_falls_back_to_the_date() {
    let xml = r#"<tv><programme channel="c" start="20260816100000 +0000" start_timestamp="soon"><title>T</title></programme></tv>"#;
    let r = import(xml);
    assert_eq!(r.programmes[0].start_ts, rfc3339("2026-08-16T10:00:00+00:00"));
    assert_eq!(r.programmes[0].stop_ts, 0, "no stop at all reads as 0");
}

#[test]
fn importer_falls_back_to_channel_id_when_display_name_missing() {
    let xml = r#"<?xml version="1.0"?>
<tv>
  <channel id="fallback-id"></channel>
  <programme channel="fallback-id" start="20260816100000 +0000" stop="20260816110000 +0000">
    <title>Show</title>
  </programme>
</tv>"#;
    let r = import(xml);
    assert_eq!(r.counts, (1, 1));
    assert_eq!(r.channels[0].display_name, "fallback-id");
}

#[test]
fn truncated_document_is_incomplete() {
    let r = import(r#"<tv><channel id="new"><display-name>New</display-name></channel>"#);
    assert_eq!(r.outcome, Outcome::Incomplete);
    assert_eq!(r.channels.len(), 1);
}

#[test]
fn first_display_name_wins() {
    let r = import(
        r#"<tv><channel id="c"><display-name>One</display-name><display-name>Two</display-name></channel></tv>"#,
    );
    assert_eq!(r.channels[0].display_name, "One");
}

#[test]
fn first_icon_wins() {
    let r = import(r#"<tv><channel id="c"><icon src="a"/><icon src="b"/></channel></tv>"#);
    assert_eq!(r.channels[0].icon.as_deref(), Some("a"));
}

#[test]
fn records_without_ids_are_skipped() {
    let r = import(r#"<tv><channel><display-name>X</display-name></channel><programme start="1"><title>Y</title></programme></tv>"#);
    assert_eq!(r.counts, (0, 0));
    assert!(r.channels.is_empty());
    assert!(r.programmes.is_empty());
}

#[test]
fn text_is_unescaped_and_kept_only_inside_names_titles_and_descriptions() {
    let r = import(
        r#"<tv>stray<programme channel="c">loose<title>Tom &amp; Jerry</title><desc>a &lt; b</desc></programme></tv>"#,
    );
    assert_eq!(r.programmes[0].title, "Tom & Jerry");
    assert_eq!(r.programmes[0].desc, "a < b");
}

#[test]
fn progress_is_due_every_five_hundred_channels() {
    let mut xml = String::from("<tv>");
    for i in 0..1000 {
        xml.push_str(&format!("<channel id=\"c{i}\"></channel>"));
    }
    xml.push_str("</tv>");
    let r = import(&xml);
    assert_eq!(r.counts, (1000, 0));
    assert_eq!(r.progress_calls, 2);
}

#[test]
fn empty_element_events_other_than_icon_change_nothing() {
    let mut imp = Importer::new();
    let step = imp.feed(XmlEvent::Empty(XmlTag {
        name: "channel".into(),
        attrs: vec![("id".into(), "x".into())],
    }));
    assert!(matches!(step.insert, Insert::Nothing));
    let step = imp.feed(XmlEvent::End("channel".into()));
    assert!(matches!(step.insert, Insert::Nothing));
    assert_eq!(imp.counts(), (0, 0));
    let step = imp.feed(XmlEvent::Eof);
    assert_eq!(step.outcome, Outcome::Incomplete);
}

#[test]
fn text_is_kept_only_inside_names_titles_and_descriptions() {
    let mut imp = Importer::new();
    assert!(!imp.keeps_text());
    imp.feed(XmlEvent::Start(XmlTag { name: "programme".into(), attrs: vec![("channel".into(), "c".into())] }));
    assert!(!imp.keeps_text());
    imp.feed(XmlEvent::Start(XmlTag { name: "title".into(), attrs: vec![] }));
    assert!(imp.keeps_text());
    imp.feed(XmlEvent::End("title".into()));
    assert!(!imp.keeps_text());
}

#[test]
fn counts_never_go_down_and_match_the_records() {
    let mut imp = Importer::new();
    let mut last = (0, 0);
    let mut records = (0, 0);
    for ev in events_of(r#"<tv><channel id="a"/><channel id="b"></channel><channel></channel><programme channel="a"><title>x</title></programme></tv>"#) {
        let step = imp.feed(ev);
        match step.insert {
            Insert::Channel(_) => records.0 += 1,
            Insert::Programme(_) => records.1 += 1,
            Insert::Nothing => {}
        }
        let now = imp.counts();
        assert!(now.0 >= last.0 && now.1 >= last.1);
        last = now;
    }
    assert_eq!(last, records);
    assert_eq!(last, (1, 1));
}
