use m3u_core::Channel;
use m3u_core::generate_id;
use m3u_core::parse_m3u;

fn parse(s: &str) -> Vec<Channel> {
    parse_m3u(s.to_string()).unwrap()
}

#[test]
fn empty_input_yields_no_records() {
    assert_eq!(parse("").len(), 0);
}

#[test]
fn input_without_markers_yields_no_records() {
    let text = "#EXTM3U\n\nsome stray line\n# a comment\nhttp://orphan.example/x";
    assert_eq!(parse(text).len(), 0);
}

#[test]
fn marker_at_end_of_input_yields_no_record() {
    assert_eq!(parse("#EXTINF:-1 tvg-id=\"x\",Name").len(), 0);
}

#[test]
fn marker_followed_by_comment_yields_no_record() {
    assert_eq!(parse("#EXTINF:-1,Name\n#EXTM3U").len(), 0);
}

#[test]
fn marker_followed_by_empty_line_yields_no_record() {
    assert_eq!(parse("#EXTINF:-1,Name\n\nhttp://late.example/u").len(), 0);
}

#[test]
fn marker_followed_by_blank_line_yields_no_record() {
    assert_eq!(parse("#EXTINF:-1,Name\n   \nhttp://late.example/u").len(), 0);
}

#[test]
fn name_is_text_after_last_comma() {
    let text = "#EXTINF:-1 tvg-id=\"1\",Some, Channel\nhttp://u";
    let cs = parse(text);
    assert_eq!(cs.len(), 1);
    assert_eq!(cs[0].name, "Channel");
    assert_eq!(cs[0].id, "b115b147d2abc43f");
}

#[test]
fn url_line_is_trimmed() {
    let text = "#EXTINF:-1 x,Name\n   http://stream.example/a.m3u8  \r";
    let cs = parse(text);
    assert_eq!(cs.len(), 1);
    assert_eq!(cs[0].url, "http://stream.example/a.m3u8");
}

#[test]
fn attribute_order_does_not_matter() {
    let a = parse(
        "#EXTINF:-1 tvg-logo=\"L\" group-title=\"G\" tvg-id=\"E\",N\nhttp://u",
    );
    let b = parse(
        "#EXTINF:-1 group-title=\"G\" tvg-id=\"E\" tvg-logo=\"L\",N\nhttp://u",
    );
    assert_eq!(a.len(), 1);
    assert_eq!(b.len(), 1);
    assert_eq!(a[0].logo, b[0].logo);
    assert_eq!(a[0].group, b[0].group);
    assert_eq!(a[0].epg_id, b[0].epg_id);
    assert_eq!(a[0].logo.as_deref(), Some("L"));
    assert_eq!(a[0].group.as_deref(), Some("G"));
    assert_eq!(a[0].epg_id.as_deref(), Some("E"));
}

#[test]
fn first_occurrence_of_duplicate_key_wins() {
    let cs = parse("#EXTINF:-1 tvg-id=\"first\" tvg-id=\"second\",N\nhttp://u");
    assert_eq!(cs.len(), 1);
    assert_eq!(cs[0].epg_id.as_deref(), Some("first"));
}

#[test]
fn missing_closing_quote_yields_absent_attribute() {
    let cs = parse("#EXTINF:-1 tvg-logo=\"http://x/l.png,N\nhttp://u");
    assert_eq!(cs.len(), 1);
    assert_eq!(cs[0].logo, None);
}

#[test]
fn absent_keys_yield_absent_attributes() {
    let cs = parse("#EXTINF:-1 something,N\nhttp://u");
    assert_eq!(cs.len(), 1);
    assert_eq!(cs[0].logo, None);
    assert_eq!(cs[0].group, None);
    assert_eq!(cs[0].epg_id, None);
}

#[test]
fn round_trip_single_record() {
    let text = "#EXTM3U\n#EXTINF:-1 tvg-id=\"bbc1\" tvg-logo=\"http://x/l.png\" group-title=\"News\",BBC One\nhttp://stream.example/bbc1.m3u8";
    let cs = parse(text);
    assert_eq!(cs.len(), 1);
    let c = &cs[0];
    assert_eq!(c.name, "BBC One");
    assert_eq!(c.url, "http://stream.example/bbc1.m3u8");
    assert_eq!(c.logo.as_deref(), Some("http://x/l.png"));
    assert_eq!(c.group.as_deref(), Some("News"));
    assert_eq!(c.epg_id.as_deref(), Some("bbc1"));
    assert_eq!(c.id, generate_id("BBC One", "http://stream.example/bbc1.m3u8"));
    assert_eq!(c.id, "b33ca7c386933526");
    assert_eq!(c.id.len(), 16);
    assert!(c.id.chars().all(|h| h.is_ascii_hexdigit() && !h.is_ascii_uppercase()));
}

#[test]
fn two_entries_parse_in_source_order() {
    let text = "#EXTM3U\n#EXTINF:-1 group-title=\"News\",BBC One\nhttp://stream.example/bbc1.m3u8\n#EXTINF:-1 group-title=\"News\",BBC Two\nhttp://stream.example/bbc2.m3u8";
    let cs = parse(text);
    assert_eq!(cs.len(), 2);
    assert_eq!(cs[0].name, "BBC One");
    assert_eq!(cs[1].name, "BBC Two");
    assert_ne!(cs[0].id, cs[1].id);
    assert_eq!(cs[0].id, generate_id("BBC One", "http://stream.example/bbc1.m3u8"));
    assert_eq!(cs[1].id, generate_id("BBC Two", "http://stream.example/bbc2.m3u8"));
}

#[test]
fn marker_line_consumes_following_marker_line() {
    // The line after a marker is consumed as a url candidate even when it
    // is itself a marker line, so neither entry yields a record here.
    let text = "#EXTINF:-1,First\n#EXTINF:-1,Second\nhttp://u";
    assert_eq!(parse(text).len(), 0);
}

#[test]
fn entry_without_comma_has_empty_name() {
    let cs = parse("#EXTINF:-1 tvg-id=\"e\"\nhttp://u");
    assert_eq!(cs.len(), 1);
    assert_eq!(cs[0].name, "");
    assert_eq!(cs[0].id, generate_id("", "http://u"));
}

#[test]
fn name_is_trimmed() {
    let cs = parse("#EXTINF:-1 x,   Spaced Name   \nhttp://u");
    assert_eq!(cs.len(), 1);
    assert_eq!(cs[0].name, "Spaced Name");
}

#[test]
fn entries_recover_after_discarded_entry() {
    let text = "#EXTINF:-1,Dropped\n\n#EXTINF:-1,Kept\nhttp://kept.example/u";
    let cs = parse(text);
    assert_eq!(cs.len(), 1);
    assert_eq!(cs[0].name, "Kept");
    assert_eq!(cs[0].url, "http://kept.example/u");
}
