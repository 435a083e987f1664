use kessel::chart::Chart;

#[test]
fn parse_line_with_leading_text() {
    let mut c = Chart::build();
    let r = c.parse_line("Some [G]words [D]here");
    assert_eq!(r.len(), 3);
    let p0 = r[0].as_ref().unwrap();
    assert_eq!(p0.chord, None);
    assert_eq!(p0.lyric, "Some ");
    let p1 = r[1].as_ref().unwrap();
    assert_eq!(p1.chord, Some(String::from("G")));
    assert_eq!(p1.lyric, "words ");
    let p2 = r[2].as_ref().unwrap();
    assert_eq!(p2.chord, Some(String::from("D")));
    assert_eq!(p2.lyric, "here");
}

#[test]
fn parse_line_without_leading_text() {
    let mut c = Chart::build();
    let r = c.parse_line("[C]Hello [G]world");
    assert_eq!(r.len(), 2);
    let p0 = r[0].as_ref().unwrap();
    assert_eq!(p0.chord, Some(String::from("C")));
    assert_eq!(p0.lyric, "Hello ");
    let p1 = r[1].as_ref().unwrap();
    assert_eq!(p1.chord, Some(String::from("G")));
    assert_eq!(p1.lyric, "world");
}

#[test]
fn parse_line_unterminated_bracket_gives_none_slot() {
    let mut c = Chart::build();
    let r = c.parse_line("[G words");
    assert_eq!(r.len(), 1);
    assert!(r[0].is_none());
}

#[test]
fn parse_line_doubled_close_gives_none_slot() {
    let mut c = Chart::build();
    let r = c.parse_line("x [G]a]b");
    assert_eq!(r.len(), 2);
    assert_eq!(r[0].as_ref().unwrap().lyric, "x ");
    assert!(r[1].is_none());
}

#[test]
fn parse_line_lyrics_reconstruct_stripped_line() {
    let mut c = Chart::build();
    let r = c.parse_line("Some [G]words [D]here");
    let mut joined = String::new();
    for slot in &r {
        if let Some(p) = slot {
            joined.push_str(&p.lyric);
        }
    }
    assert_eq!(joined, "Some words here");
}

#[test]
fn directive_sets_title() {
    let mut c = Chart::build();
    let r = c.handle_directive("{title: Test Song}");
    assert!(r.is_none());
    assert_eq!(c.title, Some(String::from("Test Song")));
}

#[test]
fn directive_is_idempotent() {
    let mut c = Chart::build();
    c.handle_directive("{artist: Someone}");
    let first = c.artist.clone();
    c.handle_directive("{artist: Someone}");
    assert_eq!(c.artist, first);
    assert_eq!(c.artist, Some(String::from("Someone")));
}

#[test]
fn directive_last_write_wins() {
    let mut c = Chart::build();
    c.handle_directive("{key: Em}");
    c.handle_directive("{key: G}");
    assert_eq!(c.key, Some(String::from("G")));
}

#[test]
fn directive_round_trip_trims_whitespace() {
    let mut c = Chart::build();
    c.handle_directive("{ title :  Hello  }");
    c.handle_directive("{ artist:A B }");
    c.handle_directive("{tempo : 120}");
    c.handle_directive("{ key : Em }");
    assert_eq!(c.title, Some(String::from("Hello")));
    assert_eq!(c.artist, Some(String::from("A B")));
    assert_eq!(c.tempo, Some(String::from("120")));
    assert_eq!(c.key, Some(String::from("Em")));
}

#[test]
fn directive_label_reports_title_and_sets_nothing() {
    let mut c = Chart::build();
    let r = c.handle_directive("{label: Verse 1}");
    assert_eq!(r, Some(String::from("Verse 1")));
    assert_eq!(c.title, None);
    assert_eq!(c.artist, None);
    assert_eq!(c.tempo, None);
    assert_eq!(c.key, None);
    assert_eq!(c.sections.len(), 0);
}

#[test]
fn directive_unknown_key_is_ignored() {
    let mut c = Chart::build();
    let r = c.handle_directive("{unknown: foo}");
    assert!(r.is_none());
    assert_eq!(c.title, None);
    assert_eq!(c.artist, None);
    assert_eq!(c.tempo, None);
    assert_eq!(c.key, None);
}

#[test]
fn directive_only_first_pattern_counts() {
    let mut c = Chart::build();
    c.handle_directive("{title: A}{artist: B}");
    assert_eq!(c.title, Some(String::from("A")));
    assert_eq!(c.artist, None);
}

#[test]
fn directive_value_may_be_absent() {
    let mut c = Chart::build();
    c.handle_directive("{title:}");
    assert_eq!(c.title, Some(String::from("")));
}

#[test]
fn directive_plain_line_is_no_directive() {
    let mut c = Chart::build();
    let r = c.handle_directive("just some lyrics");
    assert!(r.is_none());
    assert_eq!(c.title, None);
}

#[test]
fn block_without_label_never_makes_a_section() {
    let mut c = Chart::build();
    c.parse_section("[C]Hello\n{title: X}");
    assert_eq!(c.sections.len(), 0);
    // the block's lines were still fed to the directive parser
    assert_eq!(c.title, Some(String::from("X")));
}

#[test]
fn block_with_label_makes_a_section() {
    let mut c = Chart::build();
    c.parse_section("{label: Chorus}\n[C]la\nplain");
    assert_eq!(c.sections.len(), 1);
    assert_eq!(c.sections[0].title, "Chorus");
    assert_eq!(c.sections[0].lines.len(), 2);
}

#[test]
fn empty_label_value_opens_no_section() {
    let mut c = Chart::build();
    let r = c.handle_directive("{label:}");
    assert!(r.is_none());
    c.parse_section("{label:}\n[C]hi");
    c.parse_section("{label:   }\nx");
    assert_eq!(c.sections.len(), 0);
}

#[test]
fn crlf_line_endings_are_taken() {
    let mut c = Chart::build();
    c.parse_section("{label: S}\r\n[C]hi\r\n");
    assert_eq!(c.sections.len(), 1);
    assert_eq!(c.sections[0].title, "S");
    assert_eq!(c.sections[0].lines.len(), 1);
    let p = c.sections[0].lines[0][0].as_ref().unwrap();
    assert_eq!(p.chord, Some(String::from("C")));
    assert_eq!(p.lyric, "hi");
}

#[test]
fn lone_carriage_return_in_final_line_stays() {
    let mut c = Chart::build();
    c.parse_section("{label: S}\nab\rcd");
    let p = c.sections[0].lines[0][0].as_ref().unwrap();
    assert_eq!(p.lyric, "ab\rcd");
}

#[test]
fn empty_block_is_skipped() {
    let mut c = Chart::build();
    c.parse_section("");
    assert_eq!(c.sections.len(), 0);
    assert_eq!(c.title, None);
}

#[test]
fn build_from_text_example() {
    let c = Chart::build_from_text("{title: Test Song}\n\n{label: Verse 1}\n[C]Hello [G]world");
    assert_eq!(c.title, Some(String::from("Test Song")));
    assert_eq!(c.sections.len(), 1);
    assert_eq!(c.sections[0].title, "Verse 1");
    assert_eq!(c.sections[0].lines.len(), 1);
    let line = &c.sections[0].lines[0];
    assert_eq!(line.len(), 2);
    let p0 = line[0].as_ref().unwrap();
    assert_eq!(p0.chord, Some(String::from("C")));
    assert_eq!(p0.lyric, "Hello ");
    let p1 = line[1].as_ref().unwrap();
    assert_eq!(p1.chord, Some(String::from("G")));
    assert_eq!(p1.lyric, "world");
}

#[test]
fn build_from_text_unknown_directive_changes_nothing() {
    let c = Chart::build_from_text("{unknown: foo}");
    assert_eq!(c.title, None);
    assert_eq!(c.artist, None);
    assert_eq!(c.tempo, None);
    assert_eq!(c.key, None);
    assert_eq!(c.sections.len(), 0);
}

#[test]
fn build_from_text_metadata_block_then_section() {
    let c = Chart::build_from_text("{title: A}\n{artist: B}\n\n{label: S}\nx");
    assert_eq!(c.title, Some(String::from("A")));
    assert_eq!(c.artist, Some(String::from("B")));
    assert_eq!(c.sections.len(), 1);
    assert_eq!(c.sections[0].title, "S");
    assert_eq!(c.sections[0].lines.len(), 1);
    let p = c.sections[0].lines[0][0].as_ref().unwrap();
    assert_eq!(p.chord, None);
    assert_eq!(p.lyric, "x");
}

#[test]
fn build_from_text_empty_input() {
    let c = Chart::build_from_text("");
    assert_eq!(c.sections.len(), 0);
    assert_eq!(c.title, None);
}

#[test]
fn to_text_renders_fields_and_sections() {
    let mut c = Chart::build();
    c.handle_directive("{title: T}");
    c.handle_directive("{key: Em}");
    c.parse_section("{label: V}\n[C]hi");
    let s = c.to_text();
    assert_eq!(s, "Title: T\nKey: Em\n\nV\n[C]hi\n\n");
}
