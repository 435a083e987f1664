use kessel::chart::Chart;
use kessel::config::Config;
use kessel::layout::artifact_name;
use kessel::layout::gather_dims;
use kessel::layout::layout;
use kessel::layout::place;
use kessel::layout::Dim;
use kessel::layout::FontVariant;
use kessel::layout::PageDims;
use kessel::layout::SectionDims;
use kessel::layout::TextMeasurer;
use kessel::layout::MARGIN;
use kessel::layout::SIZE_BODY;
use kessel::layout::SIZE_SUBTITLE;
use kessel::layout::SIZE_TITLE;

/// A deterministic measurer: width grows with the character count, height
/// with the point size.
struct FakeMeasurer;

impl TextMeasurer for FakeMeasurer {
    fn measure(&mut self, _variant: FontVariant, size: u64, text: &str) -> Dim {
        Dim { width: 100 * text.chars().count() as u64, height: 10 * size }
    }
}

#[test]
fn place_computes_exact_positions() {
    let mut c = Chart::build();
    c.handle_directive("{title: T}");
    c.parse_section("{label: S}\n[C]hi");
    let dims = PageDims {
        title: Dim { width: 0, height: 1000 },
        artist: Dim { width: 0, height: 0 },
        tempo: Dim { width: 0, height: 0 },
        reference: Dim { width: 0, height: 500 },
        sections: vec![SectionDims {
            title: Dim { width: 0, height: 2000 },
            lines: vec![vec![Dim { width: 300, height: 0 }]],
        }],
    };
    let runs = place(&c, &dims);
    assert_eq!(runs.len(), 4);

    // chart title at the margin
    assert_eq!(runs[0].text, "T");
    assert_eq!(runs[0].variant, FontVariant::Bold);
    assert_eq!(runs[0].size, SIZE_TITLE);
    assert_eq!(runs[0].x, MARGIN);
    assert_eq!(runs[0].y, MARGIN);

    // section title: below title height (1000) and the metadata gap
    // (2 × 1.4 × 500 = 1400)
    assert_eq!(runs[1].text, "S");
    assert_eq!(runs[1].variant, FontVariant::Bold);
    assert_eq!(runs[1].size, SIZE_BODY);
    assert_eq!(runs[1].x, MARGIN);
    assert_eq!(runs[1].y, MARGIN + 1000 + 1400);

    // chord one section line height (1.4 × 2000 = 2800) further down
    assert_eq!(runs[2].text, "C");
    assert_eq!(runs[2].variant, FontVariant::Regular);
    assert_eq!(runs[2].size, SIZE_BODY);
    assert_eq!(runs[2].x, MARGIN);
    assert_eq!(runs[2].y, MARGIN + 1000 + 1400 + 2800);

    // lyric a further line height below its chord, same x
    assert_eq!(runs[3].text, "hi");
    assert_eq!(runs[3].variant, FontVariant::Regular);
    assert_eq!(runs[3].size, SIZE_BODY);
    assert_eq!(runs[3].x, MARGIN);
    assert_eq!(runs[3].y, MARGIN + 1000 + 1400 + 2800 + 2800);
}

#[test]
fn place_metadata_line_shares_tempo_and_key() {
    let mut c = Chart::build();
    c.handle_directive("{artist: A}");
    c.handle_directive("{tempo: 120}");
    c.handle_directive("{key: Em}");
    let dims = PageDims {
        title: Dim { width: 0, height: 0 },
        artist: Dim { width: 0, height: 1000 },
        tempo: Dim { width: 5000, height: 0 },
        reference: Dim { width: 0, height: 0 },
        sections: vec![],
    };
    let runs = place(&c, &dims);
    assert_eq!(runs.len(), 3);
    assert_eq!(runs[0].text, "Artist: A");
    assert_eq!(runs[0].variant, FontVariant::Italic);
    assert_eq!(runs[0].size, SIZE_SUBTITLE);
    assert_eq!(runs[0].y, MARGIN);
    // artist advanced y by 1.4 × 1000
    assert_eq!(runs[1].text, "Tempo: 120 |");
    assert_eq!(runs[1].x, MARGIN);
    assert_eq!(runs[1].y, MARGIN + 1400);
    // key follows the tempo on the same line, shifted by its width
    assert_eq!(runs[2].text, " Key: Em");
    assert_eq!(runs[2].x, MARGIN + 5000);
    assert_eq!(runs[2].y, MARGIN + 1400);
}

#[test]
fn layout_excludes_malformed_slots() {
    let c = Chart::build_from_text("{label: S}\n[G words\n[C]ok");
    let mut m = FakeMeasurer;
    let runs = layout(&c, &mut m);
    assert!(runs.iter().all(|r| r.text != "G words"));
    assert!(runs.iter().any(|r| r.text == "ok"));
    assert!(runs.iter().any(|r| r.text == "C"));
}

#[test]
fn layout_emits_title_sections_and_pairs() {
    let c = Chart::build_from_text("{title: Song}\n\n{label: V}\nla [G]la");
    let mut m = FakeMeasurer;
    let runs = layout(&c, &mut m);
    let texts: Vec<&str> = runs.iter().map(|r| r.text.as_str()).collect();
    assert_eq!(texts, vec!["Song", "V", "la ", "G", "la"]);
    // a chord and its lyric share an x position
    let g = runs.iter().find(|r| r.text == "G").unwrap();
    let la2 = &runs[4];
    assert_eq!(g.x, la2.x);
    // the lyric sits one section line height (1.4 × the measured title
    // height, 10 × 14) below its chord
    assert_eq!(la2.y, g.y + 196);
}

/// A measurer that records every request it is asked.
struct RecordingMeasurer {
    requests: Vec<(FontVariant, u64, String)>,
}

impl TextMeasurer for RecordingMeasurer {
    fn measure(&mut self, variant: FontVariant, size: u64, text: &str) -> Dim {
        self.requests.push((variant, size, String::from(text)));
        Dim { width: 1, height: 1 }
    }
}

#[test]
fn layout_measures_exactly_the_prescribed_strings() {
    let c = Chart::build_from_text(
        "{title: T}\n{artist: A}\n{tempo: 120}\n{key: Em}\n\n{label: S}\nla [G]la\n[x words",
    );
    let mut m = RecordingMeasurer { requests: vec![] };
    layout(&c, &mut m);
    let expected: Vec<(FontVariant, u64, String)> = vec![
        (FontVariant::Bold, SIZE_TITLE, String::from("T")),
        (FontVariant::Italic, SIZE_SUBTITLE, String::from("Artist: A")),
        (FontVariant::Italic, SIZE_SUBTITLE, String::from("Tempo: 120 |")),
        (FontVariant::Italic, SIZE_SUBTITLE, String::from("hoo")),
        (FontVariant::Regular, SIZE_BODY, String::from("S")),
        (FontVariant::Regular, SIZE_BODY, String::from("la ")),
        (FontVariant::Regular, SIZE_BODY, String::from("la")),
        // the malformed slot on the last line is not measured at all
    ];
    assert_eq!(m.requests.len(), expected.len());
    let mut i = 0;
    while i < expected.len() {
        assert_eq!(m.requests[i].0, expected[i].0);
        assert_eq!(m.requests[i].1, expected[i].1);
        assert_eq!(m.requests[i].2, expected[i].2);
        i += 1;
    }
}

#[test]
fn gather_dims_lines_up_with_sections() {
    let c = Chart::build_from_text("{label: A}\nx\ny [C]z\n\n{label: B}");
    let mut m = FakeMeasurer;
    let d = gather_dims(&c, &mut m);
    assert_eq!(d.sections.len(), 2);
    assert_eq!(d.sections[0].lines.len(), 2);
    assert_eq!(d.sections[0].lines[0].len(), 1);
    assert_eq!(d.sections[0].lines[1].len(), 2);
    assert_eq!(d.sections[1].lines.len(), 0);
    assert_eq!(d.reference, Dim { width: 300, height: 10 * SIZE_SUBTITLE });
}

#[test]
fn artifact_name_title_and_key() {
    let mut c = Chart::build();
    c.handle_directive("{title: Wonderwall}");
    c.handle_directive("{key: Em}");
    assert_eq!(artifact_name(&c), "Wonderwall-Em");
}

#[test]
fn artifact_name_dashes_spaces_when_key_present() {
    let mut c = Chart::build();
    c.handle_directive("{title: Wonder Wall Song}");
    c.handle_directive("{key: Em}");
    assert_eq!(artifact_name(&c), "Wonder-Wall-Song-Em");
}

#[test]
fn artifact_name_title_only_is_verbatim() {
    let mut c = Chart::build();
    c.handle_directive("{title: Wonderwall}");
    assert_eq!(artifact_name(&c), "Wonderwall");
}

#[test]
fn artifact_name_fallback() {
    let c = Chart::build();
    assert_eq!(artifact_name(&c), "new chart");
}

#[test]
fn config_build_ok() {
    let args = vec![
        String::from("prog"),
        String::from("in.txt"),
        String::from("out.pdf"),
    ];
    let c = match Config::build(args) {
        Ok(c) => c,
        Err(e) => panic!("unexpected error: {}", e),
    };
    assert_eq!(c.input_file, "in.txt");
    assert_eq!(c.output_file, "out.pdf");
}

#[test]
fn config_build_missing_input() {
    let args = vec![String::from("prog")];
    match Config::build(args) {
        Err(e) => assert_eq!(e, "Didn't get an input file."),
        Ok(_) => panic!("expected an error"),
    }
}

#[test]
fn config_build_missing_output() {
    let args = vec![String::from("prog"), String::from("in.txt")];
    match Config::build(args) {
        Err(e) => assert_eq!(e, "Didn't get an output file."),
        Ok(_) => panic!("expected an error"),
    }
}
