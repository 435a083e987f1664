//! The layout engine: walks a chart and computes positioned text runs for
//! a single fixed-size page, driven by an injected text-measuring
//! capability.
//!
//! Coordinates and measured dimensions are in layout units (thousandths of
//! a millimetre); `y` grows downward from the top of the page.  All cursor
//! arithmetic saturates at `u64::MAX`, so the layout is total whatever the
//! measurer returns; content past the bottom of the page is placed at
//! ever larger `y`, by design.

use vstd::prelude::*;
use vstd::string::*;

use crate::chart::Chart;
use crate::chart::ChartModel;
use crate::chart::ChartSection;
use crate::chart::Pair;
use crate::chart::PairModel;
use crate::chart::SectionModel;

verus! {

/// Page width, in layout units (ISO A4 portrait).
pub const DOC_WIDTH: u64 = 210000;

/// Page height, in layout units (ISO A4 portrait).
pub const DOC_HEIGHT: u64 = 297000;

/// Base padding, in layout units.
pub const PADDING: u64 = 4233;

/// The top-left margin where the cursor starts, in both axes.
pub const MARGIN: u64 = 2 * PADDING;

/// Point size of the chart title.
pub const SIZE_TITLE: u64 = 24;

/// Point size of the artist/tempo/key subtitle lines.
pub const SIZE_SUBTITLE: u64 = 10;

/// Point size of section titles, chords and lyrics.
pub const SIZE_BODY: u64 = 14;

/// The three font variants a run can ask for.
#[derive(Clone, Copy, PartialEq, Eq, Structural, Debug)]
pub enum FontVariant {
    Regular,
    Bold,
    Italic,
}

/// A measured width and height, in layout units.
#[derive(Clone, Copy, PartialEq, Eq, Structural, Debug)]
pub struct Dim {
    pub width: u64,
    pub height: u64,
}

/// One positioned text-placement instruction.
#[derive(Debug)]
pub struct TextRun {
    pub text: String,
    pub variant: FontVariant,
    pub size: u64,
    pub x: u64,
    pub y: u64,
}

/// Mathematical model of a [`TextRun`].
#[verifier::ext_equal]
pub ghost struct RunModel {
    pub text: Seq<char>,
    pub variant: FontVariant,
    pub size: u64,
    pub x: u64,
    pub y: u64,
}

impl DeepView for TextRun {
    type V = RunModel;

    open spec fn deep_view(&self) -> RunModel {
        RunModel {
            text: self.text.deep_view(),
            variant: self.variant,
            size: self.size,
            x: self.x,
            y: self.y,
        }
    }
}

impl DeepView for Dim {
    type V = Dim;

    open spec fn deep_view(&self) -> Dim {
        *self
    }
}

/// The measurements one section needs: its title, and one entry per pair
/// slot of each line (zero-sized for malformed slots).
pub struct SectionDims {
    pub title: Dim,
    pub lines: Vec<Vec<Dim>>,
}

/// Mathematical model of [`SectionDims`].
#[verifier::ext_equal]
pub ghost struct SectionDimsModel {
    pub title: Dim,
    pub lines: Seq<Seq<Dim>>,
}

impl DeepView for SectionDims {
    type V = SectionDimsModel;

    open spec fn deep_view(&self) -> SectionDimsModel {
        SectionDimsModel { title: self.title, lines: self.lines.deep_view() }
    }
}

/// Every measurement the layout algorithm consumes: the metadata strings,
/// the fixed reference probe, and each section's strings.
pub struct PageDims {
    pub title: Dim,
    pub artist: Dim,
    pub tempo: Dim,
    pub reference: Dim,
    pub sections: Vec<SectionDims>,
}

/// Mathematical model of [`PageDims`].
#[verifier::ext_equal]
pub ghost struct PageDimsModel {
    pub title: Dim,
    pub artist: Dim,
    pub tempo: Dim,
    pub reference: Dim,
    pub sections: Seq<SectionDimsModel>,
}

impl DeepView for PageDims {
    type V = PageDimsModel;

    open spec fn deep_view(&self) -> PageDimsModel {
        PageDimsModel {
            title: self.title,
            artist: self.artist,
            tempo: self.tempo,
            reference: self.reference,
            sections: self.sections.deep_view(),
        }
    }
}

/// The text-measuring capability: width and height, in layout units, of
/// `text` rendered in `variant` at `size` points.  Nothing is assumed of
/// the results; the layout is correct for every answer.
pub trait TextMeasurer {
    fn measure(&mut self, variant: FontVariant, size: u64, text: &str) -> Dim;
}

/// `a + b`, saturating at `u64::MAX`.
pub open spec fn sat_add(a: u64, b: u64) -> u64 {
    if a + b > u64::MAX {
        u64::MAX
    } else {
        (a + b) as u64
    }
}

/// Executable counterpart of [`sat_add`].
pub fn add_sat(a: u64, b: u64) -> (r: u64)
    ensures
        r == sat_add(a, b),
{
    if a > u64::MAX - b {
        u64::MAX
    } else {
        a + b
    }
}

/// The line advance derived from a measured height: `1.4 × h`, in integer
/// layout units, saturating at `u64::MAX`.
pub open spec fn line_height(h: u64) -> u64 {
    if h * 14 / 10 > u64::MAX {
        u64::MAX
    } else {
        (h * 14 / 10) as u64
    }
}

/// Executable counterpart of [`line_height`].
pub fn line_height_of(h: u64) -> (r: u64)
    ensures
        r == line_height(h),
{
    let t: u128 = (h as u128) * 14 / 10;
    if t > u64::MAX as u128 {
        u64::MAX
    } else {
        t as u64
    }
}

/// A run, assembled.
pub open spec fn run_at(text: Seq<char>, variant: FontVariant, size: u64, x: u64, y: u64)
    -> RunModel {
    RunModel { text, variant, size, x, y }
}

/// The dimension for slot `i`, zero when the measurer supplied none.
pub open spec fn dim_at(ds: Seq<Dim>, i: int) -> Dim {
    if 0 <= i < ds.len() {
        ds[i]
    } else {
        Dim { width: 0, height: 0 }
    }
}

/// The dimension row for line `i`, empty when the measurer supplied none.
pub open spec fn row_at(ds: Seq<Seq<Dim>>, i: int) -> Seq<Dim> {
    if 0 <= i < ds.len() {
        ds[i]
    } else {
        Seq::empty()
    }
}

/// The dimensions for section `i`, zero when the measurer supplied none.
pub open spec fn sec_dims_at(ds: Seq<SectionDimsModel>, i: int) -> SectionDimsModel {
    if 0 <= i < ds.len() {
        ds[i]
    } else {
        SectionDimsModel { title: Dim { width: 0, height: 0 }, lines: Seq::empty() }
    }
}

/// Runs and final x-cursor after the first `n` pair slots of one line.
/// A pair's chord (if any) is placed at the cursor and its lyric one line
/// below it; only the lyric's width advances the cursor.  Malformed
/// (`None`) slots place nothing.
pub open spec fn place_pairs_upto(
    pairs: Seq<Option<PairModel>>,
    dims: Seq<Dim>,
    n: int,
    x0: u64,
    y: u64,
    below: u64,
) -> (Seq<RunModel>, u64)
    decreases n,
{
    if n <= 0 {
        (Seq::<RunModel>::empty(), x0)
    } else {
        let prev = place_pairs_upto(pairs, dims, n - 1, x0, y, below);
        if 0 <= n - 1 < pairs.len() {
            match pairs[n - 1] {
                None => prev,
                Some(p) => {
                    let chord_runs = match p.chord {
                        Some(ch) => seq![
                            run_at(ch, FontVariant::Regular, SIZE_BODY, prev.1, y),
                        ],
                        None => Seq::<RunModel>::empty(),
                    };
                    (
                        prev.0 + chord_runs + seq![
                            run_at(
                                p.lyric,
                                FontVariant::Regular,
                                SIZE_BODY,
                                prev.1,
                                sat_add(y, below),
                            ),
                        ],
                        sat_add(prev.1, dim_at(dims, n - 1).width),
                    )
                },
            }
        } else {
            prev
        }
    }
}

/// Runs and final y-cursor after the first `n` lines of one section: each
/// line's pairs start at the left margin, and the cursor then drops by two
/// line heights.
pub open spec fn place_lines_upto(
    lines: Seq<Seq<Option<PairModel>>>,
    dims: Seq<Seq<Dim>>,
    n: int,
    y0: u64,
    lh: u64,
) -> (Seq<RunModel>, u64)
    decreases n,
{
    if n <= 0 {
        (Seq::<RunModel>::empty(), y0)
    } else {
        let prev = place_lines_upto(lines, dims, n - 1, y0, lh);
        if 0 <= n - 1 < lines.len() {
            let lr = place_pairs_upto(
                lines[n - 1],
                row_at(dims, n - 1),
                lines[n - 1].len() as int,
                MARGIN,
                prev.1,
                lh,
            );
            (prev.0 + lr.0, sat_add(prev.1, sat_add(lh, lh)))
        } else {
            prev
        }
    }
}

/// Runs and final y-cursor after the first `n` sections: a bold title at
/// the margin, the section's lines below it, and one extra line height as
/// a separator.  The line height within a section is `1.4 ×` the measured
/// height of its title.
pub open spec fn place_sections_upto(
    secs: Seq<SectionModel>,
    dims: Seq<SectionDimsModel>,
    n: int,
    y0: u64,
) -> (Seq<RunModel>, u64)
    decreases n,
{
    if n <= 0 {
        (Seq::<RunModel>::empty(), y0)
    } else {
        let prev = place_sections_upto(secs, dims, n - 1, y0);
        if 0 <= n - 1 < secs.len() {
            let s = secs[n - 1];
            let sd = sec_dims_at(dims, n - 1);
            let lh = line_height(sd.title.height);
            let title_run = run_at(s.title, FontVariant::Bold, SIZE_BODY, MARGIN, prev.1);
            let lr = place_lines_upto(s.lines, sd.lines, s.lines.len() as int, sat_add(prev.1, lh), lh);
            (prev.0 + seq![title_run] + lr.0, sat_add(lr.1, lh))
        } else {
            prev
        }
    }
}

/// Runs and final y-cursor of the metadata block: bold title, italic
/// artist line, italic tempo and key sharing one line, then a gap of two
/// reference line heights.
pub open spec fn place_meta(c: ChartModel, d: PageDimsModel) -> (Seq<RunModel>, u64) {
    let y0 = MARGIN;
    let s1: (Seq<RunModel>, u64) = match c.title {
        Some(t) => (
            seq![run_at(t, FontVariant::Bold, SIZE_TITLE, MARGIN, y0)],
            sat_add(y0, d.title.height),
        ),
        None => (Seq::<RunModel>::empty(), y0),
    };
    let s2: (Seq<RunModel>, u64) = match c.artist {
        Some(a) => (
            s1.0 + seq![run_at("Artist: "@ + a, FontVariant::Italic, SIZE_SUBTITLE, MARGIN, s1.1)],
            sat_add(s1.1, line_height(d.artist.height)),
        ),
        None => s1,
    };
    let s3: (Seq<RunModel>, u64) = match c.tempo {
        Some(t) => (
            s2.0 + seq![
                run_at("Tempo: "@ + t + " |"@, FontVariant::Italic, SIZE_SUBTITLE, MARGIN, s2.1),
            ],
            sat_add(MARGIN, d.tempo.width),
        ),
        None => (s2.0, MARGIN),
    };
    let r4 = match c.key {
        Some(k) => s3.0 + seq![
            run_at(" Key: "@ + k, FontVariant::Italic, SIZE_SUBTITLE, s3.1, s2.1),
        ],
        None => s3.0,
    };
    let lh = line_height(d.reference.height);
    (r4, sat_add(s2.1, sat_add(lh, lh)))
}

/// Every run the layout of `c` produces, given the measurements `d`.
pub open spec fn spec_place(c: ChartModel, d: PageDimsModel) -> Seq<RunModel> {
    let meta = place_meta(c, d);
    let secs = place_sections_upto(c.sections, d.sections, c.sections.len() as int, meta.1);
    meta.0 + secs.0
}

/// Placement looks only at the first `m` slots: two lines that agree
/// there (slots and measurements alike) place the same runs and leave the
/// cursor in the same place.
proof fn lemma_place_pairs_prefix(
    p1: Seq<Option<PairModel>>,
    d1: Seq<Dim>,
    p2: Seq<Option<PairModel>>,
    d2: Seq<Dim>,
    m: int,
    x0: u64,
    y: u64,
    below: u64,
)
    requires
        m <= p1.len(),
        m <= p2.len(),
        forall|i: int| 0 <= i < m ==> p1[i] == p2[i],
        forall|i: int| 0 <= i < m ==> dim_at(d1, i) == dim_at(d2, i),
    ensures
        place_pairs_upto(p1, d1, m, x0, y, below) == place_pairs_upto(p2, d2, m, x0, y, below),
    decreases m,
{
    if m > 0 {
        lemma_place_pairs_prefix(p1, d1, p2, d2, m - 1, x0, y, below);
    }
}

/// Law: a malformed (`None`) slot is excluded from the rendered output —
/// it places no run and moves no cursor, so the line lays out exactly as
/// the same line with that slot and its measurement removed.
pub proof fn lemma_none_slot_removed(
    pairs: Seq<Option<PairModel>>,
    dims: Seq<Dim>,
    j: int,
    n: int,
    x0: u64,
    y: u64,
    below: u64,
)
    requires
        0 <= j < pairs.len(),
        pairs[j] is None,
        dims.len() == pairs.len(),
        j < n <= pairs.len(),
    ensures
        place_pairs_upto(pairs, dims, n, x0, y, below) == place_pairs_upto(
            pairs.remove(j),
            dims.remove(j),
            n - 1,
            x0,
            y,
            below,
        ),
    decreases n,
{
    let rp = pairs.remove(j);
    let rd = dims.remove(j);
    pairs.remove_ensures(j);
    dims.remove_ensures(j);
    if n == j + 1 {
        assert(place_pairs_upto(pairs, dims, n, x0, y, below) == place_pairs_upto(
            pairs,
            dims,
            j,
            x0,
            y,
            below,
        ));
        lemma_place_pairs_prefix(pairs, dims, rp, rd, j, x0, y, below);
    } else {
        lemma_none_slot_removed(pairs, dims, j, n - 1, x0, y, below);
        assert(rp[n - 2] == pairs[n - 1]);
        assert(dim_at(rd, n - 2) == dim_at(dims, n - 1));
    }
}

/// The measurements of one section line up with its lines and pair slots.
pub open spec fn sec_dims_match(s: SectionModel, d: SectionDimsModel) -> bool {
    &&& d.lines.len() == s.lines.len()
    &&& forall|k: int|
        0 <= k < s.lines.len() ==> (#[trigger] d.lines[k]).len() == s.lines[k].len()
}

/// The measurements line up with the chart's sections.
pub open spec fn dims_match(c: ChartModel, d: PageDimsModel) -> bool {
    &&& d.sections.len() == c.sections.len()
    &&& forall|i: int|
        0 <= i < c.sections.len() ==> sec_dims_match(
            c.sections[i],
            #[trigger] d.sections[i],
        )
}

/// Places the pair slots of one line, appending to `runs`; returns the
/// final x-cursor.
fn place_pairs(
    line: &Vec<Option<Pair>>,
    dims: &Vec<Dim>,
    x0: u64,
    y: u64,
    below: u64,
    runs: &mut Vec<TextRun>,
) -> (xf: u64)
    ensures
        ({
            let st = place_pairs_upto(
                line.deep_view(),
                dims.deep_view(),
                line@.len() as int,
                x0,
                y,
                below,
            );
            &&& final(runs).deep_view() == old(runs).deep_view() + st.0
            &&& xf == st.1
        }),
{
    let ghost pv = line.deep_view();
    let ghost dv = dims.deep_view();
    let ghost base = runs.deep_view();
    let mut x = x0;
    proof {
        assert(base + place_pairs_upto(pv, dv, 0, x0, y, below).0 =~= base);
    }
    let mut i: usize = 0;
    while i < line.len()
        invariant
            i <= line.len(),
            pv == line.deep_view(),
            dv == dims.deep_view(),
            pv.len() == line@.len(),
            runs.deep_view() == base + place_pairs_upto(pv, dv, i as int, x0, y, below).0,
            x == place_pairs_upto(pv, dv, i as int, x0, y, below).1,
        decreases line.len() - i,
    {
        let ghost st = place_pairs_upto(pv, dv, i as int, x0, y, below);
        match &line[i] {
            None => {
                proof {
                    assert(pv[i as int] is None);
                    assert(place_pairs_upto(pv, dv, i + 1 as int, x0, y, below) == st);
                }
            },
            Some(pair) => {
                let d = if i < dims.len() {
                    dims[i]
                } else {
                    Dim { width: 0, height: 0 }
                };
                let ghost r0 = runs.deep_view();
                match &pair.chord {
                    Some(ch) => {
                        runs.push(
                            TextRun {
                                text: String::from_str(ch.as_str()),
                                variant: FontVariant::Regular,
                                size: SIZE_BODY,
                                x,
                                y,
                            },
                        );
                    },
                    None => {},
                }
                runs.push(
                    TextRun {
                        text: String::from_str(pair.lyric.as_str()),
                        variant: FontVariant::Regular,
                        size: SIZE_BODY,
                        x,
                        y: add_sat(y, below),
                    },
                );
                x = add_sat(x, d.width);
                proof {
                    let p = pv[i as int]->Some_0;
                    assert(p == pair.deep_view());
                    assert(d == dim_at(dv, i as int));
                    let nxt = place_pairs_upto(pv, dv, i + 1 as int, x0, y, below);
                    match p.chord {
                        Some(ch) => {
                            assert(runs.deep_view() =~= r0.push(
                                run_at(ch, FontVariant::Regular, SIZE_BODY, st.1, y),
                            ).push(
                                run_at(
                                    p.lyric,
                                    FontVariant::Regular,
                                    SIZE_BODY,
                                    st.1,
                                    sat_add(y, below),
                                ),
                            ));
                            assert(runs.deep_view() =~= base + nxt.0);
                        },
                        None => {
                            assert(runs.deep_view() =~= r0.push(
                                run_at(
                                    p.lyric,
                                    FontVariant::Regular,
                                    SIZE_BODY,
                                    st.1,
                                    sat_add(y, below),
                                ),
                            ));
                            assert(runs.deep_view() =~= base + nxt.0);
                        },
                    }
                    assert(x == nxt.1);
                }
            },
        }
        i = i + 1;
    }
    x
}

/// Places the lines of one section, appending to `runs`; returns the
/// final y-cursor.
fn place_line_list(
    lines: &Vec<Vec<Option<Pair>>>,
    dims: &Vec<Vec<Dim>>,
    y0: u64,
    lh: u64,
    runs: &mut Vec<TextRun>,
) -> (yf: u64)
    ensures
        ({
            let st = place_lines_upto(
                lines.deep_view(),
                dims.deep_view(),
                lines@.len() as int,
                y0,
                lh,
            );
            &&& final(runs).deep_view() == old(runs).deep_view() + st.0
            &&& yf == st.1
        }),
{
    let ghost lv = lines.deep_view();
    let ghost dv = dims.deep_view();
    let ghost base = runs.deep_view();
    let mut y = y0;
    let empty_row: Vec<Dim> = Vec::new();
    proof {
        assert(base + place_lines_upto(lv, dv, 0, y0, lh).0 =~= base);
        assert(empty_row.deep_view() =~= Seq::<Dim>::empty());
    }
    let mut i: usize = 0;
    while i < lines.len()
        invariant
            i <= lines.len(),
            lv == lines.deep_view(),
            dv == dims.deep_view(),
            lv.len() == lines@.len(),
            empty_row.deep_view() == Seq::<Dim>::empty(),
            runs.deep_view() == base + place_lines_upto(lv, dv, i as int, y0, lh).0,
            y == place_lines_upto(lv, dv, i as int, y0, lh).1,
        decreases lines.len() - i,
    {
        let ghost st = place_lines_upto(lv, dv, i as int, y0, lh);
        let row = if i < dims.len() {
            &dims[i]
        } else {
            &empty_row
        };
        proof {
            assert(row.deep_view() == row_at(dv, i as int));
            assert(lines[i as int].deep_view() == lv[i as int]);
        }
        let ghost r0 = runs.deep_view();
        let _ = place_pairs(&lines[i], row, MARGIN, y, lh, runs);
        y = add_sat(y, add_sat(lh, lh));
        proof {
            let lr = place_pairs_upto(
                lv[i as int],
                row_at(dv, i as int),
                lv[i as int].len() as int,
                MARGIN,
                st.1,
                lh,
            );
            let nxt = place_lines_upto(lv, dv, i + 1 as int, y0, lh);
            assert(runs.deep_view() =~= base + nxt.0);
            assert(y == nxt.1);
        }
        i = i + 1;
    }
    y
}

/// Places the sections of the chart, appending to `runs`; returns the
/// final y-cursor.
fn place_section_list(
    secs: &Vec<ChartSection>,
    dims: &Vec<SectionDims>,
    y0: u64,
    runs: &mut Vec<TextRun>,
) -> (yf: u64)
    ensures
        ({
            let st = place_sections_upto(
                secs.deep_view(),
                dims.deep_view(),
                secs@.len() as int,
                y0,
            );
            &&& final(runs).deep_view() == old(runs).deep_view() + st.0
            &&& yf == st.1
        }),
{
    let ghost sv = secs.deep_view();
    let ghost dv = dims.deep_view();
    let ghost base = runs.deep_view();
    let mut y = y0;
    proof {
        assert(base + place_sections_upto(sv, dv, 0, y0).0 =~= base);
    }
    let mut i: usize = 0;
    while i < secs.len()
        invariant
            i <= secs.len(),
            sv == secs.deep_view(),
            dv == dims.deep_view(),
            sv.len() == secs@.len(),
            runs.deep_view() == base + place_sections_upto(sv, dv, i as int, y0).0,
            y == place_sections_upto(sv, dv, i as int, y0).1,
        decreases secs.len() - i,
    {
        let ghost st = place_sections_upto(sv, dv, i as int, y0);
        let sec = &secs[i];
        let sd_title = if i < dims.len() {
            dims[i].title
        } else {
            Dim { width: 0, height: 0 }
        };
        let ghost r0 = runs.deep_view();
        runs.push(
            TextRun {
                text: String::from_str(sec.title.as_str()),
                variant: FontVariant::Bold,
                size: SIZE_BODY,
                x: MARGIN,
                y,
            },
        );
        let lh = line_height_of(sd_title.height);
        let empty_lines: Vec<Vec<Dim>> = Vec::new();
        let rows = if i < dims.len() {
            &dims[i].lines
        } else {
            &empty_lines
        };
        proof {
            assert(empty_lines.deep_view() =~= Seq::<Seq<Dim>>::empty());
            assert(sd_title == sec_dims_at(dv, i as int).title);
            assert(rows.deep_view() == sec_dims_at(dv, i as int).lines);
            assert(sec.deep_view() == sv[i as int]);
            assert(runs.deep_view() =~= r0.push(
                run_at(sv[i as int].title, FontVariant::Bold, SIZE_BODY, MARGIN, st.1),
            ));
        }
        let y1 = place_line_list(&sec.lines, rows, add_sat(y, lh), lh, runs);
        y = add_sat(y1, lh);
        proof {
            let sd = sec_dims_at(dv, i as int);
            let lr = place_lines_upto(
                sv[i as int].lines,
                sd.lines,
                sv[i as int].lines.len() as int,
                sat_add(st.1, line_height(sd.title.height)),
                line_height(sd.title.height),
            );
            let nxt = place_sections_upto(sv, dv, i + 1 as int, y0);
            assert(runs.deep_view() =~= base + nxt.0);
            assert(y == nxt.1);
        }
        i = i + 1;
    }
    y
}

/// Lays the chart out from the given measurements: the exact sequence of
/// positioned runs is a pure function of chart and measurements.
pub fn place(chart: &Chart, dims: &PageDims) -> (r: Vec<TextRun>)
    ensures
        r.deep_view() == spec_place(chart.deep_view(), dims.deep_view()),
{
    let ghost cv = chart.deep_view();
    let ghost dv = dims.deep_view();
    let mut runs: Vec<TextRun> = Vec::new();
    let mut y: u64 = MARGIN;
    match &chart.title {
        Some(t) => {
            runs.push(
                TextRun {
                    text: String::from_str(t.as_str()),
                    variant: FontVariant::Bold,
                    size: SIZE_TITLE,
                    x: MARGIN,
                    y: MARGIN,
                },
            );
            y = add_sat(y, dims.title.height);
        },
        None => {},
    }
    match &chart.artist {
        Some(a) => {
            let mut s = String::from_str("Artist: ");
            s.append(a.as_str());
            runs.push(
                TextRun {
                    text: s,
                    variant: FontVariant::Italic,
                    size: SIZE_SUBTITLE,
                    x: MARGIN,
                    y,
                },
            );
            y = add_sat(y, line_height_of(dims.artist.height));
        },
        None => {},
    }
    let mut x: u64 = MARGIN;
    match &chart.tempo {
        Some(t) => {
            let mut s = String::from_str("Tempo: ");
            s.append(t.as_str());
            s.append(" |");
            runs.push(
                TextRun {
                    text: s,
                    variant: FontVariant::Italic,
                    size: SIZE_SUBTITLE,
                    x: MARGIN,
                    y,
                },
            );
            x = add_sat(MARGIN, dims.tempo.width);
        },
        None => {},
    }
    match &chart.key {
        Some(k) => {
            let mut s = String::from_str(" Key: ");
            s.append(k.as_str());
            runs.push(
                TextRun {
                    text: s,
                    variant: FontVariant::Italic,
                    size: SIZE_SUBTITLE,
                    x,
                    y,
                },
            );
        },
        None => {},
    }
    let lh = line_height_of(dims.reference.height);
    y = add_sat(y, add_sat(lh, lh));
    proof {
        assert(runs.deep_view() =~= place_meta(cv, dv).0);
        assert(y == place_meta(cv, dv).1);
    }
    let _ = place_section_list(&chart.sections, &dims.sections, y, &mut runs);
    proof {
        assert(runs.deep_view() =~= spec_place(cv, dv));
    }
    runs
}

/// Collects every measurement the layout consumes, in layout order, by
/// asking the measurer; malformed pair slots get a zero dimension without
/// a call.
pub fn gather_dims<M: TextMeasurer>(chart: &Chart, m: &mut M) -> (d: PageDims)
    ensures
        dims_match(chart.deep_view(), d.deep_view()),
{
    let title = match &chart.title {
        Some(t) => m.measure(FontVariant::Bold, SIZE_TITLE, t.as_str()),
        None => Dim { width: 0, height: 0 },
    };
    let artist = match &chart.artist {
        Some(a) => {
            let mut s = String::from_str("Artist: ");
            s.append(a.as_str());
            m.measure(FontVariant::Italic, SIZE_SUBTITLE, s.as_str())
        },
        None => Dim { width: 0, height: 0 },
    };
    let tempo = match &chart.tempo {
        Some(t) => {
            let mut s = String::from_str("Tempo: ");
            s.append(t.as_str());
            s.append(" |");
            m.measure(FontVariant::Italic, SIZE_SUBTITLE, s.as_str())
        },
        None => Dim { width: 0, height: 0 },
    };
    let reference = m.measure(FontVariant::Italic, SIZE_SUBTITLE, "hoo");
    let mut sections: Vec<SectionDims> = Vec::new();
    let ghost cv = chart.deep_view();
    let mut i: usize = 0;
    while i < chart.sections.len()
        invariant
            i <= chart.sections.len(),
            cv == chart.deep_view(),
            cv.sections.len() == chart.sections@.len(),
            sections.deep_view().len() == i,
            forall|j: int|
                0 <= j < i ==> sec_dims_match(
                    cv.sections[j],
                    #[trigger] sections.deep_view()[j],
                ),
        decreases chart.sections.len() - i,
    {
        let sec = &chart.sections[i];
        let title_dim = m.measure(FontVariant::Regular, SIZE_BODY, sec.title.as_str());
        let mut rows: Vec<Vec<Dim>> = Vec::new();
        let mut j: usize = 0;
        while j < sec.lines.len()
            invariant
                j <= sec.lines.len(),
                cv == chart.deep_view(),
                0 <= i < chart.sections@.len(),
                sec == &chart.sections[i as int],
                cv.sections.len() == chart.sections@.len(),
                rows.deep_view().len() == j,
                forall|k: int|
                    0 <= k < j ==> (#[trigger] rows.deep_view()[k]).len()
                        == cv.sections[i as int].lines[k].len(),
            decreases sec.lines.len() - j,
        {
            let line = &sec.lines[j];
            let mut row: Vec<Dim> = Vec::new();
            let mut k: usize = 0;
            while k < line.len()
                invariant
                    k <= line.len(),
                    row.deep_view().len() == k,
                decreases line.len() - k,
            {
                match &line[k] {
                    Some(p) => {
                        let dm = m.measure(FontVariant::Regular, SIZE_BODY, p.lyric.as_str());
                        row.push(dm);
                    },
                    None => {
                        row.push(Dim { width: 0, height: 0 });
                    },
                }
                k = k + 1;
            }
            let ghost prev_rows = rows.deep_view();
            rows.push(row);
            proof {
                assert(rows.deep_view() =~= prev_rows.push(row.deep_view()));
                assert(line.deep_view() == cv.sections[i as int].lines[j as int]);
                assert(rows.deep_view()[j as int].len() == cv.sections[i as int].lines[j as int].len());
            }
            j = j + 1;
        }
        let ghost prev_secs = sections.deep_view();
        let ghost rows_dv = rows.deep_view();
        sections.push(SectionDims { title: title_dim, lines: rows });
        proof {
            assert(sections.deep_view() =~= prev_secs.push(
                SectionDimsModel { title: title_dim, lines: rows_dv },
            ));
            assert(sec.deep_view() == cv.sections[i as int]);
            assert(sec_dims_match(
                cv.sections[i as int],
                sections.deep_view()[i as int],
            ));
        }
        i = i + 1;
    }
    PageDims { title, artist, tempo, reference, sections }
}

/// Lays a chart out with the given measurer: what comes back is the
/// layout algorithm applied to the chart and a matching set of
/// measurements.
pub fn layout<M: TextMeasurer>(chart: &Chart, measurer: &mut M) -> (r: Vec<TextRun>)
    ensures
        exists|d: PageDimsModel|
            dims_match(chart.deep_view(), d) && r.deep_view() == spec_place(
                chart.deep_view(),
                d,
            ),
{
    let dims = gather_dims(chart, measurer);
    let r = place(chart, &dims);
    proof {
        let dv = dims.deep_view();
        assert(dims_match(chart.deep_view(), dv) && r.deep_view() == spec_place(
            chart.deep_view(),
            dv,
        ));
    }
    r
}

/// The title with every space replaced by a dash.
pub open spec fn dash_spaces(s: Seq<char>) -> Seq<char> {
    s.map_values(|c: char| if c == ' ' { '-' } else { c })
}

/// The name of the rendered artifact: title (spaces dashed) joined to the
/// key with a dash when both are set; the title verbatim when only it is
/// set; a fixed fallback otherwise.
pub open spec fn spec_artifact_name(c: ChartModel) -> Seq<char> {
    match (c.title, c.key) {
        (Some(t), Some(k)) => dash_spaces(t) + "-"@ + k,
        (Some(t), None) => t,
        (None, _) => "new chart"@,
    }
}

/// Executable counterpart of [`spec_artifact_name`].
pub fn artifact_name(chart: &Chart) -> (r: String)
    ensures
        r@ == spec_artifact_name(chart.deep_view()),
{
    match (&chart.title, &chart.key) {
        (Some(t), Some(k)) => {
            let mut out = String::new();
            let len = t.as_str().unicode_len();
            let mut i: usize = 0;
            proof {
                reveal_strlit("-");
                assert(out@ =~= dash_spaces(t@).take(0));
            }
            while i < len
                invariant
                    i <= len,
                    len == t@.len(),
                    out@ == dash_spaces(t@).take(i as int),
                decreases len - i,
            {
                let c = t.as_str().get_char(i);
                if c == ' ' {
                    out.append("-");
                } else {
                    out.append(t.as_str().substring_char(i, i + 1));
                }
                proof {
                    reveal_strlit("-");
                    assert(t@.subrange(i as int, i + 1 as int) =~= seq![t@[i as int]]);
                    assert("-"@ =~= seq!['-']);
                    assert(out@ =~= dash_spaces(t@).take(i + 1 as int));
                }
                i = i + 1;
            }
            proof {
                assert(dash_spaces(t@).take(len as int) =~= dash_spaces(t@));
            }
            out.append("-");
            out.append(k.as_str());
            proof {
                reveal_strlit("-");
                assert("-"@ =~= seq!['-']);
            }
            out
        },
        (Some(t), None) => String::from_str(t.as_str()),
        (None, _) => String::from_str("new chart"),
    }
}

} // verus!
