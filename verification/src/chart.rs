//! The chart document model and its parser: directives (`{key: value}`),
//! chord/lyric lines (`[C]Hello [G]world`), and blank-line-delimited blocks.

use vstd::prelude::*;
use vstd::string::*;

use crate::text::find_from;
use crate::text::lines_of;
use crate::text::lines_str;
use crate::text::split_blocks;
use crate::text::split_blocks_str;
use crate::text::split_char;
use crate::text::split_char_str;
use crate::text::trim;
use crate::text::trim_str;
use crate::text::find_char;
use crate::text::str_eq;

verus! {

/// A lyric fragment with an optional chord symbol anchored at its start.
pub struct Pair {
    pub lyric: String,
    pub chord: Option<String>,
}

/// A titled, ordered group of parsed lines.
pub struct ChartSection {
    pub title: String,
    pub lines: Vec<Vec<Option<Pair>>>,
}

/// The document root: metadata fields plus ordered sections.
pub struct Chart {
    pub title: Option<String>,
    pub artist: Option<String>,
    pub tempo: Option<String>,
    pub key: Option<String>,
    pub sections: Vec<ChartSection>,
}

/// Mathematical model of a [`Pair`].
#[verifier::ext_equal]
pub ghost struct PairModel {
    pub lyric: Seq<char>,
    pub chord: Option<Seq<char>>,
}

/// Mathematical model of a [`ChartSection`].
#[verifier::ext_equal]
pub ghost struct SectionModel {
    pub title: Seq<char>,
    pub lines: Seq<Seq<Option<PairModel>>>,
}

/// Mathematical model of a [`Chart`].
#[verifier::ext_equal]
pub ghost struct ChartModel {
    pub title: Option<Seq<char>>,
    pub artist: Option<Seq<char>>,
    pub tempo: Option<Seq<char>>,
    pub key: Option<Seq<char>>,
    pub sections: Seq<SectionModel>,
}

impl DeepView for Pair {
    type V = PairModel;

    open spec fn deep_view(&self) -> PairModel {
        PairModel { lyric: self.lyric.deep_view(), chord: self.chord.deep_view() }
    }
}

impl DeepView for ChartSection {
    type V = SectionModel;

    open spec fn deep_view(&self) -> SectionModel {
        SectionModel { title: self.title.deep_view(), lines: self.lines.deep_view() }
    }
}

impl DeepView for Chart {
    type V = ChartModel;

    open spec fn deep_view(&self) -> ChartModel {
        ChartModel {
            title: self.title.deep_view(),
            artist: self.artist.deep_view(),
            tempo: self.tempo.deep_view(),
            key: self.key.deep_view(),
            sections: self.sections.deep_view(),
        }
    }
}

/// The empty chart: no metadata, no sections.
pub open spec fn empty_chart() -> ChartModel {
    ChartModel { title: None, artist: None, tempo: None, key: None, sections: Seq::empty() }
}

// ------------------------------------------------------------------
// Directive parsing
// ------------------------------------------------------------------

/// Index of the first `:` or `}` in `s` at or after `start`, or `-1`.
pub open spec fn find_colon_or_close(s: Seq<char>, start: int) -> int
    decreases s.len() - start,
{
    if start < 0 || start >= s.len() {
        -1
    } else if s[start] == ':' || s[start] == '}' {
        start
    } else {
        find_colon_or_close(s, start + 1)
    }
}

/// End of the key of a directive opened at `i`: the first `:` or `}` after
/// the brace.
pub open spec fn key_end(s: Seq<char>, i: int) -> int {
    find_colon_or_close(s, i + 1)
}

/// End of the value of a directive whose colon stands at `j`: the first
/// `}` after it.
pub open spec fn val_end(s: Seq<char>, j: int) -> int {
    find_from(s, j + 1, '}')
}

/// A directive pattern `{ key : value }` opens at position `i`: a brace,
/// at least one key character (none of which is `:` or `}`), a colon, and
/// a closing brace with no other `}` before it.
pub open spec fn match_at(s: Seq<char>, i: int) -> bool {
    &&& 0 <= i < s.len()
    &&& s[i] == '{'
    &&& {
        let j = key_end(s, i);
        &&& j != -1
        &&& s[j] == ':'
        &&& j > i + 1
        &&& val_end(s, j) != -1
    }
}

/// Position of the first directive pattern at or after `i`, or `-1`.
pub open spec fn first_match(s: Seq<char>, i: int) -> int
    decreases s.len() - i,
{
    if i < 0 || i >= s.len() {
        -1
    } else if match_at(s, i) {
        i
    } else {
        first_match(s, i + 1)
    }
}

/// The key and value of the first directive pattern in the line, both with
/// surrounding whitespace trimmed; `None` when the line holds no such
/// pattern.
pub open spec fn spec_directive(s: Seq<char>) -> Option<(Seq<char>, Seq<char>)> {
    let i = first_match(s, 0);
    if i == -1 {
        None
    } else {
        let j = key_end(s, i);
        let k = val_end(s, j);
        Some((trim(s.subrange(i + 1, j)), trim(s.subrange(j + 1, k))))
    }
}

/// The chart after one line is interpreted as a directive: `title`,
/// `artist`, `tempo` and `key` update the matching field (last write
/// wins); every other key, `label` included, leaves the chart unchanged.
pub open spec fn apply_directive(c: ChartModel, line: Seq<char>) -> ChartModel {
    match spec_directive(line) {
        None => c,
        Some((k, v)) => {
            if k == "title"@ {
                ChartModel { title: Some(v), ..c }
            } else if k == "artist"@ {
                ChartModel { artist: Some(v), ..c }
            } else if k == "tempo"@ {
                ChartModel { tempo: Some(v), ..c }
            } else if k == "key"@ {
                ChartModel { key: Some(v), ..c }
            } else {
                c
            }
        },
    }
}

/// The section title announced by a line, when its first directive is a
/// `label` directive with a non-empty (trimmed) value.  A label with an
/// empty value announces nothing: a section always has a non-empty title.
pub open spec fn label_of(line: Seq<char>) -> Option<Seq<char>> {
    match spec_directive(line) {
        Some((k, v)) => if k == "label"@ && v.len() > 0 {
            Some(v)
        } else {
            None
        },
        None => None,
    }
}

/// The five recognized directive keys are pairwise distinct.
pub proof fn lemma_keys_distinct()
    ensures
        "title"@ != "label"@,
        "artist"@ != "label"@,
        "tempo"@ != "label"@,
        "key"@ != "label"@,
        "title"@ != "artist"@,
        "title"@ != "tempo"@,
        "title"@ != "key"@,
        "artist"@ != "tempo"@,
        "artist"@ != "key"@,
        "tempo"@ != "key"@,
{
    reveal_strlit("label");
    reveal_strlit("title");
    reveal_strlit("artist");
    reveal_strlit("tempo");
    reveal_strlit("key");
    assert("label"@[0] == 'l' && "title"@[0] == 't' && "artist"@[0] == 'a' && "tempo"@[0] == 't'
        && "key"@[0] == 'k');
    assert("title"@[1] == 'i' && "tempo"@[1] == 'e');
}

/// If `s[j]` is a `:` or `}` and no such character lies in `[start, j)`,
/// then `j` is what [`find_colon_or_close`] returns.
proof fn lemma_find_colon_or_close_is(s: Seq<char>, start: int, j: int)
    requires
        0 <= start <= j < s.len(),
        s[j] == ':' || s[j] == '}',
        forall|m: int| start <= m < j ==> s[m] != ':' && s[m] != '}',
    ensures
        find_colon_or_close(s, start) == j,
    decreases j - start,
{
    if start < j {
        lemma_find_colon_or_close_is(s, start + 1, j);
    }
}

/// Law: any directive line built from a key and a value parses back to
/// exactly that key and value, trimmed — the constructive face of the
/// metadata round trip.  The key must be non-empty and free of `:` and
/// `}`; the value free of `}`.
pub proof fn lemma_directive_synthesis(k: Seq<char>, v: Seq<char>)
    requires
        k.len() > 0,
        forall|m: int| 0 <= m < k.len() ==> k[m] != ':' && k[m] != '}',
        forall|m: int| 0 <= m < v.len() ==> v[m] != '}',
    ensures
        spec_directive("{"@ + k + ":"@ + v + "}"@) == Some((trim(k), trim(v))),
{
    reveal_strlit("{");
    reveal_strlit(":");
    reveal_strlit("}");
    let kn = k.len() as int;
    let vn = v.len() as int;
    let p1 = "{"@ + k;
    let p2 = p1 + ":"@;
    let p3 = p2 + v;
    let s = p3 + "}"@;
    assert(s.len() == kn + vn + 3);
    assert(s[0] == '{');
    assert(s[1 + kn] == ':');
    assert(s[2 + kn + vn] == '}');
    assert forall|m: int| 1 <= m < 1 + kn implies s[m] != ':' && s[m] != '}' by {
        assert(s[m] == k[m - 1]);
    }
    assert forall|m: int| 2 + kn <= m < 2 + kn + vn implies s[m] != '}' by {
        assert(s[m] == v[m - 2 - kn]);
    }
    lemma_find_colon_or_close_is(s, 1, 1 + kn);
    crate::text::lemma_find_from_is(s, 2 + kn, 2 + kn + vn, '}');
    assert(match_at(s, 0));
    assert(first_match(s, 0) == 0);
    assert(s.subrange(1, 1 + kn) =~= k);
    assert(s.subrange(2 + kn, 2 + kn + vn) =~= v);
}

/// A `label` directive, like an unrecognized one, never changes the
/// chart's metadata fields.
pub proof fn lemma_label_keeps_chart(c: ChartModel, line: Seq<char>)
    requires
        label_of(line) is Some,
    ensures
        apply_directive(c, line) == c,
{
    lemma_keys_distinct();
    let k = spec_directive(line)->Some_0.0;
    assert(k == "label"@);
}

/// Executable search for the first `:` or `}` at or after `start`.
fn find_colon_or_close_str(s: &str, start: usize) -> (r: Option<usize>)
    requires
        start <= s@.len(),
    ensures
        match r {
            Some(j) => find_colon_or_close(s@, start as int) == j && start <= j < s@.len(),
            None => find_colon_or_close(s@, start as int) == -1,
        },
{
    let len = s.unicode_len();
    let mut i: usize = start;
    while i < len
        invariant
            start <= i <= len,
            len == s@.len(),
            find_colon_or_close(s@, start as int) == find_colon_or_close(s@, i as int),
        decreases len - i,
    {
        let c = s.get_char(i);
        if c == ':' || c == '}' {
            return Some(i);
        }
        i = i + 1;
    }
    None
}

/// Extracts the first directive of a line: its trimmed key and value.
pub fn extract_directive(line: &str) -> (r: Option<(String, String)>)
    ensures
        r.deep_view() == spec_directive(line@),
{
    let len = line.unicode_len();
    let mut i: usize = 0;
    while i < len
        invariant
            i <= len,
            len == line@.len(),
            first_match(line@, 0) == first_match(line@, i as int),
        decreases len - i,
    {
        if line.get_char(i) == '{' {
            let je = find_colon_or_close_str(line, i + 1);
            match je {
                Some(j) if j > i + 1 && line.get_char(j) == ':' => {
                    let ke = find_char(line, j + 1, '}');
                    match ke {
                        Some(k) => {
                            proof {
                                assert(match_at(line@, i as int));
                                assert(first_match(line@, i as int) == i);
                            }
                            let key = trim_str(line.substring_char(i + 1, j));
                            let val = trim_str(line.substring_char(j + 1, k));
                            return Some((key, val));
                        },
                        None => {
                            proof {
                                assert(!match_at(line@, i as int));
                            }
                        },
                    }
                },
                _ => {
                    proof {
                        assert(!match_at(line@, i as int));
                    }
                },
            }
        } else {
            proof {
                assert(!match_at(line@, i as int));
            }
        }
        i = i + 1;
    }
    None
}

// ------------------------------------------------------------------
// Line parsing
// ------------------------------------------------------------------

/// The pair a bracket-opened fragment resolves to: `chord]lyric` with
/// exactly one `]` makes a pair; zero or several `]` make a malformed
/// (`None`) slot.
pub open spec fn frag_pair(f: Seq<char>) -> Option<PairModel> {
    let parts = split_char(f, ']');
    if parts.len() == 2 {
        Some(PairModel { chord: Some(parts[0]), lyric: parts[1] })
    } else {
        None
    }
}

/// The ordered pair slots of one lyric line: a chordless leading pair when
/// text stands before the first `[`, then one slot per bracket-opened
/// fragment.
pub open spec fn spec_parse_line(s: Seq<char>) -> Seq<Option<PairModel>> {
    let frags = split_char(s, '[');
    let tail = frags.drop_first().map_values(|f: Seq<char>| frag_pair(f));
    if frags[0].len() > 0 {
        seq![Some(PairModel { chord: None, lyric: frags[0] })] + tail
    } else {
        tail
    }
}

/// The chart after the lines of a block, all treated as directives, are
/// folded over it in order; `n` bounds how many lines have been applied.
pub open spec fn apply_lines_upto(c: ChartModel, ls: Seq<Seq<char>>, n: int) -> ChartModel
    decreases n,
{
    if n <= 0 {
        c
    } else {
        apply_directive(apply_lines_upto(c, ls, n - 1), ls[n - 1])
    }
}

/// The chart after one block of text. A block whose first line announces a
/// `label` gains a section holding its remaining lines, parsed; any other
/// non-empty block only feeds each of its lines to the directive parser;
/// an empty block changes nothing.
pub open spec fn spec_parse_section(c: ChartModel, block: Seq<char>) -> ChartModel {
    let ls = lines_of(block);
    if ls.len() == 0 {
        c
    } else {
        match label_of(ls[0]) {
            Some(title) => ChartModel {
                sections: c.sections.push(
                    SectionModel {
                        title,
                        lines: ls.drop_first().map_values(|l: Seq<char>| spec_parse_line(l)),
                    },
                ),
                ..c
            },
            None => apply_lines_upto(c, ls, ls.len() as int),
        }
    }
}

/// The chart after the blank-line-delimited blocks of a whole input text,
/// folded in order over the empty chart; `n` bounds how many blocks have
/// been consumed.
pub open spec fn build_upto(blocks: Seq<Seq<char>>, n: int) -> ChartModel
    decreases n,
{
    if n <= 0 {
        empty_chart()
    } else {
        spec_parse_section(build_upto(blocks, n - 1), blocks[n - 1])
    }
}

/// The chart a whole input text parses to.
pub open spec fn spec_build(text: Seq<char>) -> ChartModel {
    build_upto(split_blocks(text), split_blocks(text).len() as int)
}

/// How many times `c` occurs in `s`.
pub open spec fn count_char(s: Seq<char>, c: char) -> int
    decreases s.len(),
{
    if s.len() == 0 {
        0
    } else {
        (if s[0] == c {
            1 as int
        } else {
            0 as int
        }) + count_char(s.drop_first(), c)
    }
}

/// Counting distributes over concatenation.
proof fn lemma_count_char_app(a: Seq<char>, b: Seq<char>, c: char)
    ensures
        count_char(a + b, c) == count_char(a, c) + count_char(b, c),
    decreases a.len(),
{
    if a.len() == 0 {
        assert(a + b =~= b);
    } else {
        assert((a + b).drop_first() =~= a.drop_first() + b);
        lemma_count_char_app(a.drop_first(), b, c);
    }
}

/// A sequence without `c` counts zero.
proof fn lemma_count_char_zero(s: Seq<char>, c: char)
    requires
        forall|m: int| 0 <= m < s.len() ==> s[m] != c,
    ensures
        count_char(s, c) == 0,
    decreases s.len(),
{
    if s.len() > 0 {
        lemma_count_char_zero(s.drop_first(), c);
    }
}

/// Splitting on `sep` yields one more fragment than `sep` occurs.
pub proof fn lemma_split_char_count(s: Seq<char>, sep: char)
    ensures
        split_char(s, sep).len() == count_char(s, sep) + 1,
    decreases s.len(),
{
    let i = find_from(s, 0, sep);
    crate::text::lemma_find_from(s, 0, sep);
    if 0 <= i < s.len() {
        let a = s.take(i);
        let rest = s.skip(i + 1);
        lemma_split_char_count(rest, sep);
        assert(s =~= a + seq![s[i]] + rest);
        lemma_count_char_app(a + seq![s[i]], rest, sep);
        lemma_count_char_app(a, seq![s[i]], sep);
        lemma_count_char_zero(a, sep);
        assert(count_char(seq![s[i]], sep) == 1) by {
            assert(seq![s[i]].drop_first() =~= Seq::<char>::empty());
            assert(count_char(Seq::<char>::empty(), sep) == 0);
            assert(seq![s[i]][0] == sep);
        }
    } else {
        lemma_count_char_zero(s, sep);
    }
}

/// The lyric fields of a line's slots, concatenated in order; malformed
/// slots contribute nothing.
pub open spec fn lyrics_concat(slots: Seq<Option<PairModel>>) -> Seq<char>
    decreases slots.len(),
{
    if slots.len() == 0 {
        Seq::empty()
    } else {
        (match slots[0] {
            Some(p) => p.lyric,
            None => Seq::empty(),
        }) + lyrics_concat(slots.drop_first())
    }
}

/// Lyric concatenation distributes over concatenation of slot sequences.
proof fn lemma_lyrics_concat_app(xs: Seq<Option<PairModel>>, ys: Seq<Option<PairModel>>)
    ensures
        lyrics_concat(xs + ys) == lyrics_concat(xs) + lyrics_concat(ys),
    decreases xs.len(),
{
    if xs.len() == 0 {
        assert(xs + ys =~= ys);
        assert(lyrics_concat(xs) + lyrics_concat(ys) =~= lyrics_concat(ys));
    } else {
        assert((xs + ys).drop_first() =~= xs.drop_first() + ys);
        lemma_lyrics_concat_app(xs.drop_first(), ys);
        let h = match xs[0] {
            Some(p) => p.lyric,
            None => Seq::<char>::empty(),
        };
        assert(h + (lyrics_concat(xs.drop_first()) + lyrics_concat(ys)) =~= (h + lyrics_concat(
            xs.drop_first(),
        )) + lyrics_concat(ys));
    }
}

/// `s` with every bracket group removed, by a direct scan: ordinary
/// characters are kept; at a `[`, everything through the next `]` is
/// skipped.
pub open spec fn strip_brackets(s: Seq<char>) -> Seq<char>
    decreases s.len(),
{
    if s.len() == 0 {
        Seq::empty()
    } else if s[0] == '[' {
        let k = find_from(s, 0, ']');
        if 0 <= k < s.len() {
            strip_brackets(s.skip(k + 1))
        } else {
            Seq::empty()
        }
    } else {
        seq![s[0]] + strip_brackets(s.drop_first())
    }
}

/// A bracket-free sequence is left alone by the scan.
proof fn lemma_strip_no_bracket(s: Seq<char>)
    requires
        forall|m: int| 0 <= m < s.len() ==> s[m] != '[',
    ensures
        strip_brackets(s) == s,
    decreases s.len(),
{
    if s.len() > 0 {
        lemma_strip_no_bracket(s.drop_first());
        assert(seq![s[0]] + s.drop_first() =~= s);
    }
}

/// A bracket-free prefix passes through the scan unchanged.
proof fn lemma_strip_prefix(a: Seq<char>, u: Seq<char>)
    requires
        forall|m: int| 0 <= m < a.len() ==> a[m] != '[',
    ensures
        strip_brackets(a + u) == a + strip_brackets(u),
    decreases a.len(),
{
    if a.len() == 0 {
        assert(a + u =~= u);
        assert(a + strip_brackets(u) =~= strip_brackets(u));
    } else {
        let s = a + u;
        assert(s[0] == a[0]);
        assert(s.drop_first() =~= a.drop_first() + u);
        lemma_strip_prefix(a.drop_first(), u);
        assert(seq![s[0]] + (a.drop_first() + strip_brackets(u)) =~= a + strip_brackets(u));
    }
}

/// A well-formed line: every bracket-opened fragment holds exactly one
/// `]`, so every slot resolves to a pair.
pub open spec fn well_formed_line(s: Seq<char>) -> bool {
    forall|i: int|
        1 <= i < split_char(s, '[').len() ==> (#[trigger] split_char(
            split_char(s, '[')[i],
            ']',
        )).len() == 2
}

/// Law (shape): a well-formed line with `N` bracket groups parses to
/// `N + 1` slots when text stands before the first bracket and `N` slots
/// otherwise, every one of them a pair.
pub proof fn lemma_line_parser_shape(s: Seq<char>)
    requires
        well_formed_line(s),
    ensures
        spec_parse_line(s).len() == if split_char(s, '[')[0].len() > 0 {
            count_char(s, '[') + 1
        } else {
            count_char(s, '[')
        },
        forall|i: int| 0 <= i < spec_parse_line(s).len() ==> spec_parse_line(s)[i] is Some,
{
    let frags = split_char(s, '[');
    crate::text::lemma_split_char_nonempty(s, '[');
    lemma_split_char_count(s, '[');
    let cl = |f: Seq<char>| frag_pair(f);
    let tail = frags.drop_first().map_values(cl);
    assert forall|j: int| 0 <= j < tail.len() implies tail[j] is Some by {
        assert(tail[j] == cl(frags[j + 1]));
        assert(split_char(split_char(s, '[')[j + 1], ']').len() == 2);
    }
}
/// The concatenated lyrics of a parsed line: the fragment before the
/// first bracket, then the lyrics of the bracket-opened slots.
proof fn lemma_parse_line_decomp(t: Seq<char>)
    ensures
        lyrics_concat(spec_parse_line(t)) == split_char(t, '[')[0] + lyrics_concat(
            split_char(t, '[').drop_first().map_values(|f: Seq<char>| frag_pair(f)),
        ),
{
    let frags = split_char(t, '[');
    let cl = |f: Seq<char>| frag_pair(f);
    let tail = frags.drop_first().map_values(cl);
    if frags[0].len() > 0 {
        let lead = Some(PairModel { chord: None, lyric: frags[0] });
        assert(spec_parse_line(t) == seq![lead] + tail);
        lemma_lyrics_concat_app(seq![lead], tail);
        assert(lyrics_concat(seq![lead]) == frags[0] + Seq::<char>::empty()) by {
            assert(seq![lead].drop_first() =~= Seq::<Option<PairModel>>::empty());
            assert(lyrics_concat(Seq::<Option<PairModel>>::empty()) =~= Seq::<char>::empty());
        }
        assert((frags[0] + Seq::<char>::empty()) + lyrics_concat(tail) =~= frags[0]
            + lyrics_concat(tail));
    } else {
        assert(spec_parse_line(t) == tail);
        assert(frags[0] + lyrics_concat(tail) =~= lyrics_concat(tail));
    }
}

/// One scan step over a whole bracket group: a bracket-free prefix is
/// kept, and the group from its `[` through the next `]` is dropped.
proof fn lemma_strip_step(s: Seq<char>, i: int, k: int)
    requires
        0 <= i < s.len(),
        s[i] == '[',
        forall|m: int| 0 <= m < i ==> s[m] != '[',
        k == find_from(s.skip(i + 1), 0, ']'),
        0 <= k < s.skip(i + 1).len(),
    ensures
        strip_brackets(s) == s.take(i) + strip_brackets(s.skip(i + 1).skip(k + 1)),
{
    let a = s.take(i);
    let rest = s.skip(i + 1);
    let u = seq!['['] + rest;
    assert(s =~= a + u);
    lemma_strip_prefix(a, u);
    assert(u[0] == '[');
    let ku = find_from(u, 0, ']');
    crate::text::lemma_find_shift(u, 1, 0, ']');
    assert(u.skip(1) =~= rest);
    assert(find_from(u, 1, ']') == 1 + k);
    assert(ku == 1 + k) by {
        assert(u[0] != ']');
    }
    assert(u.skip(ku + 1) =~= rest.skip(k + 1));
    assert(strip_brackets(u) == strip_brackets(rest.skip(k + 1)));
}

/// Law (reconstruction): on a well-formed line, concatenating the slots'
/// lyric fields in order reproduces the line with its bracket groups
/// removed.
#[verifier::rlimit(100)]
pub proof fn lemma_line_parser_reconstruction(s: Seq<char>)
    requires
        well_formed_line(s),
    ensures
        lyrics_concat(spec_parse_line(s)) == strip_brackets(s),
    decreases s.len(),
{
    let frags = split_char(s, '[');
    let cl = |f: Seq<char>| frag_pair(f);
    let i = find_from(s, 0, '[');
    crate::text::lemma_find_from(s, 0, '[');
    lemma_parse_line_decomp(s);
    if i == -1 {
        lemma_strip_no_bracket(s);
        assert(frags == seq![s]);
        assert(frags.drop_first() =~= Seq::<Seq<char>>::empty());
        assert(frags.drop_first().map_values(cl) =~= Seq::<Option<PairModel>>::empty());
        assert(lyrics_concat(Seq::<Option<PairModel>>::empty()) =~= Seq::<char>::empty());
        assert(s + Seq::<char>::empty() =~= s);
    } else {
        let a = s.take(i);
        let rest = s.skip(i + 1);
        assert(frags == seq![a] + split_char(rest, '['));
        assert(frags[0] == a);
        crate::text::lemma_split_char_nonempty(rest, '[');
        let rfrags = split_char(rest, '[');
        let f1 = rfrags[0];
        assert(frags[1] == f1);
        assert(split_char(f1, ']').len() == 2);
        // invert the split of f1: one `]` at position q, chord before,
        // lyric after
        let q = find_from(f1, 0, ']');
        crate::text::lemma_find_from(f1, 0, ']');
        assert(0 <= q < f1.len()) by {
            if !(0 <= q < f1.len()) {
                assert(split_char(f1, ']') == seq![f1]);
            }
        }
        let lyr = f1.skip(q + 1);
        assert(split_char(f1, ']') == seq![f1.take(q)] + split_char(lyr, ']'));
        let ql = find_from(lyr, 0, ']');
        crate::text::lemma_find_from(lyr, 0, ']');
        assert(ql == -1) by {
            if 0 <= ql < lyr.len() {
                crate::text::lemma_split_char_nonempty(lyr.skip(ql + 1), ']');
                assert(split_char(lyr, ']').len() >= 2);
            }
        }
        assert(split_char(lyr, ']') == seq![lyr]);
        let pair1 = Some(PairModel { chord: Some(f1.take(q)), lyric: lyr });
        assert(frag_pair(f1) == pair1) by {
            assert(split_char(f1, ']') =~= seq![f1.take(q), lyr]);
        }
        // the first `]` of `rest` is the one inside f1
        let i2 = find_from(rest, 0, '[');
        crate::text::lemma_find_from(rest, 0, '[');
        let k = find_from(rest, 0, ']');
        if i2 == -1 {
            assert(rfrags == seq![rest]);
            assert(f1 == rest);
            assert(k == q);
        } else {
            assert(f1 == rest.take(i2));
            assert forall|m: int| 0 <= m < q implies rest[m] != ']' by {
                assert(rest[m] == f1[m]);
            }
            crate::text::lemma_find_from_is(rest, 0, q, ']');
            assert(k == q);
        }
        let tail2 = rest.skip(k + 1);
        lemma_strip_step(s, i, k);
        assert(strip_brackets(s) == a + strip_brackets(tail2));
        lemma_parse_line_decomp(tail2);
        if i2 == -1 {
            assert(tail2 =~= lyr);
            let il = find_from(lyr, 0, '[');
            crate::text::lemma_find_from(lyr, 0, '[');
            assert(il == -1) by {
                if 0 <= il < lyr.len() {
                    assert(rest[q + 1 + il] == '[');
                }
            }
            let l2 = split_char(lyr, '[');
            assert(l2 == seq![lyr]);
            assert(well_formed_line(tail2)) by {
                assert(split_char(tail2, '[').len() == 1);
            }
            lemma_line_parser_reconstruction(tail2);
            // both parses end in the same single-pair tail
            assert(l2.drop_first() =~= Seq::<Seq<char>>::empty());
            assert(l2.drop_first().map_values(cl) =~= Seq::<Option<PairModel>>::empty());
            assert(lyrics_concat(Seq::<Option<PairModel>>::empty()) =~= Seq::<char>::empty());
            assert(lyr + Seq::<char>::empty() =~= lyr);
            assert(lyrics_concat(spec_parse_line(tail2)) == lyr);
            assert(frags.drop_first() =~= seq![f1]);
            assert(frags.drop_first().map_values(cl) =~= seq![pair1]);
            assert(lyrics_concat(seq![pair1]) == lyr + Seq::<char>::empty()) by {
                assert(seq![pair1].drop_first() =~= Seq::<Option<PairModel>>::empty());
                assert(lyrics_concat(Seq::<Option<PairModel>>::empty()) =~= Seq::<char>::empty());
            }
            assert(lyrics_concat(spec_parse_line(s)) == a + (lyr + Seq::<char>::empty()));
            assert(a + (lyr + Seq::<char>::empty()) =~= a + lyr);
        } else {
            // a later bracket follows: tail2 = lyr + '[' + rest2
            let rest2 = rest.skip(i2 + 1);
            assert(rfrags == seq![f1] + split_char(rest2, '['));
            assert(rest[i2] == '[');
            assert(tail2 =~= lyr + seq!['['] + rest2) by {
                assert(rest =~= rest.take(i2) + seq![rest[i2]] + rest.skip(i2 + 1));
            }
            assert forall|m: int| 0 <= m < lyr.len() implies lyr[m] != '[' by {
                assert(lyr[m] == f1[q + 1 + m]);
            }
            // split of tail2 starts with lyr
            assert(tail2[lyr.len() as int] == '[');
            assert(forall|m: int| 0 <= m < lyr.len() ==> tail2[m] != '[');
            crate::text::lemma_find_from_is(tail2, 0, lyr.len() as int, '[');
            assert(split_char(tail2, '[') == seq![tail2.take(lyr.len() as int)] + split_char(
                tail2.skip(lyr.len() as int + 1),
                '[',
            ));
            assert(tail2.take(lyr.len() as int) =~= lyr);
            assert(tail2.skip(lyr.len() as int + 1) =~= rest2);
            let t2frags = split_char(tail2, '[');
            assert(t2frags == seq![lyr] + split_char(rest2, '['));
            // well-formedness carries over to tail2
            assert(well_formed_line(tail2)) by {
                assert forall|j: int| 1 <= j < t2frags.len() implies (#[trigger] split_char(
                    split_char(tail2, '[')[j],
                    ']',
                )).len() == 2 by {
                    assert(t2frags[j] == split_char(rest2, '[')[j - 1]);
                    assert(frags[j + 1] == split_char(rest2, '[')[j - 1]);
                    assert(split_char(split_char(s, '[')[j + 1], ']').len() == 2);
                }
            }
            lemma_line_parser_reconstruction(tail2);
            // assemble the slot sequences on both sides
            let more = split_char(rest2, '[').map_values(cl);
            assert(frags.drop_first() =~= seq![f1] + split_char(rest2, '['));
            assert(frags.drop_first().map_values(cl) =~= seq![pair1] + more);
            assert(t2frags.drop_first() =~= split_char(rest2, '['));
            assert(lyrics_concat(spec_parse_line(tail2)) == lyr + lyrics_concat(more));
            lemma_lyrics_concat_app(seq![pair1], more);
            assert(lyrics_concat(seq![pair1]) == lyr + Seq::<char>::empty()) by {
                assert(seq![pair1].drop_first() =~= Seq::<Option<PairModel>>::empty());
                assert(lyrics_concat(Seq::<Option<PairModel>>::empty()) =~= Seq::<char>::empty());
            }
            assert(lyrics_concat(spec_parse_line(s)) == a + ((lyr + Seq::<char>::empty())
                + lyrics_concat(more)));
            assert(a + ((lyr + Seq::<char>::empty()) + lyrics_concat(more)) =~= a + (lyr
                + lyrics_concat(more)));
        }
    }
}

/// One slot rendered back to text: a chord in brackets followed by its
/// lyric, a bare lyric, or nothing for a malformed slot.
pub open spec fn render_pair(p: Option<PairModel>) -> Seq<char> {
    match p {
        None => Seq::empty(),
        Some(q) => match q.chord {
            Some(c) => "["@ + c + "]"@ + q.lyric,
            None => q.lyric,
        },
    }
}

/// The first `n` slots of a line, rendered and concatenated.
pub open spec fn render_pairs_upto(ps: Seq<Option<PairModel>>, n: int) -> Seq<char>
    decreases n,
{
    if n <= 0 {
        Seq::empty()
    } else {
        render_pairs_upto(ps, n - 1) + render_pair(ps[n - 1])
    }
}

/// The first `n` lines of a section, rendered and concatenated (the
/// rendering keeps no line breaks between them).
pub open spec fn render_lines_upto(lines: Seq<Seq<Option<PairModel>>>, n: int) -> Seq<char>
    decreases n,
{
    if n <= 0 {
        Seq::empty()
    } else {
        render_lines_upto(lines, n - 1) + render_pairs_upto(
            lines[n - 1],
            lines[n - 1].len() as int,
        )
    }
}

/// One section rendered: its title, a line break, its lines, and a blank
/// line.
pub open spec fn render_section(s: SectionModel) -> Seq<char> {
    s.title + "\n"@ + render_lines_upto(s.lines, s.lines.len() as int) + "\n\n"@
}

/// The first `n` sections, rendered and concatenated.
pub open spec fn render_sections_upto(secs: Seq<SectionModel>, n: int) -> Seq<char>
    decreases n,
{
    if n <= 0 {
        Seq::empty()
    } else {
        render_sections_upto(secs, n - 1) + render_section(secs[n - 1])
    }
}

/// A labelled metadata line, or nothing when the field is unset.
pub open spec fn field_line(label: Seq<char>, v: Option<Seq<char>>) -> Seq<char> {
    match v {
        Some(x) => label + x + "\n"@,
        None => Seq::empty(),
    }
}

/// Every section of the chart carries a non-empty title.
pub open spec fn sections_titled(c: ChartModel) -> bool {
    forall|i: int| 0 <= i < c.sections.len() ==> (#[trigger] c.sections[i]).title.len() > 0
}

/// A whole chart rendered back to text: the set metadata fields, a blank
/// line, then each section.
pub open spec fn spec_render(c: ChartModel) -> Seq<char> {
    field_line("Title: "@, c.title) + field_line("Artist: "@, c.artist) + field_line(
        "Tempo: "@,
        c.tempo,
    ) + field_line("Key: "@, c.key) + "\n"@ + render_sections_upto(
        c.sections,
        c.sections.len() as int,
    )
}

impl Chart {
    /// A fresh chart: no metadata set, no sections.
    pub fn build() -> (c: Chart)
        ensures
            c.deep_view() == empty_chart(),
    {
        let c = Chart { title: None, artist: None, tempo: None, key: None, sections: Vec::new() };
        proof {
            assert(c.deep_view() =~= empty_chart());
        }
        c
    }

    /// Interprets one line as a directive: updates the matching metadata
    /// field, and reports the section title when the line is a `label`
    /// directive.
    pub fn handle_directive(&mut self, line: &str) -> (r: Option<String>)
        ensures
            final(self).deep_view() == apply_directive(old(self).deep_view(), line@),
            r.deep_view() == label_of(line@),
    {
        proof {
            lemma_keys_distinct();
        }
        let d = extract_directive(line);
        match d {
            None => None,
            Some((k, v)) => {
                if str_eq(k.as_str(), "title") {
                    self.title = Some(v);
                    proof {
                        assert(final(self).deep_view() =~= apply_directive(
                            old(self).deep_view(),
                            line@,
                        ));
                    }
                    None
                } else if str_eq(k.as_str(), "artist") {
                    self.artist = Some(v);
                    proof {
                        assert(final(self).deep_view() =~= apply_directive(
                            old(self).deep_view(),
                            line@,
                        ));
                    }
                    None
                } else if str_eq(k.as_str(), "tempo") {
                    self.tempo = Some(v);
                    proof {
                        assert(final(self).deep_view() =~= apply_directive(
                            old(self).deep_view(),
                            line@,
                        ));
                    }
                    None
                } else if str_eq(k.as_str(), "key") {
                    self.key = Some(v);
                    proof {
                        assert(final(self).deep_view() =~= apply_directive(
                            old(self).deep_view(),
                            line@,
                        ));
                    }
                    None
                } else if str_eq(k.as_str(), "label") {
                    if v.as_str().unicode_len() > 0 {
                        Some(v)
                    } else {
                        None
                    }
                } else {
                    None
                }
            },
        }
    }

    /// Splits one line into its ordered pair slots.
    pub fn parse_line(&mut self, input: &str) -> (r: Vec<Option<Pair>>)
        ensures
            *final(self) == *old(self),
            r.deep_view() == spec_parse_line(input@),
    {
        let frags = split_char_str(input, '[');
        let ghost fseq = frags.deep_view();
        proof {
            crate::text::lemma_split_char_nonempty(input@, '[');
        }
        let mut r: Vec<Option<Pair>> = Vec::new();
        if frags[0].unicode_len() > 0 {
            r.push(
                Some(Pair { chord: None, lyric: String::from_str(frags[0].as_str()) }),
            );
        }
        let ghost lead = r.deep_view();
        proof {
            assert(lead + fseq.subrange(1, 1).map_values(|f: Seq<char>| frag_pair(f)) =~= lead);
        }
        let mut i: usize = 1;
        while i < frags.len()
            invariant
                1 <= i <= frags.len(),
                fseq == frags.deep_view(),
                fseq == split_char(input@, '['),
                fseq.len() >= 1,
                r.deep_view() == lead + fseq.subrange(1, i as int).map_values(
                    |f: Seq<char>| frag_pair(f),
                ),
            decreases frags.len() - i,
        {
            let ghost prev = r.deep_view();
            let parts = split_char_str(frags[i].as_str(), ']');
            if parts.len() == 2 {
                let chord = String::from_str(parts[0].as_str());
                let lyric = String::from_str(parts[1].as_str());
                r.push(Some(Pair { chord: Some(chord), lyric }));
                proof {
                    assert(parts.deep_view() == split_char(fseq[i as int], ']'));
                    assert(r.deep_view() =~= prev.push(Some(PairModel {
                        chord: Some(split_char(fseq[i as int], ']')[0]),
                        lyric: split_char(fseq[i as int], ']')[1],
                    })));
                }
            } else {
                r.push(None);
                proof {
                    assert(parts.deep_view() == split_char(fseq[i as int], ']'));
                    assert(r.deep_view() =~= prev.push(None));
                }
            }
            proof {
                let cl = |f: Seq<char>| frag_pair(f);
                assert(fseq.subrange(1, i + 1 as int) =~= fseq.subrange(1, i as int).push(
                    fseq[i as int],
                ));
                assert(fseq.subrange(1, i as int).push(fseq[i as int]).map_values(cl)
                    =~= fseq.subrange(1, i as int).map_values(cl).push(cl(fseq[i as int])));
                assert(r.deep_view() =~= lead + fseq.subrange(1, i + 1 as int).map_values(cl));
            }
            i = i + 1;
        }
        proof {
            let cl = |f: Seq<char>| frag_pair(f);
            assert(fseq.subrange(1, fseq.len() as int) =~= fseq.drop_first());
            assert(r.deep_view() =~= spec_parse_line(input@));
        }
        r
    }

    /// Consumes one block of text: opens a section when the first line is
    /// a `label` directive, and otherwise feeds every line to the
    /// directive parser.
    pub fn parse_section(&mut self, section: &str)
        ensures
            final(self).deep_view() == spec_parse_section(old(self).deep_view(), section@),
    {
        let lines = lines_str(section);
        let ghost ls = lines.deep_view();
        if lines.len() == 0 {
            return ;
        }
        let title = self.handle_directive(lines[0].as_str());
        match title {
            Some(title) => {
                proof {
                    lemma_label_keeps_chart(old(self).deep_view(), ls[0]);
                }
                let mut sec_lines: Vec<Vec<Option<Pair>>> = Vec::new();
                let ghost cl = |l: Seq<char>| spec_parse_line(l);
                proof {
                    assert(sec_lines.deep_view() =~= ls.subrange(1, 1).map_values(cl));
                }
                let mut i: usize = 1;
                while i < lines.len()
                    invariant
                        1 <= i <= lines.len(),
                        ls == lines.deep_view(),
                        self.deep_view() == old(self).deep_view(),
                        cl == (|l: Seq<char>| spec_parse_line(l)),
                        sec_lines.deep_view() == ls.subrange(1, i as int).map_values(cl),
                    decreases lines.len() - i,
                {
                    let ghost prev = sec_lines.deep_view();
                    let parsed = self.parse_line(lines[i].as_str());
                    sec_lines.push(parsed);
                    proof {
                        assert(sec_lines.deep_view() =~= prev.push(spec_parse_line(
                            ls[i as int],
                        )));
                        assert(ls.subrange(1, i + 1 as int) =~= ls.subrange(1, i as int).push(
                            ls[i as int],
                        ));
                        assert(ls.subrange(1, i as int).push(ls[i as int]).map_values(cl)
                            =~= ls.subrange(1, i as int).map_values(cl).push(cl(ls[i as int])));
                    }
                    i = i + 1;
                }
                let sec = ChartSection { title, lines: sec_lines };
                let ghost before = self.deep_view();
                self.sections.push(sec);
                proof {
                    assert(ls.subrange(1, ls.len() as int) =~= ls.drop_first());
                    assert(self.deep_view().sections =~= before.sections.push(SectionModel {
                        title: label_of(ls[0])->Some_0,
                        lines: ls.drop_first().map_values(cl),
                    }));
                    assert(final(self).deep_view() =~= spec_parse_section(
                        old(self).deep_view(),
                        section@,
                    ));
                }
            },
            None => {
                proof {
                    assert(apply_lines_upto(old(self).deep_view(), ls, 0) == old(self).deep_view());
                    assert(apply_lines_upto(old(self).deep_view(), ls, 1) == apply_directive(
                        old(self).deep_view(),
                        ls[0],
                    ));
                }
                let mut i: usize = 1;
                while i < lines.len()
                    invariant
                        1 <= i <= lines.len(),
                        ls == lines.deep_view(),
                        self.deep_view() == apply_lines_upto(old(self).deep_view(), ls, i as int),
                    decreases lines.len() - i,
                {
                    let ghost mid = self.deep_view();
                    let _ = self.handle_directive(lines[i].as_str());
                    proof {
                        assert(apply_lines_upto(old(self).deep_view(), ls, i + 1 as int)
                            == apply_directive(mid, ls[i as int]));
                    }
                    i = i + 1;
                }
            },
        }
    }

    /// Law: directive handling is idempotent.  Feeding the same line to
    /// the directive parser twice leaves the same chart as feeding it
    /// once: the last write wins, nothing accumulates.
    pub proof fn lemma_directive_idempotent(c: ChartModel, line: Seq<char>)
        ensures
            apply_directive(apply_directive(c, line), line) == apply_directive(c, line),
    {
    }

    /// Law: metadata set via a directive is retrievable unchanged from
    /// the chart, surrounding whitespace aside — the parsed (trimmed)
    /// value is exactly what the matching field then holds.
    pub proof fn lemma_metadata_round_trip(c: ChartModel, line: Seq<char>, k: Seq<char>, v: Seq<char>)
        requires
            spec_directive(line) == Some((k, v)),
        ensures
            k == "title"@ ==> apply_directive(c, line).title == Some(v),
            k == "artist"@ ==> apply_directive(c, line).artist == Some(v),
            k == "tempo"@ ==> apply_directive(c, line).tempo == Some(v),
            k == "key"@ ==> apply_directive(c, line).key == Some(v),
    {
        lemma_keys_distinct();
    }

    /// Law: a block whose first line does not announce a `label` never
    /// produces a section, whatever its remaining content.
    pub proof fn lemma_no_label_no_section(c: ChartModel, block: Seq<char>)
        requires
            lines_of(block).len() == 0 || label_of(lines_of(block)[0]) is None,
        ensures
            spec_parse_section(c, block).sections == c.sections,
    {
        let ls = lines_of(block);
        if ls.len() > 0 {
            Self::lemma_apply_lines_keep_sections(c, ls, ls.len() as int);
        }
    }

    /// Directive lines only touch metadata: folding any number of them
    /// over a chart leaves its sections as they were.
    pub proof fn lemma_apply_lines_keep_sections(c: ChartModel, ls: Seq<Seq<char>>, n: int)
        ensures
            apply_lines_upto(c, ls, n).sections == c.sections,
        decreases n,
    {
        if n > 0 {
            Self::lemma_apply_lines_keep_sections(c, ls, n - 1);
        }
    }

    /// Law: parsing preserves the data-model invariant that every section
    /// has a non-empty title — a section is opened only by a `label`
    /// directive whose trimmed value is non-empty.
    pub proof fn lemma_parse_section_titled(c: ChartModel, block: Seq<char>)
        requires
            sections_titled(c),
        ensures
            sections_titled(spec_parse_section(c, block)),
    {
        let ls = lines_of(block);
        if ls.len() > 0 {
            match label_of(ls[0]) {
                Some(title) => {
                    let after = spec_parse_section(c, block);
                    assert forall|i: int|
                        0 <= i < after.sections.len() implies (#[trigger] after.sections[i]).title.len()
                        > 0 by {
                        if i < c.sections.len() {
                            assert(after.sections[i] == c.sections[i]);
                        } else {
                            assert(after.sections[i].title == title);
                        }
                    }
                },
                None => {
                    Self::lemma_apply_lines_keep_sections(c, ls, ls.len() as int);
                },
            }
        }
    }

    /// Every section of a chart built from whole input text has a
    /// non-empty title.
    pub proof fn lemma_build_titled(text: Seq<char>)
        ensures
            sections_titled(spec_build(text)),
    {
        Self::lemma_build_upto_titled(split_blocks(text), split_blocks(text).len() as int);
    }

    /// Folding blocks over the empty chart keeps every section title
    /// non-empty.
    pub proof fn lemma_build_upto_titled(blocks: Seq<Seq<char>>, n: int)
        ensures
            sections_titled(build_upto(blocks, n)),
        decreases n,
    {
        if n > 0 {
            Self::lemma_build_upto_titled(blocks, n - 1);
            Self::lemma_parse_section_titled(build_upto(blocks, n - 1), blocks[n - 1]);
        }
    }

    /// Renders the chart back to readable text: each set metadata field
    /// on a labelled line, a blank line, then each section's title and
    /// content.
    pub fn to_text(&self) -> (r: String)
        ensures
            r@ == spec_render(self.deep_view()),
    {
        let ghost cv = self.deep_view();
        let mut out = String::new();
        match &self.title {
            Some(t) => {
                out.append("Title: ");
                out.append(t.as_str());
                out.append("\n");
            },
            None => {},
        }
        proof {
            assert(out@ =~= field_line("Title: "@, cv.title));
        }
        let ghost m1 = out@;
        match &self.artist {
            Some(a) => {
                out.append("Artist: ");
                out.append(a.as_str());
                out.append("\n");
            },
            None => {},
        }
        proof {
            assert(out@ =~= m1 + field_line("Artist: "@, cv.artist));
        }
        let ghost m2 = out@;
        match &self.tempo {
            Some(t) => {
                out.append("Tempo: ");
                out.append(t.as_str());
                out.append("\n");
            },
            None => {},
        }
        proof {
            assert(out@ =~= m2 + field_line("Tempo: "@, cv.tempo));
        }
        let ghost m3 = out@;
        match &self.key {
            Some(k) => {
                out.append("Key: ");
                out.append(k.as_str());
                out.append("\n");
            },
            None => {},
        }
        proof {
            assert(out@ =~= m3 + field_line("Key: "@, cv.key));
        }
        out.append("\n");
        let ghost meta = out@;
        proof {
            assert(meta =~= field_line("Title: "@, cv.title) + field_line("Artist: "@, cv.artist)
                + field_line("Tempo: "@, cv.tempo) + field_line("Key: "@, cv.key) + "\n"@);
            assert(meta + render_sections_upto(cv.sections, 0) =~= meta);
        }
        let mut i: usize = 0;
        while i < self.sections.len()
            invariant
                i <= self.sections.len(),
                cv == self.deep_view(),
                cv.sections.len() == self.sections@.len(),
                out@ == meta + render_sections_upto(cv.sections, i as int),
            decreases self.sections.len() - i,
        {
            let sec = &self.sections[i];
            let ghost base = out@;
            out.append(sec.title.as_str());
            out.append("\n");
            let ghost tbase = out@;
            let ghost lv = sec.lines.deep_view();
            proof {
                assert(tbase =~= base + (sec.deep_view().title + "\n"@));
                assert(tbase + render_lines_upto(lv, 0) =~= tbase);
            }
            let mut j: usize = 0;
            while j < sec.lines.len()
                invariant
                    j <= sec.lines.len(),
                    0 <= i < self.sections@.len(),
                    cv == self.deep_view(),
                    sec.deep_view() == cv.sections[i as int],
                    sec.lines@.len() == lv.len(),
                    lv == sec.lines.deep_view(),
                    out@ == tbase + render_lines_upto(lv, j as int),
                decreases sec.lines.len() - j,
            {
                let line = &sec.lines[j];
                let ghost lbase = out@;
                let ghost pv = line.deep_view();
                proof {
                    assert(lbase + render_pairs_upto(pv, 0) =~= lbase);
                }
                let mut k: usize = 0;
                while k < line.len()
                    invariant
                        k <= line.len(),
                        pv == line.deep_view(),
                        pv.len() == line@.len(),
                        out@ == lbase + render_pairs_upto(pv, k as int),
                    decreases line.len() - k,
                {
                    let ghost pbase = out@;
                    match &line[k] {
                        Some(p) => {
                            match &p.chord {
                                Some(c) => {
                                    out.append("[");
                                    out.append(c.as_str());
                                    out.append("]");
                                },
                                None => {},
                            }
                            out.append(p.lyric.as_str());
                        },
                        None => {},
                    }
                    proof {
                        assert(out@ =~= pbase + render_pair(pv[k as int]));
                        assert(out@ =~= lbase + render_pairs_upto(pv, k + 1 as int));
                    }
                    k = k + 1;
                }
                proof {
                    assert(pv == lv[j as int]);
                    assert(out@ =~= tbase + render_lines_upto(lv, j + 1 as int));
                }
                j = j + 1;
            }
            out.append("\n\n");
            proof {
                let sm = cv.sections[i as int];
                assert(out@ =~= base + render_section(sm));
                assert(out@ =~= meta + render_sections_upto(cv.sections, i + 1 as int));
            }
            i = i + 1;
        }
        proof {
            assert(out@ =~= spec_render(cv));
        }
        out
    }

    /// Parses a whole input text: its blank-line-delimited blocks, folded
    /// in order over a fresh chart.
    pub fn build_from_text(text: &str) -> (c: Chart)
        ensures
            c.deep_view() == spec_build(text@),
    {
        let blocks = split_blocks_str(text);
        let ghost bs = blocks.deep_view();
        let mut c = Chart::build();
        let mut i: usize = 0;
        while i < blocks.len()
            invariant
                i <= blocks.len(),
                bs == blocks.deep_view(),
                c.deep_view() == build_upto(bs, i as int),
            decreases blocks.len() - i,
        {
            c.parse_section(blocks[i].as_str());
            i = i + 1;
        }
        c
    }
}

} // verus!
