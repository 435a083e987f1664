//! Character-level text utilities: searching, splitting and trimming over
//! `Seq<char>` views, with executable counterparts on `&str` / `String`.

use vstd::prelude::*;
use vstd::string::*;

verus! {

/// The whitespace characters that are insignificant around directive keys
/// and values.
pub open spec fn is_space(c: char) -> bool {
    c == ' ' || c == '\t' || c == '\r' || c == '\n'
}

/// Executable test for [`is_space`].
pub fn is_space_char(c: char) -> (r: bool)
    ensures
        r == is_space(c),
{
    c == ' ' || c == '\t' || c == '\r' || c == '\n'
}

/// Index of the first occurrence of `c` in `s` at or after `start`, or `-1`
/// if there is none.
pub open spec fn find_from(s: Seq<char>, start: int, c: char) -> int
    decreases s.len() - start,
{
    if start < 0 || start >= s.len() {
        -1
    } else if s[start] == c {
        start
    } else {
        find_from(s, start + 1, c)
    }
}

/// What [`find_from`] returns: either `-1` and no occurrence, or the least
/// index of an occurrence at or after `start`.
pub proof fn lemma_find_from(s: Seq<char>, start: int, c: char)
    requires
        0 <= start <= s.len(),
    ensures
        find_from(s, start, c) == -1 ==> forall|m: int| start <= m < s.len() ==> s[m] != c,
        find_from(s, start, c) != -1 ==> {
            let i = find_from(s, start, c);
            &&& start <= i < s.len()
            &&& s[i] == c
            &&& forall|m: int| start <= m < i ==> s[m] != c
        },
    decreases s.len() - start,
{
    if start < s.len() && s[start] != c {
        lemma_find_from(s, start + 1, c);
    }
}

/// If `s[j] == c` and no occurrence lies in `[start, j)`, then `j` is what
/// [`find_from`] returns.
pub proof fn lemma_find_from_is(s: Seq<char>, start: int, j: int, c: char)
    requires
        0 <= start <= j < s.len(),
        s[j] == c,
        forall|m: int| start <= m < j ==> s[m] != c,
    ensures
        find_from(s, start, c) == j,
    decreases j - start,
{
    if start < j {
        lemma_find_from_is(s, start + 1, j, c);
    }
}

/// Searching from `d + start` in `s` is searching from `start` in the
/// suffix `s.skip(d)`, shifted by `d`.
pub proof fn lemma_find_shift(s: Seq<char>, d: int, start: int, c: char)
    requires
        0 <= d <= s.len(),
        0 <= start <= s.len() - d,
    ensures
        find_from(s, d + start, c) == if find_from(s.skip(d), start, c) == -1 {
            -1 as int
        } else {
            d + find_from(s.skip(d), start, c)
        },
    decreases s.len() - d - start,
{
    let t = s.skip(d);
    if start < t.len() {
        assert(t[start] == s[d + start]);
        if s[d + start] != c {
            lemma_find_shift(s, d, start + 1, c);
        }
    }
}

/// Executable search for the first `c` at or after `start`.
pub fn find_char(s: &str, start: usize, c: char) -> (r: Option<usize>)
    requires
        start <= s@.len(),
    ensures
        match r {
            Some(j) => find_from(s@, start as int, c) == j && start <= j < s@.len() && s@[j as int] == c,
            None => find_from(s@, start as int, c) == -1,
        },
{
    let len = s.unicode_len();
    let mut i: usize = start;
    while i < len
        invariant
            start <= i <= len,
            len == s@.len(),
            find_from(s@, start as int, c) == find_from(s@, i as int, c),
        decreases len - i,
    {
        if s.get_char(i) == c {
            return Some(i);
        }
        i = i + 1;
    }
    None
}

/// Splits `s` at every occurrence of `sep`; the separators themselves are
/// dropped.  The result always has one more element than `s` has
/// occurrences of `sep`.
pub open spec fn split_char(s: Seq<char>, sep: char) -> Seq<Seq<char>>
    decreases s.len(),
{
    let i = find_from(s, 0, sep);
    if 0 <= i < s.len() {
        seq![s.take(i)] + split_char(s.skip(i + 1), sep)
    } else {
        seq![s]
    }
}

/// A split is never empty.
pub proof fn lemma_split_char_nonempty(s: Seq<char>, sep: char)
    ensures
        split_char(s, sep).len() >= 1,
{
}

/// Executable counterpart of [`split_char`].
pub fn split_char_str(s: &str, sep: char) -> (r: Vec<String>)
    ensures
        r.deep_view() == split_char(s@, sep),
{
    let len = s.unicode_len();
    let mut r: Vec<String> = Vec::new();
    let mut off: usize = 0;
    proof {
        assert(s@.skip(0) =~= s@);
        assert(r.deep_view() + split_char(s@, sep) =~= split_char(s@, sep));
    }
    loop
        invariant
            off <= len,
            len == s@.len(),
            split_char(s@, sep) == r.deep_view() + split_char(s@.skip(off as int), sep),
        decreases len - off,
    {
        let ghost prev = r.deep_view();
        let found = find_char(s, off, sep);
        match found {
            Some(j) => {
                let frag = s.substring_char(off, j);
                r.push(String::from_str(frag));
                proof {
                    let rest = s@.skip(off as int);
                    lemma_find_shift(s@, off as int, 0, sep);
                    assert(find_from(rest, 0, sep) == j - off);
                    assert(rest.take(j - off) =~= s@.subrange(off as int, j as int));
                    assert(rest.skip(j - off + 1) =~= s@.skip(j as int + 1));
                    assert(split_char(rest, sep) == seq![rest.take(j - off)] + split_char(
                        rest.skip(j - off + 1),
                        sep,
                    ));
                    assert(r.deep_view() =~= prev.push(s@.subrange(off as int, j as int)));
                    assert(prev.push(rest.take(j - off)) + split_char(
                        s@.skip(j as int + 1),
                        sep,
                    ) =~= prev + split_char(rest, sep));
                }
                off = j + 1;
            },
            None => {
                let frag = s.substring_char(off, len);
                r.push(String::from_str(frag));
                proof {
                    let rest = s@.skip(off as int);
                    lemma_find_shift(s@, off as int, 0, sep);
                    lemma_find_from(rest, 0, sep);
                    assert(find_from(rest, 0, sep) == -1);
                    assert(split_char(rest, sep) == seq![rest]);
                    assert(rest =~= s@.subrange(off as int, len as int));
                    assert(r.deep_view() =~= prev.push(rest));
                    assert(prev.push(rest) =~= prev + seq![rest]);
                }
                return r;
            },
        }
    }
}

/// A line with one trailing carriage return removed: what is left of a
/// line that ended in `\r\n` once the split on `\n` has taken the newline.
pub open spec fn strip_cr(l: Seq<char>) -> Seq<char> {
    if l.len() > 0 && l.last() == '\r' {
        l.drop_last()
    } else {
        l
    }
}

/// The lines of a piece of text: split at `\n`, a single trailing empty
/// line (from a terminating newline) dropped, and a carriage return
/// stripped from every line that a newline followed — so both `\n` and
/// `\r\n` endings are taken, while a lone `\r` in the final unterminated
/// line stays.
pub open spec fn lines_of(s: Seq<char>) -> Seq<Seq<char>> {
    let parts = split_char(s, '\n');
    let kept = if parts.len() > 0 && parts.last().len() == 0 {
        parts.drop_last()
    } else {
        parts
    };
    Seq::new(
        kept.len(),
        |i: int|
            if i + 1 < parts.len() {
                strip_cr(kept[i])
            } else {
                kept[i]
            },
    )
}

/// Executable counterpart of [`lines_of`].
pub fn lines_str(s: &str) -> (r: Vec<String>)
    ensures
        r.deep_view() == lines_of(s@),
{
    let parts = split_char_str(s, '\n');
    let ghost pv = parts.deep_view();
    let total = parts.len();
    let kept: usize = if total > 0 && parts[total - 1].unicode_len() == 0 {
        total - 1
    } else {
        total
    };
    let mut r: Vec<String> = Vec::new();
    let mut i: usize = 0;
    while i < kept
        invariant
            i <= kept,
            kept <= total,
            total == pv.len(),
            pv == parts.deep_view(),
            pv == split_char(s@, '\n'),
            kept == lines_of(s@).len(),
            r.deep_view() == lines_of(s@).take(i as int),
        decreases kept - i,
    {
        let ghost prev = r.deep_view();
        let li = parts[i].as_str();
        let n = li.unicode_len();
        if i + 1 < total && n > 0 && li.get_char(n - 1) == '\r' {
            r.push(String::from_str(li.substring_char(0, n - 1)));
            proof {
                assert(pv[i as int].drop_last() =~= li@.subrange(0, n - 1));
                assert(lines_of(s@)[i as int] == strip_cr(pv[i as int]));
            }
        } else {
            r.push(String::from_str(li));
            proof {
                assert(lines_of(s@)[i as int] == pv[i as int]);
            }
        }
        proof {
            assert(r.deep_view() =~= prev.push(lines_of(s@)[i as int]));
            assert(lines_of(s@).take(i + 1 as int) =~= lines_of(s@).take(i as int).push(
                lines_of(s@)[i as int],
            ));
        }
        i = i + 1;
    }
    proof {
        assert(lines_of(s@).take(kept as int) =~= lines_of(s@));
    }
    r
}

/// Index of the first blank-line break (two consecutive newlines) at or
/// after `start`, or `-1` if there is none.
pub open spec fn find_break(s: Seq<char>, start: int) -> int
    decreases s.len() - start,
{
    if start < 0 || start + 1 >= s.len() {
        -1
    } else if s[start] == '\n' && s[start + 1] == '\n' {
        start
    } else {
        find_break(s, start + 1)
    }
}

/// Searching for a break from `d + start` in `s` is searching from `start`
/// in the suffix `s.skip(d)`, shifted by `d`.
pub proof fn lemma_find_break_shift(s: Seq<char>, d: int, start: int)
    requires
        0 <= d <= s.len(),
        0 <= start <= s.len() - d,
    ensures
        find_break(s, d + start) == if find_break(s.skip(d), start) == -1 {
            -1 as int
        } else {
            d + find_break(s.skip(d), start)
        },
    decreases s.len() - d - start,
{
    let t = s.skip(d);
    if start + 1 < t.len() {
        assert(t[start] == s[d + start]);
        assert(t[start + 1] == s[d + start + 1]);
        if !(s[d + start] == '\n' && s[d + start + 1] == '\n') {
            lemma_find_break_shift(s, d, start + 1);
        }
    }
}

/// What [`find_break`] returns is `-1` or a position in `[start, len - 1)`.
pub proof fn lemma_find_break(s: Seq<char>, start: int)
    requires
        0 <= start <= s.len(),
    ensures
        find_break(s, start) == -1 || (start <= find_break(s, start)
            && find_break(s, start) + 1 < s.len()),
    decreases s.len() - start,
{
    if start + 1 < s.len() && !(s[start] == '\n' && s[start + 1] == '\n') {
        lemma_find_break(s, start + 1);
    }
}

/// Executable search for the first blank-line break at or after `start`.
pub fn find_break_str(s: &str, start: usize) -> (r: Option<usize>)
    requires
        start <= s@.len(),
    ensures
        match r {
            Some(j) => find_break(s@, start as int) == j && start <= j && j + 1 < s@.len(),
            None => find_break(s@, start as int) == -1,
        },
{
    let len = s.unicode_len();
    if len == 0 {
        return None;
    }
    let mut i: usize = start;
    while i < len - 1
        invariant
            start <= i,
            i <= len,
            len >= 1,
            len == s@.len(),
            find_break(s@, start as int) == find_break(s@, i as int),
        decreases len - i,
    {
        if s.get_char(i) == '\n' && s.get_char(i + 1) == '\n' {
            return Some(i);
        }
        i = i + 1;
    }
    None
}

/// Splits text into blocks at blank lines (two consecutive newlines).
pub open spec fn split_blocks(s: Seq<char>) -> Seq<Seq<char>>
    decreases s.len(),
{
    let i = find_break(s, 0);
    if 0 <= i && i + 1 < s.len() {
        seq![s.take(i)] + split_blocks(s.skip(i + 2))
    } else {
        seq![s]
    }
}

/// Executable counterpart of [`split_blocks`].
pub fn split_blocks_str(s: &str) -> (r: Vec<String>)
    ensures
        r.deep_view() == split_blocks(s@),
{
    let len = s.unicode_len();
    let mut r: Vec<String> = Vec::new();
    let mut off: usize = 0;
    proof {
        assert(s@.skip(0) =~= s@);
        assert(r.deep_view() + split_blocks(s@) =~= split_blocks(s@));
    }
    loop
        invariant
            off <= len,
            len == s@.len(),
            split_blocks(s@) == r.deep_view() + split_blocks(s@.skip(off as int)),
        decreases len - off,
    {
        let ghost prev = r.deep_view();
        let found = find_break_str(s, off);
        match found {
            Some(j) => {
                let frag = s.substring_char(off, j);
                r.push(String::from_str(frag));
                proof {
                    let rest = s@.skip(off as int);
                    lemma_find_break_shift(s@, off as int, 0);
                    lemma_find_break(rest, 0);
                    assert(find_break(rest, 0) == j - off);
                    assert(rest.take(j - off) =~= s@.subrange(off as int, j as int));
                    assert(rest.skip(j - off + 2) =~= s@.skip(j as int + 2));
                    assert(split_blocks(rest) == seq![rest.take(j - off)] + split_blocks(
                        rest.skip(j - off + 2),
                    ));
                    assert(r.deep_view() =~= prev.push(s@.subrange(off as int, j as int)));
                    assert(prev.push(rest.take(j - off)) + split_blocks(
                        s@.skip(j as int + 2),
                    ) =~= prev + split_blocks(rest));
                }
                off = j + 2;
            },
            None => {
                let frag = s.substring_char(off, len);
                r.push(String::from_str(frag));
                proof {
                    let rest = s@.skip(off as int);
                    lemma_find_break_shift(s@, off as int, 0);
                    lemma_find_break(rest, 0);
                    assert(find_break(rest, 0) == -1);
                    assert(split_blocks(rest) == seq![rest]);
                    assert(rest =~= s@.subrange(off as int, len as int));
                    assert(r.deep_view() =~= prev.push(rest));
                    assert(prev.push(rest) =~= prev + seq![rest]);
                }
                return r;
            },
        }
    }
}

/// `s` with leading whitespace removed.
pub open spec fn trim_front(s: Seq<char>) -> Seq<char>
    decreases s.len(),
{
    if s.len() > 0 && is_space(s[0]) {
        trim_front(s.drop_first())
    } else {
        s
    }
}

/// `s` with trailing whitespace removed.
pub open spec fn trim_back(s: Seq<char>) -> Seq<char>
    decreases s.len(),
{
    if s.len() > 0 && is_space(s.last()) {
        trim_back(s.drop_last())
    } else {
        s
    }
}

/// `s` with surrounding whitespace removed.
pub open spec fn trim(s: Seq<char>) -> Seq<char> {
    trim_back(trim_front(s))
}

/// Dropping a fully-whitespace prefix is what [`trim_front`] does.
proof fn lemma_trim_front_skip(s: Seq<char>, a: int)
    requires
        0 <= a <= s.len(),
        forall|m: int| 0 <= m < a ==> is_space(s[m]),
        a < s.len() ==> !is_space(s[a]),
    ensures
        trim_front(s) == s.skip(a),
    decreases a,
{
    if a == 0 {
        assert(s.skip(0) =~= s);
    } else {
        lemma_trim_front_skip(s.drop_first(), a - 1);
        assert(s.drop_first().skip(a - 1) =~= s.skip(a));
    }
}

/// Dropping a fully-whitespace suffix is what [`trim_back`] does.
proof fn lemma_trim_back_take(s: Seq<char>, b: int)
    requires
        0 <= b <= s.len(),
        forall|m: int| b <= m < s.len() ==> is_space(s[m]),
        b > 0 ==> !is_space(s[b - 1]),
    ensures
        trim_back(s) == s.take(b),
    decreases s.len() - b,
{
    if b == s.len() {
        assert(s.take(b) =~= s);
    } else {
        assert(is_space(s.last()));
        lemma_trim_back_take(s.drop_last(), b);
        assert(s.drop_last().take(b) =~= s.take(b));
    }
}

/// Executable counterpart of [`trim`].
pub fn trim_str(s: &str) -> (r: String)
    ensures
        r@ == trim(s@),
{
    let len = s.unicode_len();
    let mut a: usize = 0;
    while a < len && is_space_char(s.get_char(a))
        invariant
            a <= len,
            len == s@.len(),
            forall|m: int| 0 <= m < a ==> is_space(s@[m]),
        decreases len - a,
    {
        a = a + 1;
    }
    if a == len {
        proof {
            lemma_trim_front_skip(s@, a as int);
            assert(s@.skip(len as int) =~= Seq::<char>::empty());
            assert(trim_back(Seq::<char>::empty()) == Seq::<char>::empty());
        }
        return String::new();
    }
    let mut b: usize = len;
    while b > a && is_space_char(s.get_char(b - 1))
        invariant
            a <= b <= len,
            len == s@.len(),
            forall|m: int| b <= m < len ==> is_space(s@[m]),
        decreases b,
    {
        b = b - 1;
    }
    proof {
        lemma_trim_front_skip(s@, a as int);
        let t = s@.skip(a as int);
        assert(!is_space(t[b - a - 1]));
        lemma_trim_back_take(t, b - a as int);
        assert(t.take(b - a as int) =~= s@.subrange(a as int, b as int));
    }
    String::from_str(s.substring_char(a, b))
}

/// Executable character-wise string equality, reflected into the views.
pub fn str_eq(a: &str, b: &str) -> (r: bool)
    ensures
        r == (a@ == b@),
{
    let la = a.unicode_len();
    let lb = b.unicode_len();
    if la != lb {
        return false;
    }
    let mut i: usize = 0;
    while i < la
        invariant
            i <= la,
            la == a@.len(),
            lb == b@.len(),
            la == lb,
            forall|m: int| 0 <= m < i ==> a@[m] == b@[m],
        decreases la - i,
    {
        if a.get_char(i) != b.get_char(i) {
            return false;
        }
        i = i + 1;
    }
    proof {
        assert(a@ =~= b@);
    }
    true
}

} // verus!
