//! Setting text in rows: where lines break, where each glyph stands and what is drawn under it.
//!
//! The widths of glyphs come from outside as a table for every style that the text uses.
use vstd::prelude::*;

use crate::scalar::Scalar;
use crate::style::copy_vec;

verus! {

/// A character and the run of the text that it belongs to.
#[derive(Clone, Copy, Debug, PartialEq, Eq)]
pub struct Tagged {
    pub c: char,
    pub run: Option<usize>,
}

/// What a typeface at one size says of the characters of a text.
#[derive(Debug, PartialEq)]
pub struct Metrics<S> {
    /// Which typeface it is: glyphs are kerned within one only.
    pub face: usize,
    pub ascent: S,
    pub height: S,
    pub line_gap: S,
    pub chars: Vec<char>,
    /// The advance of each of the characters.
    pub advances: Vec<S>,
    /// For each character, what is added between it and each that may follow.
    pub kerns: Vec<Vec<S>>,
}

#[verifier::ext_equal]
pub struct MetricsView<S> {
    pub face: usize,
    pub ascent: S,
    pub height: S,
    pub line_gap: S,
    pub chars: Seq<char>,
    pub advances: Seq<S>,
    pub kerns: Seq<Seq<S>>,
}

/// The place of a character in a table.
pub open spec fn place_of(chars: Seq<char>, c: char) -> Option<int> {
    chars.index_of_first(c)
}

impl<S: Scalar> MetricsView<S> {
    /// The advance of a character; nothing for one that is not in the table.
    pub open spec fn advance(self, c: char) -> S {
        match place_of(self.chars, c) {
            Some(i) => if i < self.advances.len() {
                self.advances[i]
            } else {
                S::spec_ratio(0, 1)
            },
            None => S::spec_ratio(0, 1),
        }
    }

    /// What is added between two characters; nothing for a pair that is not in the table.
    pub open spec fn kern(self, a: char, b: char) -> S {
        match (place_of(self.chars, a), place_of(self.chars, b)) {
            (Some(i), Some(j)) => if i < self.kerns.len() && j < self.kerns[i].len() {
                self.kerns[i][j]
            } else {
                S::spec_ratio(0, 1)
            },
            _ => S::spec_ratio(0, 1),
        }
    }

    /// From one row to the next.
    pub open spec fn step(self) -> S {
        self.height.spec_plus(self.line_gap)
    }
}

/// The place of a character in a table.
fn find_char(chars: &Vec<char>, c: char) -> (r: Option<usize>)
    ensures
        match place_of(chars@, c) {
            Some(i) => r matches Some(k) && k == i && k < chars.len(),
            None => r is None,
        },
{
    let mut i: usize = 0;
    while i < chars.len()
        invariant
            i <= chars.len(),
            forall|k: int| 0 <= k < i ==> #[trigger] chars@[k] != c,
        decreases chars.len() - i,
    {
        if chars[i] == c {
            proof {
                assert(chars@[i as int] == c);
                chars@.index_of_first_ensures(c);
                let f = chars@.index_of_first(c)->0;
                if f < i {
                    assert(chars@[f] != c);
                }
            }
            return Some(i);
        }
        i += 1;
    }
    proof {
        assert(!chars@.contains(c));
        chars@.index_of_first_ensures(c);
    }
    None
}

impl<S: Scalar> Metrics<S> {
    pub open spec fn view(&self) -> MetricsView<S> {
        MetricsView {
            face: self.face,
            ascent: self.ascent,
            height: self.height,
            line_gap: self.line_gap,
            chars: self.chars@,
            advances: self.advances@,
            kerns: Seq::new(self.kerns@.len(), |i: int| self.kerns@[i]@),
        }
    }

    /// The advance of a character; nothing for one that is not in the table.
    pub fn advance(&self, c: char) -> (r: S)
        ensures
            r == self@.advance(c),
    {
        match find_char(&self.chars, c) {
            Some(i) => if i < self.advances.len() {
                self.advances[i]
            } else {
                S::ratio(0, 1)
            },
            None => S::ratio(0, 1),
        }
    }

    /// What is added between two characters; nothing for a pair that is not in the table.
    pub fn kern(&self, a: char, b: char) -> (r: S)
        ensures
            r == self@.kern(a, b),
    {
        match (find_char(&self.chars, a), find_char(&self.chars, b)) {
            (Some(i), Some(j)) => if i < self.kerns.len() && j < self.kerns[i].len() {
                self.kerns[i][j]
            } else {
                S::ratio(0, 1)
            },
            _ => S::ratio(0, 1),
        }
    }
}

pub open spec fn metrics_views<S: Scalar>(m: Seq<Metrics<S>>) -> Seq<MetricsView<S>> {
    Seq::new(m.len(), |i: int| m[i]@)
}

/// Which of `n` styles a run is set in: the first, outside every run.
pub open spec fn style_at(run: Option<usize>, n: nat) -> int {
    match run {
        Some(i) => if i + 1 < n {
            i + 1
        } else {
            0
        },
        None => 0,
    }
}

/// Which of `n` styles a run is set in: the first, outside every run.
pub fn style_index(run: Option<usize>, n: usize) -> (r: usize)
    ensures
        r == style_at(run, n as nat),
        n > 0 ==> r < n,
{
    match run {
        Some(i) => if n > 0 && i < n - 1 {
            i + 1
        } else {
            0
        },
        None => 0,
    }
}

/// What is added before the `k`-th character of a row.
pub open spec fn kern_before<S: Scalar>(m: Seq<MetricsView<S>>, row: Seq<Tagged>, k: int) -> Option<
    S,
> {
    let here = style_at(row[k].run, m.len());
    if k >= 1 && m[style_at(row[k - 1].run, m.len())].face == m[here].face {
        Some(m[here].kern(row[k - 1].c, row[k].c))
    } else {
        None
    }
}

/// Where the `k`-th glyph of a row stands, if the pen was at `x`.
pub open spec fn kerned<S: Scalar>(m: Seq<MetricsView<S>>, row: Seq<Tagged>, k: int, x: S) -> S {
    match kern_before(m, row, k) {
        Some(v) => x.spec_plus(v),
        None => x,
    }
}

/// The advance of the `k`-th character of a row with the letter spacing.
pub open spec fn advance_of<S: Scalar>(
    m: Seq<MetricsView<S>>,
    row: Seq<Tagged>,
    k: int,
    spacing: S,
) -> S {
    m[style_at(row[k].run, m.len())].advance(row[k].c).spec_plus(spacing)
}

/// The width of the first `k` characters of a row.
pub open spec fn width_until<S: Scalar>(
    m: Seq<MetricsView<S>>,
    row: Seq<Tagged>,
    spacing: S,
    k: nat,
) -> S
    decreases k,
{
    if k == 0 {
        S::spec_ratio(0, 1)
    } else {
        kerned(m, row, k - 1, width_until(m, row, spacing, (k - 1) as nat)).spec_plus(
            advance_of(m, row, k - 1, spacing),
        )
    }
}

/// The width of a row.
pub open spec fn row_width<S: Scalar>(m: Seq<MetricsView<S>>, row: Seq<Tagged>, spacing: S) -> S {
    width_until(m, row, spacing, row.len())
}

/// Where the `k`-th glyph of a row stands, if the pen was at `x`.
pub fn kern_to<S: Scalar>(m: &Vec<Metrics<S>>, row: &Vec<Tagged>, k: usize, x: S) -> (r: S)
    requires
        m.len() > 0,
        k < row.len(),
    ensures
        r == kerned(metrics_views(m@), row@, k as int, x),
{
    let here = style_index(row[k].run, m.len());
    if k >= 1 {
        let before = style_index(row[k - 1].run, m.len());
        if m[before].face == m[here].face {
            return x.plus(m[here].kern(row[k - 1].c, row[k].c));
        }
    }
    x
}

/// The advance of the `k`-th character of a row with the letter spacing.
pub fn advance_at<S: Scalar>(m: &Vec<Metrics<S>>, row: &Vec<Tagged>, k: usize, spacing: S) -> (r: S)
    requires
        m.len() > 0,
        k < row.len(),
    ensures
        r == advance_of(metrics_views(m@), row@, k as int, spacing),
{
    let here = style_index(row[k].run, m.len());
    m[here].advance(row[k].c).plus(spacing)
}

/// The width of a row.
pub fn measure<S: Scalar>(m: &Vec<Metrics<S>>, row: &Vec<Tagged>, spacing: S) -> (r: S)
    requires
        m.len() > 0,
    ensures
        r == row_width(metrics_views(m@), row@, spacing),
{
    let mut width = S::ratio(0, 1);
    let mut k: usize = 0;
    while k < row.len()
        invariant
            m.len() > 0,
            k <= row.len(),
            width == width_until(metrics_views(m@), row@, spacing, k as nat),
        decreases row.len() - k,
    {
        width = kern_to(m, row, k, width).plus(advance_at(m, row, k, spacing));
        k += 1;
    }
    width
}

/// Whether a character is white space.
pub open spec fn blank(c: char) -> bool {
    let n = c as u32;
    ||| 0x09 <= n <= 0x0d
    ||| n == 0x20
    ||| n == 0x85
    ||| n == 0xa0
    ||| n == 0x1680
    ||| 0x2000 <= n <= 0x200a
    ||| n == 0x2028
    ||| n == 0x2029
    ||| n == 0x202f
    ||| n == 0x205f
    ||| n == 0x3000
}

/// Whether a character is white space.
pub fn is_blank(c: char) -> (r: bool)
    ensures
        r == blank(c),
{
    let n: u32 = c as u32;
    (0x09 <= n && n <= 0x0d) || n == 0x20 || n == 0x85 || n == 0xa0 || n == 0x1680 || (0x2000 <= n
        && n <= 0x200a) || n == 0x2028 || n == 0x2029 || n == 0x202f || n == 0x205f || n == 0x3000
}

/// The words of a line so far, and the one that is not finished yet.
pub struct Split {
    pub words: Seq<Seq<Tagged>>,
    pub open: Seq<Tagged>,
}

/// The first `k` characters of a line, split at white space.
pub open spec fn split_until(line: Seq<Tagged>, k: nat) -> Split
    decreases k,
{
    if k == 0 {
        Split { words: Seq::empty(), open: Seq::empty() }
    } else {
        let s = split_until(line, (k - 1) as nat);
        if !blank(line[k - 1].c) {
            Split { open: s.open.push(line[k - 1]), ..s }
        } else if s.open.len() > 0 {
            Split { words: s.words.push(s.open), open: Seq::empty() }
        } else {
            s
        }
    }
}

/// The words of a line.
pub open spec fn words_of(line: Seq<Tagged>) -> Seq<Seq<Tagged>> {
    let s = split_until(line, line.len());
    if s.open.len() > 0 {
        s.words.push(s.open)
    } else {
        s.words
    }
}

pub open spec fn row_views(rows: Seq<Vec<Tagged>>) -> Seq<Seq<Tagged>> {
    Seq::new(rows.len(), |i: int| rows[i]@)
}

/// The words of a line.
pub fn split_words(line: &Vec<Tagged>) -> (r: Vec<Vec<Tagged>>)
    ensures
        row_views(r@) == words_of(line@),
{
    let mut words: Vec<Vec<Tagged>> = Vec::new();
    let mut open: Vec<Tagged> = Vec::new();
    let mut k: usize = 0;
    assert(row_views(words@) =~= Seq::empty());
    while k < line.len()
        invariant
            k <= line.len(),
            row_views(words@) == split_until(line@, k as nat).words,
            open@ == split_until(line@, k as nat).open,
        decreases line.len() - k,
    {
        if !is_blank(line[k].c) {
            open.push(line[k]);
        } else if open.len() > 0 {
            let ghost before = words@;
            let mut done: Vec<Tagged> = Vec::new();
            std::mem::swap(&mut done, &mut open);
            words.push(done);
            assert(row_views(words@) =~= row_views(before).push(done@));
        }
        k += 1;
    }
    if open.len() > 0 {
        let ghost before = words@;
        words.push(open);
        assert(row_views(words@) =~= row_views(before).push(open@));
    }
    words
}

/// The rows so far, and the one that may still take a word.
pub struct Packed<S> {
    pub rows: Seq<Seq<Tagged>>,
    pub open: Seq<Tagged>,
    pub width: S,
}

/// The character that stands between two words of a row.
pub open spec fn gap() -> Tagged {
    Tagged { c: ' ', run: None }
}

/// The first `k` words set in rows: a word goes on where it fits, else it begins a row.
pub open spec fn packed<S: Scalar>(
    m: Seq<MetricsView<S>>,
    words: Seq<Seq<Tagged>>,
    spacing: S,
    space: S,
    max: S,
    k: nat,
) -> Packed<S>
    decreases k,
{
    if k == 0 {
        Packed { rows: Seq::empty(), open: Seq::empty(), width: S::spec_ratio(0, 1) }
    } else {
        let p = packed(m, words, spacing, space, max, (k - 1) as nat);
        let w = words[k - 1];
        let width = row_width(m, w, spacing);
        if p.open.len() == 0 {
            Packed { rows: p.rows, open: w, width }
        } else if p.width.spec_plus(space).spec_plus(width).spec_le(max) {
            Packed {
                rows: p.rows,
                open: p.open.push(gap()) + w,
                width: p.width.spec_plus(space.spec_plus(width)),
            }
        } else {
            Packed { rows: p.rows.push(p.open), open: w, width }
        }
    }
}

/// A line broken into rows no wider than `max`, as far as its words allow.
pub open spec fn wrapped<S: Scalar>(
    m: Seq<MetricsView<S>>,
    line: Seq<Tagged>,
    spacing: S,
    space: S,
    max: Option<S>,
) -> Seq<Seq<Tagged>> {
    match max {
        Some(w) => if !w.spec_finite() || line.len() == 0 {
            seq![line]
        } else {
            let words = words_of(line);
            let p = packed(m, words, spacing, space, w, words.len());
            p.rows.push(p.open)
        },
        None => seq![line],
    }
}

/// A line broken into rows no wider than `max`, as far as its words allow; `space` is the width
/// of the gap between two words. Several blanks in a row become one.
pub fn wrap_line<S: Scalar>(
    m: &Vec<Metrics<S>>,
    line: &Vec<Tagged>,
    spacing: S,
    space: S,
    max: Option<S>,
) -> (r: Vec<Vec<Tagged>>)
    requires
        m.len() > 0,
    ensures
        row_views(r@) == wrapped(metrics_views(m@), line@, spacing, space, max),
        r.len() > 0,
{
    let ghost mv = metrics_views(m@);
    let mut rows: Vec<Vec<Tagged>> = Vec::new();
    if let Some(max) = max {
        if max.is_finite() && line.len() > 0 {
            let words = split_words(line);
            let ghost ws = words_of(line@);
            let mut open: Vec<Tagged> = Vec::new();
            let mut width = S::ratio(0, 1);
            let mut k: usize = 0;
            assert(row_views(rows@) =~= Seq::empty());
            while k < words.len()
                invariant
                    m.len() > 0,
                    mv == metrics_views(m@),
                    ws == row_views(words@),
                    k <= words.len(),
                    row_views(rows@) == packed(mv, ws, spacing, space, max, k as nat).rows,
                    open@ == packed(mv, ws, spacing, space, max, k as nat).open,
                    width == packed(mv, ws, spacing, space, max, k as nat).width,
                decreases words.len() - k,
            {
                assert(ws[k as int] == words@[k as int]@);
                let w = measure(m, &words[k], spacing);
                if open.len() == 0 {
                    open = copy_vec(&words[k]);
                    width = w;
                } else if width.plus(space).plus(w).is_le(max) {
                    open.push(Tagged { c: ' ', run: None });
                    append_row(&mut open, &words[k]);
                    width = width.plus(space.plus(w));
                } else {
                    let ghost before = rows@;
                    let ghost was = open@;
                    let mut done = copy_vec(&words[k]);
                    std::mem::swap(&mut done, &mut open);
                    rows.push(done);
                    assert(row_views(rows@) =~= row_views(before).push(was));
                    width = w;
                }
                k += 1;
            }
            let ghost before = rows@;
            let ghost was = open@;
            rows.push(open);
            assert(row_views(rows@) =~= row_views(before).push(was));
            return rows;
        }
    }
    rows.push(copy_vec(line));
    assert(row_views(rows@) =~= seq![line@]);
    rows
}

/// Puts a row at the end of another.
fn append_row(out: &mut Vec<Tagged>, more: &Vec<Tagged>)
    ensures
        final(out)@ == old(out)@ + more@,
{
    let mut i: usize = 0;
    while i < more.len()
        invariant
            i <= more.len(),
            out@ == old(out)@ + more@.take(i as int),
        decreases more.len() - i,
    {
        out.push(more[i]);
        i += 1;
        assert(more@.take(i as int) =~= more@.take(i - 1).push(more@[i - 1]));
    }
    assert(more@.take(i as int) =~= more@);
}

/// The words from `i` to before `j`, with a gap between each two.
pub open spec fn joined(words: Seq<Seq<Tagged>>, i: int, j: int) -> Seq<Tagged>
    decreases j - i,
{
    if j <= i + 1 {
        words[i]
    } else {
        joined(words, i, j - 1).push(gap()) + words[j - 1]
    }
}

/// How wide those words are when they stand in one row.
pub open spec fn joined_width<S: Scalar>(
    m: Seq<MetricsView<S>>,
    words: Seq<Seq<Tagged>>,
    spacing: S,
    space: S,
    i: int,
    j: int,
) -> S
    decreases j - i,
{
    if j <= i + 1 {
        row_width(m, words[i], spacing)
    } else {
        joined_width(m, words, spacing, space, i, j - 1).spec_plus(
            space.spec_plus(row_width(m, words[j - 1], spacing)),
        )
    }
}

/// Whether a row of the words from `i` to before `j` has room for the word at `j`.
pub open spec fn has_room<S: Scalar>(
    m: Seq<MetricsView<S>>,
    words: Seq<Seq<Tagged>>,
    spacing: S,
    space: S,
    max: S,
    i: int,
    j: int,
) -> bool {
    joined_width(m, words, spacing, space, i, j).spec_plus(space).spec_plus(
        row_width(m, words[j], spacing),
    ).spec_le(max)
}

/// Whether a row is made of the words from `i` to before `j`, each of which had room in it, and
/// has no room for the word that follows them.
pub open spec fn is_full_row<S: Scalar>(
    m: Seq<MetricsView<S>>,
    words: Seq<Seq<Tagged>>,
    spacing: S,
    space: S,
    max: S,
    row: Seq<Tagged>,
    i: int,
    j: int,
) -> bool {
    &&& 0 <= i < j <= words.len()
    &&& row == joined(words, i, j)
    &&& forall|k: int| i < k < j ==> #[trigger] has_room(m, words, spacing, space, max, i, k)
    &&& j < words.len() ==> !has_room(m, words, spacing, space, max, i, j)
}

/// The words that begin a row, of the first `k`.
pub open spec fn row_starts<S: Scalar>(
    m: Seq<MetricsView<S>>,
    words: Seq<Seq<Tagged>>,
    spacing: S,
    space: S,
    max: S,
    k: nat,
) -> Seq<int>
    decreases k,
{
    if k == 0 {
        Seq::empty()
    } else {
        let s = row_starts(m, words, spacing, space, max, (k - 1) as nat);
        if s.len() > 0 && has_room(m, words, spacing, space, max, s.last(), k - 1) {
            s
        } else {
            s.push(k - 1)
        }
    }
}

/// The rows of a broken line are as full as they can be: each holds the words from its start to
/// the start of the next row, none of them broken, and had no room for one word more.
pub proof fn law_wrapped_rows_are_full<S: Scalar>(
    m: Seq<MetricsView<S>>,
    line: Seq<Tagged>,
    spacing: S,
    space: S,
    max: S,
)
    requires
        max.spec_finite(),
        words_of(line).len() > 0,
    ensures
        ({
            let words = words_of(line);
            let rows = wrapped(m, line, spacing, space, Some(max));
            let starts = row_starts(m, words, spacing, space, max, words.len());
            &&& rows.len() == starts.len()
            &&& starts[0] == 0
            &&& forall|r: int|
                0 <= r < rows.len() ==> is_full_row(
                    m,
                    words,
                    spacing,
                    space,
                    max,
                    #[trigger] rows[r],
                    starts[r],
                    if r + 1 < rows.len() {
                        starts[r + 1]
                    } else {
                        words.len() as int
                    },
                )
        }),
{
    let words = words_of(line);
    lemma_words_have_ink(line, line.len());
    if line.len() == 0 {
        assert(words =~= Seq::empty());
    }
    lemma_packed_rows(m, words, spacing, space, max, words.len());
}

/// No word is empty.
proof fn lemma_words_have_ink(line: Seq<Tagged>, k: nat)
    requires
        k <= line.len(),
    ensures
        forall|i: int|
            0 <= i < split_until(line, k).words.len() ==> (#[trigger] split_until(
                line,
                k,
            ).words[i]).len() > 0,
    decreases k,
{
    if k > 0 {
        lemma_words_have_ink(line, (k - 1) as nat);
        let s = split_until(line, (k - 1) as nat);
        let t = split_until(line, k);
        assert forall|i: int| 0 <= i < t.words.len() implies (#[trigger] t.words[i]).len() > 0 by {
            if i < s.words.len() {
                assert(t.words[i] == s.words[i]);
            }
        }
    }
}

/// The rows that the first words make, and where each begins.
proof fn lemma_packed_rows<S: Scalar>(
    m: Seq<MetricsView<S>>,
    words: Seq<Seq<Tagged>>,
    spacing: S,
    space: S,
    max: S,
    k: nat,
)
    requires
        0 < k <= words.len(),
        forall|i: int| 0 <= i < words.len() ==> (#[trigger] words[i]).len() > 0,
    ensures
        ({
            let p = packed(m, words, spacing, space, max, k);
            let s = row_starts(m, words, spacing, space, max, k);
            &&& s.len() == p.rows.len() + 1
            &&& s[0] == 0
            &&& 0 <= s.last() < k
            &&& p.open.len() > 0
            &&& p.open == joined(words, s.last(), k as int)
            &&& p.width == joined_width(m, words, spacing, space, s.last(), k as int)
            &&& forall|j: int|
                s.last() < j < k ==> #[trigger] has_room(
                    m,
                    words,
                    spacing,
                    space,
                    max,
                    s.last(),
                    j,
                )
            &&& forall|r: int|
                0 <= r < p.rows.len() ==> is_full_row(
                    m,
                    words,
                    spacing,
                    space,
                    max,
                    #[trigger] p.rows[r],
                    s[r],
                    s[r + 1],
                )
        }),
    decreases k,
{
    if k == 1 {
        reveal_with_fuel(packed, 2);
        reveal_with_fuel(row_starts, 2);
    } else {
        lemma_packed_rows(m, words, spacing, space, max, (k - 1) as nat);
        let p = packed(m, words, spacing, space, max, (k - 1) as nat);
        let s = row_starts(m, words, spacing, space, max, (k - 1) as nat);
        let t = row_starts(m, words, spacing, space, max, k);
        let q = packed(m, words, spacing, space, max, k);
        if has_room(m, words, spacing, space, max, s.last(), k - 1) {
            assert(t == s);
            assert(q.rows == p.rows);
            assert(q.open == joined(words, s.last(), k as int));
            assert(q.width == joined_width(m, words, spacing, space, s.last(), k as int));
        } else {
            assert(t == s.push(k - 1));
            assert(q.rows == p.rows.push(p.open));
            assert(q.open == joined(words, k - 1, k as int));
            assert(q.width == joined_width(m, words, spacing, space, k - 1, k as int));
            assert forall|r: int| 0 <= r < q.rows.len() implies is_full_row(
                m,
                words,
                spacing,
                space,
                max,
                #[trigger] q.rows[r],
                t[r],
                t[r + 1],
            ) by {
                if r < p.rows.len() {
                    assert(q.rows[r] == p.rows[r]);
                }
            }
        }
    }
}

/// The characters of some rows that are not blank, in order.
pub open spec fn ink_of(rows: Seq<Seq<Tagged>>) -> Seq<Tagged>
    decreases rows.len(),
{
    if rows.len() == 0 {
        Seq::empty()
    } else {
        ink_of(rows.drop_last()) + rows.last().filter(|t: Tagged| !blank(t.c))
    }
}

/// Breaking a line loses no character but blanks, adds none but gaps, and keeps the order.
pub proof fn law_wrapping_keeps_the_ink<S: Scalar>(
    m: Seq<MetricsView<S>>,
    line: Seq<Tagged>,
    spacing: S,
    space: S,
    max: Option<S>,
)
    ensures
        ink_of(wrapped(m, line, spacing, space, max)) == line.filter(|t: Tagged| !blank(t.c)),
{
    let inked = |t: Tagged| !blank(t.c);
    if max is Some && (max->0).spec_finite() && line.len() > 0 {
        let w = max->0;
        let words = words_of(line);
        let p = packed(m, words, spacing, space, w, words.len());
        lemma_packed_ink(m, words, spacing, space, w, words.len());
        assert(p.rows.push(p.open).drop_last() =~= p.rows);
        assert(words.take(words.len() as int) =~= words);
        lemma_split_ink(line, line.len());
        assert(line.take(line.len() as int) =~= line);
        let s = split_until(line, line.len());
        if s.open.len() > 0 {
            assert(words.drop_last() =~= s.words);
        } else {
            assert(s.open.filter(inked) =~= Seq::empty()) by {
                reveal(Seq::filter);
            }
        }
    } else {
        assert(seq![line].drop_last() =~= Seq::<Seq<Tagged>>::empty());
        assert(ink_of(Seq::<Seq<Tagged>>::empty()) =~= Seq::<Tagged>::empty());
        assert(seq![line].last() == line);
        assert(ink_of(seq![line]) =~= line.filter(inked));
    }
}

/// The words of the first characters of a line hold their ink.
proof fn lemma_split_ink(line: Seq<Tagged>, k: nat)
    requires
        k <= line.len(),
    ensures
        ({
            let s = split_until(line, k);
            let inked = |t: Tagged| !blank(t.c);
            ink_of(s.words) + s.open.filter(inked) == line.take(k as int).filter(inked)
        }),
    decreases k,
{
    reveal(Seq::filter);
    let inked = |t: Tagged| !blank(t.c);
    if k == 0 {
        assert(line.take(0) =~= Seq::empty());
    } else {
        lemma_split_ink(line, (k - 1) as nat);
        let s = split_until(line, (k - 1) as nat);
        let t = split_until(line, k);
        assert(line.take(k as int).drop_last() =~= line.take(k - 1));
        assert(line.take(k as int).last() == line[k - 1]);
        if !blank(line[k - 1].c) {
            assert(t.open.drop_last() =~= s.open);
            assert(ink_of(t.words) + t.open.filter(inked) =~= (ink_of(s.words) + s.open.filter(
                inked,
            )).push(line[k - 1]));
        } else if s.open.len() > 0 {
            assert(t.words.drop_last() =~= s.words);
            assert(t.open.filter(inked) =~= Seq::empty());
            assert(ink_of(t.words) + t.open.filter(inked) =~= ink_of(s.words) + s.open.filter(
                inked,
            ));
        }
    }
}

/// The rows that the first words make hold their ink.
proof fn lemma_packed_ink<S: Scalar>(
    m: Seq<MetricsView<S>>,
    words: Seq<Seq<Tagged>>,
    spacing: S,
    space: S,
    max: S,
    k: nat,
)
    requires
        k <= words.len(),
    ensures
        ({
            let p = packed(m, words, spacing, space, max, k);
            let inked = |t: Tagged| !blank(t.c);
            ink_of(p.rows) + p.open.filter(inked) == ink_of(words.take(k as int))
        }),
    decreases k,
{
    let inked = |t: Tagged| !blank(t.c);
    if k == 0 {
        assert(words.take(0) =~= Seq::empty());
        assert(Seq::<Tagged>::empty().filter(inked) =~= Seq::empty()) by {
            reveal(Seq::filter);
        }
    } else {
        lemma_packed_ink(m, words, spacing, space, max, (k - 1) as nat);
        let p = packed(m, words, spacing, space, max, (k - 1) as nat);
        let q = packed(m, words, spacing, space, max, k);
        let w = words[k - 1];
        assert(words.take(k as int).drop_last() =~= words.take(k - 1));
        assert(words.take(k as int).last() == w);
        if p.open.len() == 0 {
            assert(p.open.filter(inked) =~= Seq::empty()) by {
                reveal(Seq::filter);
            }
            assert(ink_of(q.rows) + q.open.filter(inked) =~= ink_of(words.take(k as int)));
        } else if q.rows == p.rows {
            Seq::filter_distributes_over_add(p.open.push(gap()), w, inked);
            assert(p.open.push(gap()).filter(inked) == p.open.filter(inked)) by {
                reveal(Seq::filter);
                assert(p.open.push(gap()).drop_last() =~= p.open);
            }
            assert(ink_of(q.rows) + (p.open.filter(inked) + w.filter(inked)) =~= ink_of(
                words.take(k as int),
            ));
        } else {
            assert(q.rows.drop_last() =~= p.rows);
            assert(ink_of(q.rows) + q.open.filter(inked) =~= ink_of(words.take(k as int)));
        }
    }
}

} // verus!
