//! The document model: a document is a sequence of characters, conceptually
//! partitioned into lines by the newline character. This module defines the
//! mathematical view of that partition and the translation between
//! (row, column) coordinates and a single linear character offset.

use vstd::prelude::*;

verus! {

/// Index of the first newline in `s`, or `s.len()` if `s` holds none.
pub open spec fn first_newline(s: Seq<char>) -> int
    decreases s.len(),
{
    if s.len() == 0 {
        0
    } else if s[0] == '\n' {
        0
    } else {
        1 + first_newline(s.drop_first())
    }
}

pub proof fn lemma_first_newline_bounds(s: Seq<char>)
    ensures
        0 <= first_newline(s) <= s.len(),
        forall|i: int| 0 <= i < first_newline(s) ==> s[i] != '\n',
        first_newline(s) < s.len() ==> s[first_newline(s)] == '\n',
    decreases s.len(),
{
    if s.len() == 0 {
    } else if s[0] == '\n' {
    } else {
        lemma_first_newline_bounds(s.drop_first());
        assert forall|i: int| 0 <= i < first_newline(s) implies s[i] != '\n' by {
            if i > 0 {
                assert(s.drop_first()[i - 1] == s[i]);
            }
        }
        if first_newline(s) < s.len() {
            assert(s.drop_first()[first_newline(s) - 1] == s[first_newline(s)]);
        }
    }
}

/// The lines of a document: the maximal newline-free stretches, in order.
/// A document always has at least one line; an empty document is one empty
/// line, and a trailing newline contributes a trailing empty line.
pub open spec fn lines_of(s: Seq<char>) -> Seq<Seq<char>>
    decreases s.len(),
{
    let i = first_newline(s);
    if 0 <= i < s.len() {
        seq![s.take(i)] + lines_of(s.skip(i + 1))
    } else {
        seq![s]
    }
}

pub proof fn lemma_lines_of_nonempty(s: Seq<char>)
    ensures
        lines_of(s).len() >= 1,
    decreases s.len(),
{
    let i = first_newline(s);
    if 0 <= i < s.len() {
        lemma_lines_of_nonempty(s.skip(i + 1));
    }
}

/// The inverse of `lines_of`: the lines joined with single newlines.
pub open spec fn join_lines(ls: Seq<Seq<char>>) -> Seq<char>
    decreases ls.len(),
{
    if ls.len() == 0 {
        Seq::empty()
    } else if ls.len() == 1 {
        ls[0]
    } else {
        ls[0] + seq!['\n'] + join_lines(ls.drop_first())
    }
}

/// Joining the lines of a document reproduces the document exactly.
pub proof fn lemma_join_lines_of(s: Seq<char>)
    ensures
        join_lines(lines_of(s)) == s,
    decreases s.len(),
{
    lemma_first_newline_bounds(s);
    let i = first_newline(s);
    if 0 <= i < s.len() {
        let rest = s.skip(i + 1);
        lemma_join_lines_of(rest);
        lemma_lines_of_nonempty(rest);
        let ls = seq![s.take(i)] + lines_of(rest);
        assert(ls.drop_first() =~= lines_of(rest));
        assert(ls[0] + seq!['\n'] + join_lines(ls.drop_first()) =~= s);
    } else {
        assert(s.take(s.len() as int) =~= s);
    }
}

/// Appending one more line extends the join with a newline and that line;
/// the first line stands alone.
pub proof fn lemma_join_lines_push(vs: Seq<Seq<char>>, v: Seq<char>)
    ensures
        vs.len() == 0 ==> join_lines(vs.push(v)) == v,
        vs.len() > 0 ==> join_lines(vs.push(v)) == join_lines(vs) + seq!['\n'] + v,
    decreases vs.len(),
{
    let t = vs.push(v);
    if vs.len() == 0 {
        assert(t[0] == v);
    } else {
        assert(t.drop_first() =~= vs.drop_first().push(v));
        lemma_join_lines_push(vs.drop_first(), v);
        if vs.len() == 1 {
            assert(t.drop_first() =~= seq![v]);
            assert(join_lines(t) == t[0] + seq!['\n'] + v);
        } else {
            assert(join_lines(t) == t[0] + seq!['\n'] + (join_lines(vs.drop_first()) + seq!['\n']
                + v));
            assert(t[0] + seq!['\n'] + (join_lines(vs.drop_first()) + seq!['\n'] + v) =~= (vs[0]
                + seq!['\n'] + join_lines(vs.drop_first())) + seq!['\n'] + v);
        }
    }
}

/// Joining a prefix of the lines gives at most the whole join's length.
pub proof fn lemma_join_lines_take_len(vs: Seq<Seq<char>>, k: int)
    requires
        0 <= k <= vs.len(),
    ensures
        join_lines(vs.take(k)).len() <= join_lines(vs).len(),
    decreases vs.len() - k,
{
    if k == vs.len() {
        assert(vs.take(k) =~= vs);
    } else {
        lemma_join_lines_take_len(vs, k + 1);
        lemma_join_lines_push(vs.take(k), vs[k]);
        assert(vs.take(k + 1) =~= vs.take(k).push(vs[k]));
    }
}

/// Appending a character extends the last line, or opens a fresh empty line
/// when the character is the newline.
pub proof fn lemma_lines_of_push(s: Seq<char>, c: char)
    ensures
        c == '\n' ==> lines_of(s.push(c)) == lines_of(s).push(Seq::<char>::empty()),
        c != '\n' ==> lines_of(s.push(c)) == lines_of(s).update(
            lines_of(s).len() - 1,
            lines_of(s).last().push(c),
        ),
    decreases s.len(),
{
    lemma_first_newline_bounds(s);
    lemma_first_newline_push(s, c);
    lemma_lines_of_nonempty(s);
    let i = first_newline(s);
    let t = s.push(c);
    if 0 <= i < s.len() {
        // s itself holds a newline; the push happens in the tail.
        assert(t.skip(i + 1) =~= s.skip(i + 1).push(c));
        assert(t.take(i) =~= s.take(i));
        lemma_lines_of_push(s.skip(i + 1), c);
        lemma_lines_of_nonempty(s.skip(i + 1));
        if c == '\n' {
            assert(lines_of(t) =~= lines_of(s).push(Seq::<char>::empty()));
        } else {
            assert(lines_of(t) =~= lines_of(s).update(
                lines_of(s).len() - 1,
                lines_of(s).last().push(c),
            ));
        }
    } else {
        // s has no newline: lines_of(s) == [s].
        assert(lines_of(s) =~= seq![s]);
        if c == '\n' {
            assert(first_newline(t) == s.len());
            assert(t.take(s.len() as int) =~= s);
            assert(t.skip(s.len() as int + 1) =~= Seq::<char>::empty());
            assert(first_newline(Seq::<char>::empty()) == 0);
            assert(lines_of(Seq::<char>::empty()) =~= seq![Seq::<char>::empty()]);
            assert(lines_of(t) =~= seq![s] + seq![Seq::<char>::empty()]);
            assert(lines_of(t) =~= lines_of(s).push(Seq::<char>::empty()));
        } else {
            assert(first_newline(t) == t.len());
            assert(lines_of(t) =~= seq![t]);
            assert(lines_of(t) =~= lines_of(s).update(0, s.push(c)));
        }
    }
}

proof fn lemma_first_newline_push(s: Seq<char>, c: char)
    ensures
        first_newline(s) < s.len() ==> first_newline(s.push(c)) == first_newline(s),
        first_newline(s) == s.len() && c == '\n' ==> first_newline(s.push(c)) == s.len(),
        first_newline(s) == s.len() && c != '\n' ==> first_newline(s.push(c)) == s.len() + 1,
    decreases s.len(),
{
    lemma_first_newline_bounds(s);
    let t = s.push(c);
    if s.len() == 0 {
        assert(t[0] == c);
        if c != '\n' {
            assert(t.drop_first() =~= Seq::<char>::empty());
            assert(first_newline(t.drop_first()) == 0);
            assert(first_newline(t) == 1);
        } else {
            assert(first_newline(t) == 0);
        }
    } else if s[0] == '\n' {
        assert(t[0] == '\n');
        assert(first_newline(t) == 0);
    } else {
        assert(t[0] == s[0]);
        assert(t.drop_first() =~= s.drop_first().push(c));
        lemma_first_newline_push(s.drop_first(), c);
        assert(first_newline(t) == 1 + first_newline(s.drop_first().push(c)));
        assert(first_newline(s) == 1 + first_newline(s.drop_first()));
    }
}

/// The views of a vector of character vectors, as a sequence of sequences.
pub open spec fn char_views(vs: Seq<Vec<char>>) -> Seq<Seq<char>> {
    Seq::new(vs.len(), |i: int| vs[i]@)
}

/// Split `chars` into its lines, executably: the result matches `lines_of`.
pub fn split_into_lines(chars: &Vec<char>) -> (out: Vec<Vec<char>>)
    ensures
        char_views(out@) == lines_of(chars@),
        out@.len() >= 1,
{
    let mut out: Vec<Vec<char>> = Vec::new();
    let mut cur: Vec<char> = Vec::new();
    let mut i: usize = 0;
    proof {
        assert(chars@.take(0) =~= Seq::<char>::empty());
        assert(first_newline(Seq::<char>::empty()) == 0);
        assert(char_views(out@).push(cur@) =~= lines_of(chars@.take(0)));
    }
    while i < chars.len()
        invariant
            i <= chars@.len(),
            char_views(out@).push(cur@) == lines_of(chars@.take(i as int)),
        decreases chars@.len() - i,
    {
        let c = chars[i];
        i = i + 1;
        proof {
            assert(chars@.take(i as int) =~= chars@.take(i - 1).push(chars@[i - 1]));
            lemma_lines_of_push(chars@.take(i - 1), c);
            lemma_lines_of_nonempty(chars@.take(i - 1));
        }
        if c == '\n' {
            let ghost cur0 = cur@;
            out.push(cur);
            cur = Vec::new();
            proof {
                assert(char_views(out@).push(cur@) =~= lines_of(chars@.take(i - 1)).push(
                    Seq::<char>::empty(),
                ));
            }
        } else {
            let ghost prev = char_views(out@).push(cur@);
            cur.push(c);
            proof {
                assert(char_views(out@).push(cur@) =~= prev.update(
                    prev.len() - 1,
                    prev.last().push(c),
                ));
            }
        }
    }
    proof {
        assert(chars@.take(chars@.len() as int) =~= chars@);
    }
    out.push(cur);
    proof {
        assert(char_views(out@) =~= lines_of(chars@));
    }
    out
}

/// The linear offset at which row `row` begins, counting one unit for each
/// newline between consecutive lines.
pub open spec fn line_start(ls: Seq<Seq<char>>, row: int) -> int
    decreases row,
{
    if row <= 0 {
        0
    } else {
        line_start(ls, row - 1) + ls[row - 1].len() + 1
    }
}

pub open spec fn clamp_row(ls: Seq<Seq<char>>, row: int) -> int {
    if row < ls.len() - 1 {
        row
    } else {
        ls.len() - 1
    }
}

pub open spec fn clamp_col(line: Seq<char>, col: int) -> int {
    if col < line.len() {
        col
    } else {
        line.len() as int
    }
}

/// The linear offset of coordinate (row, col): rows beyond the last clamp to
/// the last row, the column clamps to that row's length.
pub open spec fn offset_of(ls: Seq<Seq<char>>, row: int, col: int) -> int {
    let r = clamp_row(ls, row);
    line_start(ls, r) + clamp_col(ls[r], col)
}

/// The (row, col) coordinate of linear offset `pos`, scanning from `row`:
/// an offset that fits in the current row stays there (so an offset at the
/// very end of a row maps to its last column, and the offset one past the
/// newline maps to column 0 of the next row); offsets beyond the document
/// clamp to the end of the last row.
pub open spec fn position_from(ls: Seq<Seq<char>>, pos: int, row: int) -> (int, int)
    decreases ls.len() - row,
{
    if row >= ls.len() - 1 || pos <= ls[row].len() {
        let r = clamp_row(ls, row);
        (r, clamp_col(ls[r], pos))
    } else {
        position_from(ls, pos - ls[row].len() - 1, row + 1)
    }
}

pub open spec fn position_of(ls: Seq<Seq<char>>, pos: int) -> (int, int) {
    position_from(ls, pos, 0)
}

proof fn lemma_position_from_exact(ls: Seq<Seq<char>>, row: int, col: int, r0: int)
    requires
        0 <= r0 <= row < ls.len(),
        0 <= col <= ls[row].len(),
    ensures
        position_from(ls, line_start(ls, row) - line_start(ls, r0) + col, r0) == (row, col),
    decreases row - r0,
{
    if r0 == row {
        assert(line_start(ls, row) - line_start(ls, r0) + col == col);
    } else {
        lemma_line_start_monotonic(ls, r0 + 1, row);
        let pos = line_start(ls, row) - line_start(ls, r0) + col;
        assert(line_start(ls, r0 + 1) == line_start(ls, r0) + ls[r0].len() + 1);
        assert(pos > ls[r0].len());
        lemma_position_from_exact(ls, row, col, r0 + 1);
        assert(pos - ls[r0].len() - 1 == line_start(ls, row) - line_start(ls, r0 + 1) + col);
    }
}

pub proof fn lemma_line_start_nonneg(ls: Seq<Seq<char>>, r: int)
    ensures
        r <= line_start(ls, r),
    decreases r,
{
    if r > 0 {
        lemma_line_start_nonneg(ls, r - 1);
    }
}

/// Every row starts, and ends, inside the document.
pub proof fn lemma_line_start_bound(ls: Seq<Seq<char>>, r: int)
    requires
        0 <= r < ls.len(),
    ensures
        0 <= line_start(ls, r),
        line_start(ls, r) + ls[r].len() <= doc_len(ls),
{
    lemma_line_start_nonneg(ls, r);
    if r == ls.len() - 1 {
    } else {
        lemma_line_start_monotonic(ls, r + 1, ls.len() - 1);
        assert(line_start(ls, r + 1) == line_start(ls, r) + ls[r].len() + 1);
    }
}

pub proof fn lemma_line_start_monotonic(ls: Seq<Seq<char>>, a: int, b: int)
    requires
        a <= b,
    ensures
        line_start(ls, a) <= line_start(ls, b),
    decreases b - a,
{
    if a < b {
        lemma_line_start_monotonic(ls, a, b - 1);
    }
}

/// Round trip: converting a valid coordinate to an offset and back returns
/// the same row, with the column clamped to that row's length.
pub proof fn lemma_round_trip(ls: Seq<Seq<char>>, row: int, col: int)
    requires
        0 <= row < ls.len(),
        0 <= col,
    ensures
        position_of(ls, offset_of(ls, row, col)) == (row, clamp_col(ls[row], col)),
{
    assert(clamp_row(ls, row) == row);
    lemma_position_from_exact(ls, row, clamp_col(ls[row], col), 0);
}

/// The total character length of a document with these lines.
pub open spec fn doc_len(ls: Seq<Seq<char>>) -> int {
    line_start(ls, ls.len() - 1) + ls[ls.len() - 1].len()
}

/// `join_lines` and `line_start` agree: the document is exactly as long as
/// the start of its last row plus that row.
pub proof fn lemma_join_lines_len(ls: Seq<Seq<char>>)
    requires
        ls.len() >= 1,
    ensures
        join_lines(ls).len() == doc_len(ls),
    decreases ls.len(),
{
    if ls.len() == 1 {
    } else {
        lemma_join_lines_len(ls.drop_first());
        lemma_line_start_shift(ls, ls.len() - 1);
    }
}

/// Dropping the first line shifts every later line start by that line plus
/// its newline.
proof fn lemma_line_start_shift(ls: Seq<Seq<char>>, row: int)
    requires
        ls.len() >= 2,
        1 <= row < ls.len(),
    ensures
        line_start(ls, row) == ls[0].len() + 1 + line_start(ls.drop_first(), row - 1),
    decreases row,
{
    if row == 1 {
        assert(line_start(ls, 0) == 0);
        assert(line_start(ls.drop_first(), 0) == 0);
        assert(line_start(ls, 1) == ls[0].len() + 1);
    } else {
        lemma_line_start_shift(ls, row - 1);
        assert(ls.drop_first()[row - 2] == ls[row - 1]);
        assert(line_start(ls.drop_first(), row - 1) == line_start(ls.drop_first(), row - 2)
            + ls[row - 1].len() + 1);
    }
}

} // verus!
