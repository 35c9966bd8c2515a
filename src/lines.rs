use crate::mark::Mark;
use vstd::prelude::*;

verus! {

/// A grid of `n` rows of `n` marks each.
pub open spec fn is_grid(g: Seq<Seq<Mark>>, n: nat) -> bool {
    &&& g.len() == n
    &&& forall|r: int| 0 <= r < n ==> (#[trigger] g[r]).len() == n
}

/// Whether `(r, c)` is a cell of an `n`×`n` grid.
pub open spec fn in_grid(n: nat, r: int, c: int) -> bool {
    0 <= r < n && 0 <= c < n
}

/// The number of forward directions searched from each origin.
pub open spec fn num_directions() -> nat {
    4
}

/// Row step of direction `d`, in the order row, diagonal ↘, column, diagonal ↙.
pub open spec fn dir_row(d: int) -> int {
    if d == 0 {
        0
    } else {
        1
    }
}

/// Column step of direction `d`, in the order row, diagonal ↘, column, diagonal ↙.
pub open spec fn dir_col(d: int) -> int {
    if d == 0 || d == 1 {
        1
    } else if d == 2 {
        0
    } else {
        -1
    }
}

/// Whether all `n` points `(sr + k*dr, sc + k*dc)`, `0 <= k < n`, lie in the grid.
pub open spec fn line_fits(n: nat, sr: int, sc: int, d: int) -> bool {
    forall|k: int|
        0 <= k < n ==> #[trigger] in_grid(n, sr + k * dir_row(d), sc + k * dir_col(d))
}

/// The `n` marks met from origin `(sr, sc)` stepping along direction `d`.
pub open spec fn line_of(g: Seq<Seq<Mark>>, n: nat, sr: int, sc: int, d: int) -> Seq<Mark> {
    Seq::new(n, |k: int| g[sr + k * dir_row(d)][sc + k * dir_col(d)])
}

/// The mark that holds a whole line: its first mark, when that is not
/// `Empty` and every mark of the line equals it.
pub open spec fn line_mark(l: Seq<Mark>) -> Option<Mark> {
    if l.len() > 0 && l[0] != Mark::Empty && (forall|k: int| 0 <= k < l.len() ==> #[trigger] l[k] == l[0]) {
        Some(l[0])
    } else {
        None
    }
}

/// The lines that fit in the grid, for the candidates from `(sr, sc, d)` on:
/// origins in row-major order, and for each origin the directions in order.
pub open spec fn lines_from(g: Seq<Seq<Mark>>, n: nat, sr: nat, sc: nat, d: nat) -> Seq<Seq<Mark>>
    decreases n - sr, n - sc, num_directions() - d,
{
    if sr >= n {
        Seq::empty()
    } else if sc >= n {
        lines_from(g, n, sr + 1, 0, 0)
    } else if d >= num_directions() {
        lines_from(g, n, sr, sc + 1, 0)
    } else {
        let rest = lines_from(g, n, sr, sc, d + 1);
        if line_fits(n, sr as int, sc as int, d as int) {
            seq![line_of(g, n, sr as int, sc as int, d as int)] + rest
        } else {
            rest
        }
    }
}

/// Every line of the grid, in enumeration order.
pub open spec fn all_lines(g: Seq<Seq<Mark>>, n: nat) -> Seq<Seq<Mark>> {
    lines_from(g, n, 0, 0, 0)
}

/// The mark of the first line, from index `i` on, that one mark holds whole.
pub open spec fn first_mark_from(ls: Seq<Seq<Mark>>, i: int) -> Option<Mark>
    decreases ls.len() - i,
{
    if i < 0 || i >= ls.len() {
        None
    } else if line_mark(ls[i]) is Some {
        line_mark(ls[i])
    } else {
        first_mark_from(ls, i + 1)
    }
}

/// The winning mark of a grid: that of the first line in enumeration order
/// that one non-empty mark holds whole.
pub open spec fn winner_of(g: Seq<Seq<Mark>>, n: nat) -> Option<Mark> {
    first_mark_from(all_lines(g, n), 0)
}

/// Whether the candidate `(sr, sc, d)` is a line of the grid held whole by `m`.
pub open spec fn wins_with(g: Seq<Seq<Mark>>, n: nat, sr: int, sc: int, d: int, m: Mark) -> bool {
    &&& in_grid(n, sr, sc)
    &&& 0 <= d < num_directions()
    &&& line_fits(n, sr, sc, d)
    &&& line_mark(line_of(g, n, sr, sc, d)) == Some(m)
}

/// The mark held by a line, as `line_mark` states it.
pub fn winning_mark(line: &[Mark]) -> (r: Option<Mark>)
    ensures
        r == line_mark(line@),
{
    if line.len() == 0 {
        return None;
    }
    let target = line[0];
    if target == Mark::Empty {
        return None;
    }
    let mut k: usize = 0;
    while k < line.len()
        invariant
            k <= line@.len(),
            target == line@[0],
            forall|j: int| 0 <= j < k ==> line@[j] == target,
        decreases line@.len() - k,
    {
        if line[k] != target {
            return None;
        }
        k = k + 1;
    }
    Some(target)
}

} // verus!
