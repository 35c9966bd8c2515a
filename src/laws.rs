use crate::board::{empty_grid, mark_at, set_grid};
use crate::lines::{
    all_lines, first_mark_from, in_grid, is_grid, line_fits, line_mark, line_of, lines_from,
    num_directions, winner_of, wins_with,
};
use crate::mark::Mark;
use vstd::prelude::*;

verus! {

/// Every cell of a freshly made board reads as `Empty`.
pub proof fn lemma_new_cells_empty(n: nat, r: int, c: int)
    requires
        in_grid(n, r, c),
    ensures
        mark_at(empty_grid(n), n, r, c) == Some(Mark::Empty),
{
}

/// Off the board a read gives nothing, and a write leaves the grid as it was.
pub proof fn lemma_off_board(g: Seq<Seq<Mark>>, n: nat, r: int, c: int, m: Mark)
    requires
        !in_grid(n, r, c),
    ensures
        mark_at(g, n, r, c) == None::<Mark>,
        set_grid(g, n, r, c, m) == g,
{
}

/// Writing the same mark at the same cell twice leaves the grid as one write does.
pub proof fn lemma_set_idempotent(g: Seq<Seq<Mark>>, n: nat, r: int, c: int, m: Mark)
    requires
        is_grid(g, n),
    ensures
        set_grid(set_grid(g, n, r, c, m), n, r, c, m) == set_grid(g, n, r, c, m),
{
    if in_grid(n, r, c) {
        let once = set_grid(g, n, r, c, m);
        assert(once[r].update(c, m) =~= once[r]);
        assert(once.update(r, once[r]) =~= once);
    }
}

/// After a write on the board, a read of that cell gives the mark written.
pub proof fn lemma_set_then_get(g: Seq<Seq<Mark>>, n: nat, r: int, c: int, m: Mark)
    requires
        is_grid(g, n),
        in_grid(n, r, c),
    ensures
        mark_at(set_grid(g, n, r, c, m), n, r, c) == Some(m),
{
}

/// A line some of whose marks is `Empty`, or differs from the first, is held by no mark.
pub proof fn lemma_partial_line_no_mark(l: Seq<Mark>, i: int)
    requires
        0 <= i < l.len(),
        l[i] == Mark::Empty || l[i] != l[0],
    ensures
        line_mark(l) == None::<Mark>,
{
}

/// Whether `l` is the line of some candidate that fits in the grid.
pub open spec fn is_grid_line(g: Seq<Seq<Mark>>, n: nat, l: Seq<Mark>) -> bool {
    exists|sr: int, sc: int, d: int|
        {
            &&& in_grid(n, sr, sc)
            &&& 0 <= d < num_directions()
            &&& line_fits(n, sr, sc, d)
            &&& l == #[trigger] line_of(g, n, sr, sc, d)
        }
}

/// Whether candidate `(sr, sc, d)` comes no later than `(a, b, e)` in enumeration order.
pub open spec fn no_later(sr: int, sc: int, d: int, a: int, b: int, e: int) -> bool {
    sr < a || (sr == a && (sc < b || (sc == b && d <= e)))
}

/// Each line enumerated from a candidate on is the line of a candidate that fits.
proof fn lemma_lines_from_sound(g: Seq<Seq<Mark>>, n: nat, sr: nat, sc: nat, d: nat)
    ensures
        forall|i: int|
            0 <= i < lines_from(g, n, sr, sc, d).len() ==> is_grid_line(
                g,
                n,
                #[trigger] lines_from(g, n, sr, sc, d)[i],
            ),
    decreases n - sr, n - sc, num_directions() - d,
{
    if sr >= n {
    } else if sc >= n {
        lemma_lines_from_sound(g, n, sr + 1, 0, 0);
        assert(lines_from(g, n, sr, sc, d) == lines_from(g, n, sr + 1, 0, 0));
    } else if d >= num_directions() {
        lemma_lines_from_sound(g, n, sr, sc + 1, 0);
        assert(lines_from(g, n, sr, sc, d) == lines_from(g, n, sr, sc + 1, 0));
    } else {
        lemma_lines_from_sound(g, n, sr, sc, d + 1);
        let rest = lines_from(g, n, sr, sc, d + 1);
        let all = lines_from(g, n, sr, sc, d);
        if line_fits(n, sr as int, sc as int, d as int) {
            let l = line_of(g, n, sr as int, sc as int, d as int);
            assert(is_grid_line(g, n, l));
            assert forall|i: int| 0 <= i < all.len() implies is_grid_line(g, n, #[trigger] all[i]) by {
                if i == 0 {
                    assert(all[0] == l);
                } else {
                    assert(all[i] == rest[i - 1]);
                }
            }
        } else {
            assert(all == rest);
        }
    }
}

/// Each candidate that fits, from `(sr, sc, d)` on, has its line enumerated.
proof fn lemma_lines_from_complete(
    g: Seq<Seq<Mark>>,
    n: nat,
    sr: nat,
    sc: nat,
    d: nat,
    a: int,
    b: int,
    e: int,
)
    requires
        in_grid(n, a, b),
        0 <= e < num_directions(),
        line_fits(n, a, b, e),
        no_later(sr as int, sc as int, d as int, a, b, e),
    ensures
        lines_from(g, n, sr, sc, d).contains(line_of(g, n, a, b, e)),
    decreases n - sr, n - sc, num_directions() - d,
{
    if sr >= n {
    } else if sc >= n {
        lemma_lines_from_complete(g, n, sr + 1, 0, 0, a, b, e);
    } else if d >= num_directions() {
        lemma_lines_from_complete(g, n, sr, sc + 1, 0, a, b, e);
    } else {
        let all = lines_from(g, n, sr, sc, d);
        let rest = lines_from(g, n, sr, sc, d + 1);
        if sr == a && sc == b && d == e {
            assert(all[0] == line_of(g, n, a, b, e));
        } else {
            lemma_lines_from_complete(g, n, sr, sc, d + 1, a, b, e);
            let j = choose|j: int| 0 <= j < rest.len() && rest[j] == line_of(g, n, a, b, e);
            if line_fits(n, sr as int, sc as int, d as int) {
                assert(all[j + 1] == rest[j]);
            } else {
                assert(all[j] == rest[j]);
            }
        }
    }
}

/// The first mark found from index `i` on is that of a line from `i` on.
proof fn lemma_first_mark_sound(ls: Seq<Seq<Mark>>, i: int, m: Mark)
    requires
        first_mark_from(ls, i) == Some(m),
    ensures
        exists|j: int| i <= j < ls.len() && line_mark(#[trigger] ls[j]) == Some(m),
    decreases ls.len() - i,
{
    if line_mark(ls[i]) is Some {
        assert(line_mark(ls[i]) == Some(m));
    } else {
        lemma_first_mark_sound(ls, i + 1, m);
    }
}

/// Where a line from index `i` on is held by a mark, some mark is found.
proof fn lemma_first_mark_complete(ls: Seq<Seq<Mark>>, i: int, j: int)
    requires
        0 <= i <= j < ls.len(),
        line_mark(ls[j]) is Some,
    ensures
        first_mark_from(ls, i) is Some,
    decreases j - i,
{
    if i < j && line_mark(ls[i]) is None {
        lemma_first_mark_complete(ls, i + 1, j);
    }
}

/// A reported winner holds some full line of the grid whole.
pub proof fn lemma_winner_holds_line(g: Seq<Seq<Mark>>, n: nat, m: Mark)
    requires
        is_grid(g, n),
        winner_of(g, n) == Some(m),
    ensures
        exists|sr: int, sc: int, d: int| wins_with(g, n, sr, sc, d, m),
{
    let ls = all_lines(g, n);
    lemma_first_mark_sound(ls, 0, m);
    let j = choose|j: int| 0 <= j < ls.len() && line_mark(#[trigger] ls[j]) == Some(m);
    lemma_lines_from_sound(g, n, 0, 0, 0);
    assert(is_grid_line(g, n, ls[j]));
    let (sr, sc, d) = choose|sr: int, sc: int, d: int|
        {
            &&& in_grid(n, sr, sc)
            &&& 0 <= d < num_directions()
            &&& line_fits(n, sr, sc, d)
            &&& ls[j] == #[trigger] line_of(g, n, sr, sc, d)
        };
    assert(wins_with(g, n, sr, sc, d, m));
}

/// Where some full line of the grid is held whole by one non-empty mark,
/// a winner is reported.
pub proof fn lemma_full_line_reports_winner(
    g: Seq<Seq<Mark>>,
    n: nat,
    sr: int,
    sc: int,
    d: int,
    m: Mark,
)
    requires
        is_grid(g, n),
        wins_with(g, n, sr, sc, d, m),
    ensures
        winner_of(g, n) is Some,
{
    let ls = all_lines(g, n);
    lemma_lines_from_complete(g, n, 0, 0, 0, sr, sc, d);
    let j = choose|j: int| 0 <= j < ls.len() && ls[j] == line_of(g, n, sr, sc, d);
    lemma_first_mark_complete(ls, 0, j);
}

/// A grid with no full line held whole by one non-empty mark has no winner.
pub proof fn lemma_no_full_line_no_winner(g: Seq<Seq<Mark>>, n: nat)
    requires
        is_grid(g, n),
        forall|sr: int, sc: int, d: int, m: Mark| !#[trigger] wins_with(g, n, sr, sc, d, m),
    ensures
        winner_of(g, n) == None::<Mark>,
{
    if let Some(m) = winner_of(g, n) {
        lemma_winner_holds_line(g, n, m);
    }
}

/// A board of size 0 has no winner. On a board of size 1 the lone cell is
/// a line of its own, so it wins exactly when it is not `Empty`.
pub proof fn lemma_tiny_boards(g: Seq<Seq<Mark>>, n: nat)
    requires
        is_grid(g, n),
        n <= 1,
    ensures
        n == 0 ==> winner_of(g, n) == None::<Mark>,
        n == 1 ==> winner_of(g, n) == (if g[0][0] == Mark::Empty {
            None
        } else {
            Some(g[0][0])
        }),
{
    if n == 1 {
        let cell = seq![g[0][0]];
        assert forall|d: int| 0 <= d < num_directions() implies line_fits(1, 0, 0, d)
            && line_of(g, 1, 0, 0, d) == cell by {
            assert forall|k: int| 0 <= k < 1 implies #[trigger] in_grid(
                1,
                0 + k * crate::lines::dir_row(d),
                0 + k * crate::lines::dir_col(d),
            ) by {
                assert(k == 0);
            }
            assert(line_of(g, 1, 0, 0, d) =~= cell);
        }
        reveal_with_fuel(lines_from, 8);
        let ls = all_lines(g, 1);
        assert(ls =~= seq![cell, cell, cell, cell]);
        reveal_with_fuel(first_mark_from, 5);
    } else {
        reveal_with_fuel(lines_from, 2);
    }
}

} // verus!
