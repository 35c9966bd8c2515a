use crate::lines::{
    all_lines, dir_col, dir_row, first_mark_from, in_grid, is_grid, line_fits, line_of, lines_from,
    num_directions, winner_of, winning_mark,
};
use crate::mark::Mark;
use vstd::prelude::*;

verus! {

/// An `n`×`n` grid whose cells are all `Empty`.
pub open spec fn empty_grid(n: nat) -> Seq<Seq<Mark>> {
    Seq::new(n, |r: int| Seq::new(n, |c: int| Mark::Empty))
}

/// What a read of `(r, c)` gives: the mark there, or nothing off the grid.
pub open spec fn mark_at(g: Seq<Seq<Mark>>, n: nat, r: int, c: int) -> Option<Mark> {
    if in_grid(n, r, c) {
        Some(g[r][c])
    } else {
        None
    }
}

/// The grid after a write of `m` at `(r, c)`: unchanged off the grid.
pub open spec fn set_grid(g: Seq<Seq<Mark>>, n: nat, r: int, c: int, m: Mark) -> Seq<Seq<Mark>> {
    if in_grid(n, r, c) {
        g.update(r, g[r].update(c, m))
    } else {
        g
    }
}

/// The marks of each line in a list of lines.
pub open spec fn line_views(ls: Seq<Vec<Mark>>) -> Seq<Seq<Mark>> {
    ls.map_values(|v: Vec<Mark>| v@)
}

/// The steps `(dr, dc)` of direction `d`.
fn direction(d: usize) -> (r: (i8, i8))
    requires
        d < num_directions(),
    ensures
        r.0 as int == dir_row(d as int),
        r.1 as int == dir_col(d as int),
{
    if d == 0 {
        (0, 1)
    } else if d == 1 {
        (1, 1)
    } else if d == 2 {
        (1, 0)
    } else {
        (1, -1)
    }
}

/// The coordinate `base + k * delta`, where it lies in `[0, n)`.
fn step(base: usize, k: usize, delta: i8, n: usize) -> (r: Option<usize>)
    requires
        base < n,
        -1 <= delta <= 1,
    ensures
        match r {
            Some(p) => p as int == base + k * delta && p < n,
            None => !(0 <= base + k * delta < n),
        },
{
    if delta == 0 {
        assert(k * delta == 0) by (nonlinear_arith)
            requires
                delta == 0,
        ;
        Some(base)
    } else if delta > 0 {
        assert(k * delta == k) by (nonlinear_arith)
            requires
                delta == 1,
        ;
        if k < n - base {
            Some(base + k)
        } else {
            None
        }
    } else {
        assert(k * delta == -k) by (nonlinear_arith)
            requires
                delta == -1,
        ;
        if k <= base {
            Some(base - k)
        } else {
            None
        }
    }
}

/// A square board of marks whose size is fixed when it is made.
#[derive(Debug)]
pub struct Board {
    size: usize,
    vals: Vec<Vec<Mark>>,
}

impl View for Board {
    type V = Seq<Seq<Mark>>;

    /// The cells, row by row.
    closed spec fn view(&self) -> Seq<Seq<Mark>> {
        self.vals@.map_values(|row: Vec<Mark>| row@)
    }
}

impl Board {
    /// The number of rows, and of columns.
    pub closed spec fn dim(&self) -> nat {
        self.size as nat
    }

    /// The cells form a `dim()`×`dim()` grid.
    pub open spec fn wf(&self) -> bool {
        is_grid(self@, self.dim())
    }

    /// A `size`×`size` board with every cell `Empty`.
    pub fn new(size: usize) -> (b: Board)
        ensures
            b.wf(),
            b.dim() == size,
            b@ == empty_grid(size as nat),
    {
        let mut vals: Vec<Vec<Mark>> = Vec::with_capacity(size);
        let mut i: usize = 0;
        while i < size
            invariant
                i <= size,
                vals@.len() == i,
                forall|r: int| 0 <= r < i ==> (#[trigger] vals@[r])@ == Seq::new(size as nat, |c: int| Mark::Empty),
            decreases size - i,
        {
            let mut row: Vec<Mark> = Vec::with_capacity(size);
            let mut j: usize = 0;
            while j < size
                invariant
                    j <= size,
                    row@ == Seq::new(j as nat, |c: int| Mark::Empty),
                decreases size - j,
            {
                row.push(Mark::Empty);
                j = j + 1;
                assert(row@ =~= Seq::new(j as nat, |c: int| Mark::Empty));
            }
            vals.push(row);
            i = i + 1;
        }
        let b = Board { size, vals };
        assert(b@ =~= empty_grid(size as nat));
        b
    }

    /// The mark at `(rr, cc)`, or `None` where either index is off the board.
    pub fn get(&self, rr: i32, cc: i32) -> (r: Option<Mark>)
        requires
            self.wf(),
        ensures
            r == mark_at(self@, self.dim(), rr as int, cc as int),
    {
        if rr < 0 || cc < 0 {
            return None;
        }
        let r = rr as usize;
        let c = cc as usize;
        if r >= self.size || c >= self.size {
            return None;
        }
        assert(self.vals@[r as int]@ == self@[r as int]);
        Some(self.vals[r][c])
    }

    /// Writes `val` at `(rr, cc)`; returns whether the cell was on the board.
    /// Off the board nothing changes.
    pub fn set(&mut self, rr: usize, cc: usize, val: Mark) -> (ok: bool)
        requires
            old(self).wf(),
        ensures
            final(self).wf(),
            final(self).dim() == old(self).dim(),
            ok == in_grid(old(self).dim(), rr as int, cc as int),
            final(self)@ == set_grid(old(self)@, old(self).dim(), rr as int, cc as int, val),
    {
        if rr >= self.size || cc >= self.size {
            return false;
        }
        assert(self.vals@[rr as int]@ == self@[rr as int]);
        self.vals[rr][cc] = val;
        assert(self@ =~= set_grid(old(self)@, old(self).dim(), rr as int, cc as int, val));
        true
    }

    /// The marks of the line from `(sr, sc)` along direction `d`, or `None`
    /// where that line runs off the board.
    fn attempt_slice(&self, sr: usize, sc: usize, d: usize) -> (r: Option<Vec<Mark>>)
        requires
            self.wf(),
            sr < self.dim(),
            sc < self.dim(),
            d < num_directions(),
        ensures
            match r {
                Some(v) => line_fits(self.dim(), sr as int, sc as int, d as int) && v@ == line_of(
                    self@,
                    self.dim(),
                    sr as int,
                    sc as int,
                    d as int,
                ),
                None => !line_fits(self.dim(), sr as int, sc as int, d as int),
            },
    {
        let (dr, dc) = direction(d);
        let n = self.size;
        let ghost g = self@;
        let ghost nn = self.dim();
        let mut v: Vec<Mark> = Vec::with_capacity(n);
        let mut k: usize = 0;
        while k < n
            invariant
                self.wf(),
                n == nn,
                nn == self.dim(),
                g == self@,
                k <= n,
                sr < n,
                sc < n,
                dr as int == dir_row(d as int),
                dc as int == dir_col(d as int),
                v@.len() == k,
                forall|j: int|
                    0 <= j < k ==> #[trigger] in_grid(nn, sr + j * dir_row(d as int), sc + j * dir_col(d as int)),
                forall|j: int|
                    0 <= j < k ==> #[trigger] v@[j] == g[sr + j * dir_row(d as int)][sc + j * dir_col(d as int)],
            decreases n - k,
        {
            let pr = step(sr, k, dr, n);
            let pc = step(sc, k, dc, n);
            match (pr, pc) {
                (Some(r), Some(c)) => {
                    assert(in_grid(nn, sr + k * dir_row(d as int), sc + k * dir_col(d as int)));
                    assert(self.vals@[r as int]@ == g[r as int]);
                    v.push(self.vals[r][c]);
                },
                _ => {
                    assert(!in_grid(nn, sr + k * dir_row(d as int), sc + k * dir_col(d as int)));
                    return None;
                },
            }
            k = k + 1;
        }
        assert(v@ =~= line_of(g, nn, sr as int, sc as int, d as int));
        Some(v)
    }

    /// Every line of the board, in enumeration order: origins row by row,
    /// and from each origin the directions row, diagonal ↘, column and
    /// diagonal ↙, keeping the lines that stay on the board.
    pub fn slices(&self) -> (r: Vec<Vec<Mark>>)
        requires
            self.wf(),
        ensures
            line_views(r@) == all_lines(self@, self.dim()),
    {
        let n = self.size;
        let ghost g = self@;
        let ghost nn = self.dim();
        let mut out: Vec<Vec<Mark>> = Vec::new();
        let mut sr: usize = 0;
        assert(line_views(out@) + lines_from(g, nn, 0, 0, 0) =~= all_lines(g, nn));
        while sr < n
            invariant
                self.wf(),
                n == nn,
                nn == self.dim(),
                g == self@,
                sr <= n,
                line_views(out@) + lines_from(g, nn, sr as nat, 0, 0) == all_lines(g, nn),
            decreases n - sr,
        {
            let mut sc: usize = 0;
            while sc < n
                invariant
                    self.wf(),
                    n == nn,
                    nn == self.dim(),
                    g == self@,
                    sr < n,
                    sc <= n,
                    line_views(out@) + lines_from(g, nn, sr as nat, sc as nat, 0) == all_lines(g, nn),
                decreases n - sc,
            {
                let mut d: usize = 0;
                while d < 4
                    invariant
                        self.wf(),
                        n == nn,
                        nn == self.dim(),
                        g == self@,
                        sr < n,
                        sc < n,
                        d <= num_directions(),
                        line_views(out@) + lines_from(g, nn, sr as nat, sc as nat, d as nat) == all_lines(g, nn),
                    decreases 4 - d,
                {
                    let ghost before = line_views(out@);
                    let ghost rest = lines_from(g, nn, sr as nat, sc as nat, (d + 1) as nat);
                    match self.attempt_slice(sr, sc, d) {
                        Some(v) => {
                            out.push(v);
                            assert(line_views(out@) =~= before.push(v@));
                            assert(before + lines_from(g, nn, sr as nat, sc as nat, d as nat) =~= line_views(out@) + rest);
                        },
                        None => {},
                    }
                    d = d + 1;
                }
                sc = sc + 1;
            }
            sr = sr + 1;
        }
        assert(line_views(out@) =~= all_lines(g, nn));
        out
    }

    /// The mark of the first line, in the order of `slices`, that one
    /// non-empty mark holds whole; `None` where no line is so held, full
    /// board or not. Where several lines are held, only the first counts.
    /// On a 1×1 board the lone cell is a line, so a mark there wins.
    pub fn winner(&self) -> (r: Option<Mark>)
        requires
            self.wf(),
        ensures
            r == winner_of(self@, self.dim()),
    {
        let lines = self.slices();
        let ghost ls = all_lines(self@, self.dim());
        let mut i: usize = 0;
        while i < lines.len()
            invariant
                ls == all_lines(self@, self.dim()),
                line_views(lines@) == ls,
                i <= lines@.len(),
                first_mark_from(ls, 0) == first_mark_from(ls, i as int),
            decreases lines@.len() - i,
        {
            let m = winning_mark(lines[i].as_slice());
            assert(lines@[i as int]@ == ls[i as int]);
            if m.is_some() {
                return m;
            }
            i = i + 1;
        }
        None
    }
}

} // verus!
