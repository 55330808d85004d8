use vstd::prelude::*;
use vstd::arithmetic::div_mod::lemma_fundamental_div_mod;
use crate::direction::{Axis, Direction, axis_of, is_rev};
use crate::line::{ranks_fit, merge_toward, lemma_merge_toward_len, merge_line};

verus! {

/// Index of the `p`-th cell of line `k` along `axis`. Vertical lines are
/// keyed by row and run over the columns; horizontal lines are keyed by
/// column and run over the rows.
pub open spec fn cell_index(axis: Axis, n: int, k: int, p: int) -> int {
    match axis {
        Axis::Vertical => k + p * n,
        Axis::Horizontal => p + k * n,
    }
}

/// The line along `axis` that holds cell `i`.
pub open spec fn line_key(axis: Axis, n: int, i: int) -> int {
    match axis {
        Axis::Vertical => i % n,
        Axis::Horizontal => i / n,
    }
}

/// The position of cell `i` within its line along `axis`.
pub open spec fn line_pos(axis: Axis, n: int, i: int) -> int {
    match axis {
        Axis::Vertical => i / n,
        Axis::Horizontal => i % n,
    }
}

/// A grid of side `n` whose ranks can all be merged without overflow.
pub open spec fn grid_ok(g: Seq<u8>, n: int) -> bool {
    &&& n >= 1
    &&& g.len() == n * n
    &&& ranks_fit(g)
}

/// Line `k` along `axis`, empty cells included.
pub open spec fn full_line(g: Seq<u8>, n: int, axis: Axis, k: int) -> Seq<u8> {
    Seq::new(n as nat, |p: int| g[cell_index(axis, n, k, p)])
}

/// The tiles of a line in order, empty cells dropped.
pub open spec fn occupied(s: Seq<u8>) -> Seq<u8>
    decreases s.len(),
{
    if s.len() == 0 {
        s
    } else if s.last() != 0 {
        occupied(s.drop_last()).push(s.last())
    } else {
        occupied(s.drop_last())
    }
}

/// The `n` lines of a grid along `axis`, each holding only its tiles.
pub open spec fn project(g: Seq<u8>, n: int, axis: Axis) -> Seq<Seq<u8>> {
    Seq::new(n as nat, |k: int| occupied(full_line(g, n, axis, k)))
}

/// A line of side `n` with the tiles `m` packed against its near end, or its
/// far end when `rev`, and empty cells elsewhere.
pub open spec fn place(m: Seq<u8>, n: int, rev: bool) -> Seq<u8> {
    let pad = Seq::new((n - m.len()) as nat, |j: int| 0u8);
    if rev {
        pad + m
    } else {
        m + pad
    }
}

/// The grid that holds line `k` of `ls`, packed toward the origin of `d`,
/// as its line `k` along the axis of `d`.
pub open spec fn reconstruct(ls: Seq<Seq<u8>>, n: int, d: Direction) -> Seq<u8> {
    Seq::new(
        (n * n) as nat,
        |i: int| place(ls[line_key(axis_of(d), n, i)], n, is_rev(d))[line_pos(axis_of(d), n, i)],
    )
}

/// Every line of `ls` merged toward the end that `rev` names.
pub open spec fn merge_all(ls: Seq<Seq<u8>>, rev: bool) -> Seq<Seq<u8>> {
    Seq::new(ls.len(), |k: int| merge_toward(ls[k], rev))
}

/// The grid that a move of `g` in direction `d` produces.
pub open spec fn predict(g: Seq<u8>, n: int, d: Direction) -> Seq<u8> {
    reconstruct(merge_all(project(g, n, axis_of(d)), is_rev(d)), n, d)
}

/// No move changes anything that another would not: all four predictions agree.
pub open spec fn terminal(g: Seq<u8>, n: int) -> bool {
    &&& predict(g, n, Direction::Up) == predict(g, n, Direction::Down)
    &&& predict(g, n, Direction::Up) == predict(g, n, Direction::Left)
    &&& predict(g, n, Direction::Up) == predict(g, n, Direction::Right)
}

/// The indices of the empty cells of `s`, ascending.
pub open spec fn empty_positions(s: Seq<u8>) -> Seq<int>
    decreases s.len(),
{
    if s.len() == 0 {
        Seq::empty()
    } else if s.last() == 0 {
        empty_positions(s.drop_last()).push(s.len() - 1)
    } else {
        empty_positions(s.drop_last())
    }
}

/// The view of each line of a vector of lines.
pub open spec fn line_views(ls: Seq<Vec<u8>>) -> Seq<Seq<u8>> {
    Seq::new(ls.len(), |k: int| ls[k]@)
}

pub proof fn lemma_index_in_range(n: int, k: int, p: int)
    requires
        0 <= k < n,
        0 <= p < n,
    ensures
        0 <= k + p * n < n * n,
        0 <= p + k * n < n * n,
        0 <= p * n < n * n,
        0 <= k * n < n * n,
{
    assert(0 <= p * n < n * n) by (nonlinear_arith)
        requires
            0 <= k < n,
            0 <= p < n,
    ;
    assert(0 <= k * n < n * n) by (nonlinear_arith)
        requires
            0 <= k < n,
            0 <= p < n,
    ;
    assert(0 <= k + p * n < n * n) by (nonlinear_arith)
        requires
            0 <= k < n,
            0 <= p < n,
    ;
    assert(0 <= p + k * n < n * n) by (nonlinear_arith)
        requires
            0 <= k < n,
            0 <= p < n,
    ;
}

pub proof fn lemma_coords(n: int, i: int)
    requires
        n >= 1,
        0 <= i < n * n,
    ensures
        0 <= i % n < n,
        0 <= i / n < n,
        i == i % n + (i / n) * n,
{
    lemma_fundamental_div_mod(i, n);
    let q = i / n;
    let r = i % n;
    assert(0 <= q < n) by (nonlinear_arith)
        requires
            i == n * q + r,
            0 <= r < n,
            0 <= i < n * n,
    ;
}

pub proof fn lemma_occupied(s: Seq<u8>)
    ensures
        occupied(s).len() <= s.len(),
        forall|j: int| 0 <= j < occupied(s).len() ==> occupied(s)[j] != 0,
        ranks_fit(s) ==> ranks_fit(occupied(s)),
    decreases s.len(),
{
    if s.len() > 0 {
        lemma_occupied(s.drop_last());
    }
}

/// Facts about line `k` of the projection of a grid.
pub proof fn lemma_project_line(g: Seq<u8>, n: int, axis: Axis, k: int)
    requires
        grid_ok(g, n),
        0 <= k < n,
    ensures
        project(g, n, axis)[k].len() <= n,
        ranks_fit(project(g, n, axis)[k]),
{
    let fl = full_line(g, n, axis, k);
    assert forall|p: int| 0 <= p < n implies fl[p] < 255 by {
        lemma_index_in_range(n, k, p);
    }
    lemma_occupied(fl);
}

pub proof fn lemma_empty_positions(s: Seq<u8>)
    ensures
        empty_positions(s).len() <= s.len(),
        forall|j: int|
            0 <= j < empty_positions(s).len() ==> {
                &&& 0 <= empty_positions(s)[j] < s.len()
                &&& s[empty_positions(s)[j]] == 0
            },
    decreases s.len(),
{
    if s.len() > 0 {
        lemma_empty_positions(s.drop_last());
        assert forall|j: int| 0 <= j < s.len() - 1 implies s.drop_last()[j] == s[j] by {}
    }
}

/// Filling an empty cell removes exactly that cell from the empty ones.
pub proof fn lemma_fill_empty(s: Seq<u8>, idx: int, v: u8)
    requires
        0 <= idx < s.len(),
        s[idx] == 0,
        v != 0,
    ensures
        empty_positions(s.update(idx, v)).len() + 1 == empty_positions(s).len(),
    decreases s.len(),
{
    let t = s.update(idx, v);
    if idx == s.len() - 1 {
        assert(t.drop_last() =~= s.drop_last());
    } else {
        assert(t.drop_last() =~= s.drop_last().update(idx, v));
        lemma_fill_empty(s.drop_last(), idx, v);
    }
}

/// Splits grid `cells` of side `n` into its lines along `axis`, each holding
/// the ranks of its tiles in order and no empty cell.
pub fn lines(cells: &Vec<u8>, n: usize, axis: Axis) -> (r: Vec<Vec<u8>>)
    requires
        n >= 1,
        n * n <= usize::MAX,
        cells@.len() == n * n,
    ensures
        line_views(r@) == project(cells@, n as int, axis),
{
    let mut out: Vec<Vec<u8>> = Vec::new();
    let mut k: usize = 0;
    while k < n
        invariant
            n >= 1,
            n * n <= usize::MAX,
            cells@.len() == n * n,
            k <= n,
            out@.len() == k,
            forall|j: int| 0 <= j < k ==> out@[j]@ == project(cells@, n as int, axis)[j],
        decreases n - k,
    {
        let ghost fl = full_line(cells@, n as int, axis, k as int);
        let mut line: Vec<u8> = Vec::new();
        let mut p: usize = 0;
        assert(fl.take(0) =~= Seq::<u8>::empty());
        while p < n
            invariant
                n >= 1,
                n * n <= usize::MAX,
                cells@.len() == n * n,
                k < n,
                p <= n,
                fl == full_line(cells@, n as int, axis, k as int),
                line@ == occupied(fl.take(p as int)),
            decreases n - p,
        {
            proof {
                lemma_index_in_range(n as int, k as int, p as int);
            }
            let idx: usize = match axis {
                Axis::Vertical => k + p * n,
                Axis::Horizontal => p + k * n,
            };
            let c: u8 = cells[idx];
            assert(fl.take(p + 1).drop_last() =~= fl.take(p as int));
            if c > 0 {
                line.push(c);
            }
            p = p + 1;
        }
        assert(fl.take(n as int) =~= fl);
        out.push(line);
        k = k + 1;
    }
    assert(line_views(out@) =~= project(cells@, n as int, axis));
    out
}

/// Merges every line toward the origin of `dir`.
pub fn merge(ls: &Vec<Vec<u8>>, dir: Direction) -> (r: Vec<Vec<u8>>)
    requires
        forall|k: int| 0 <= k < ls@.len() ==> ranks_fit(#[trigger] ls@[k]@),
    ensures
        line_views(r@) == merge_all(line_views(ls@), is_rev(dir)),
{
    let mut out: Vec<Vec<u8>> = Vec::new();
    let mut k: usize = 0;
    while k < ls.len()
        invariant
            k <= ls@.len(),
            forall|j: int| 0 <= j < ls@.len() ==> ranks_fit(#[trigger] ls@[j]@),
            out@.len() == k,
            forall|j: int| 0 <= j < k ==> out@[j]@ == merge_toward(ls@[j]@, is_rev(dir)),
        decreases ls@.len() - k,
    {
        let m = merge_line(&ls[k], dir);
        out.push(m);
        k = k + 1;
    }
    assert(line_views(out@) =~= merge_all(line_views(ls@), is_rev(dir)));
    out
}

/// Lays lines back onto a grid of side `n`: line `k` becomes line `k` along
/// the axis of `dir`, its tiles packed toward that direction's origin.
pub fn lines_to_vec(ls: &Vec<Vec<u8>>, n: usize, dir: Direction) -> (r: Vec<u8>)
    requires
        n >= 1,
        n * n <= usize::MAX,
        ls@.len() == n,
        forall|k: int| 0 <= k < n ==> (#[trigger] ls@[k]@).len() <= n,
    ensures
        r@ == reconstruct(line_views(ls@), n as int, dir),
{
    let total: usize = n * n;
    let rev = dir.is_dir_rev();
    let axis = dir.to_axis();
    let ghost target = reconstruct(line_views(ls@), n as int, dir);
    let mut out: Vec<u8> = Vec::new();
    let mut i: usize = 0;
    while i < total
        invariant
            n >= 1,
            total == n * n,
            ls@.len() == n,
            forall|k: int| 0 <= k < n ==> (#[trigger] ls@[k]@).len() <= n,
            rev == is_rev(dir),
            axis == axis_of(dir),
            target == reconstruct(line_views(ls@), n as int, dir),
            i <= total,
            out@.len() == i,
            forall|j: int| 0 <= j < i ==> out@[j] == target[j],
        decreases total - i,
    {
        proof {
            lemma_coords(n as int, i as int);
        }
        let (k, pos) = match axis {
            Axis::Vertical => (i % n, i / n),
            Axis::Horizontal => (i / n, i % n),
        };
        let line = &ls[k];
        let len = line.len();
        let ghost placed = place(line@, n as int, rev);
        let c: u8 = if !rev {
            if pos < len {
                line[pos]
            } else {
                0
            }
        } else {
            let pad = n - len;
            if pos >= pad {
                line[pos - pad]
            } else {
                0
            }
        };
        assert(c == placed[pos as int]);
        out.push(c);
        i = i + 1;
    }
    assert(out@ =~= target);
    out
}

/// The grid that each of the four directions would produce.
pub struct Predictions {
    pub up: Vec<u8>,
    pub down: Vec<u8>,
    pub left: Vec<u8>,
    pub right: Vec<u8>,
}

impl Predictions {
    /// The predicted grid for direction `d`.
    pub open spec fn of(&self, d: Direction) -> Seq<u8> {
        match d {
            Direction::Up => self.up@,
            Direction::Down => self.down@,
            Direction::Left => self.left@,
            Direction::Right => self.right@,
        }
    }

    /// Each entry is the move of grid `g` of side `n` in its direction.
    pub open spec fn predicts(&self, g: Seq<u8>, n: int) -> bool {
        &&& self.of(Direction::Up) == predict(g, n, Direction::Up)
        &&& self.of(Direction::Down) == predict(g, n, Direction::Down)
        &&& self.of(Direction::Left) == predict(g, n, Direction::Left)
        &&& self.of(Direction::Right) == predict(g, n, Direction::Right)
    }

    /// The predicted grid for direction `dir`.
    pub fn get(&self, dir: Direction) -> (r: &Vec<u8>)
        ensures
            r@ == self.of(dir),
    {
        match dir {
            Direction::Up => &self.up,
            Direction::Down => &self.down,
            Direction::Left => &self.left,
            Direction::Right => &self.right,
        }
    }
}

fn predict_one(ls: &Vec<Vec<u8>>, n: usize, dir: Direction, Ghost(g): Ghost<Seq<u8>>) -> (r: Vec<u8>)
    requires
        grid_ok(g, n as int),
        n * n <= usize::MAX,
        line_views(ls@) == project(g, n as int, axis_of(dir)),
    ensures
        r@ == predict(g, n as int, dir),
{
    let ghost proj = project(g, n as int, axis_of(dir));
    assert(line_views(ls@).len() == ls@.len());
    assert forall|k: int| 0 <= k < ls@.len() implies ranks_fit(#[trigger] ls@[k]@) by {
        assert(ls@[k]@ == line_views(ls@)[k]);
        lemma_project_line(g, n as int, axis_of(dir), k);
    }
    let merged = merge(ls, dir);
    assert(line_views(ls@).len() == ls@.len());
    assert(line_views(merged@).len() == merged@.len());
    assert(merged@.len() == n);
    assert forall|k: int| 0 <= k < n implies (#[trigger] merged@[k]@).len() <= n by {
        assert(merged@[k]@ == line_views(merged@)[k]);
        assert(ls@[k]@ == line_views(ls@)[k]);
        lemma_project_line(g, n as int, axis_of(dir), k);
        lemma_merge_toward_len(proj[k], is_rev(dir));
    }
    lines_to_vec(&merged, n, dir)
}

/// The four predicted grids of grid `cells` of side `n`, each line merged
/// toward the direction's origin; each axis is split into lines once.
pub fn predict_merge(cells: &Vec<u8>, n: usize) -> (r: Predictions)
    requires
        grid_ok(cells@, n as int),
    ensures
        r.predicts(cells@, n as int),
{
    let len: usize = cells.len();
    assert(n * n == len);
    let vertical = lines(cells, n, Axis::Vertical);
    let horizontal = lines(cells, n, Axis::Horizontal);
    let up = predict_one(&vertical, n, Direction::Up, Ghost(cells@));
    let down = predict_one(&vertical, n, Direction::Down, Ghost(cells@));
    let left = predict_one(&horizontal, n, Direction::Left, Ghost(cells@));
    let right = predict_one(&horizontal, n, Direction::Right, Ghost(cells@));
    Predictions { up, down, left, right }
}

/// Whether two grids hold the same ranks.
pub fn same_cells(a: &Vec<u8>, b: &Vec<u8>) -> (r: bool)
    ensures
        r == (a@ == b@),
{
    if a.len() != b.len() {
        return false;
    }
    let mut i: usize = 0;
    while i < a.len()
        invariant
            a@.len() == b@.len(),
            i <= a@.len(),
            forall|j: int| 0 <= j < i ==> a@[j] == b@[j],
        decreases a@.len() - i,
    {
        if a[i] != b[i] {
            return false;
        }
        i = i + 1;
    }
    assert(a@ =~= b@);
    true
}

/// Whether all four predicted grids are identical, so that no move changes
/// the grid.
pub fn check_if_game_over(p: &Predictions) -> (r: bool)
    ensures
        r == (p.up@ == p.down@ && p.up@ == p.left@ && p.up@ == p.right@),
{
    same_cells(&p.up, &p.down) && same_cells(&p.up, &p.left) && same_cells(&p.up, &p.right)
}

/// The indices of the empty cells, ascending.
pub fn empty_cells(cells: &Vec<u8>) -> (r: Vec<usize>)
    ensures
        r@.len() == empty_positions(cells@).len(),
        forall|j: int| 0 <= j < r@.len() ==> r@[j] as int == empty_positions(cells@)[j],
{
    let mut out: Vec<usize> = Vec::new();
    let mut i: usize = 0;
    assert(cells@.take(0) =~= Seq::<u8>::empty());
    while i < cells.len()
        invariant
            i <= cells@.len(),
            out@.len() == empty_positions(cells@.take(i as int)).len(),
            forall|j: int|
                0 <= j < out@.len() ==> out@[j] as int == empty_positions(cells@.take(i as int))[j],
        decreases cells@.len() - i,
    {
        assert(cells@.take(i + 1).drop_last() =~= cells@.take(i as int));
        if cells[i] == 0 {
            out.push(i);
        }
        i = i + 1;
    }
    assert(cells@.take(cells@.len() as int) =~= cells@);
    out
}

} // verus!
