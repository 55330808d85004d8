use vstd::prelude::*;
use vstd::arithmetic::div_mod::{
    lemma_fundamental_div_mod_converse_div, lemma_fundamental_div_mod_converse_mod,
};
use crate::direction::{Axis, Direction, axis_of, is_rev};
use crate::line::{ranks_fit, merge_front, merge_toward, lemma_merge_toward_len};
use crate::board::{
    cell_index, line_key, line_pos, full_line, occupied, project, place, reconstruct, merge_all,
    predict, terminal, grid_ok, lemma_coords, lemma_index_in_range, lemma_occupied,
};

verus! {

/// No two neighbouring tiles of `s` have the same rank.
pub open spec fn no_equal_neighbours(s: Seq<u8>) -> bool {
    forall|j: int| 0 <= j < s.len() - 1 ==> #[trigger] s[j] != s[j + 1]
}

/// Every line of `g` along the axis of `d` has its tiles packed toward the
/// origin of `d` and no two equal neighbours: a move in `d` has nothing to do.
pub open spec fn settled(g: Seq<u8>, n: int, d: Direction) -> bool {
    forall|k: int|
        0 <= k < n ==> {
            &&& place(occupied(full_line(g, n, axis_of(d), k)), n, is_rev(d))
                == #[trigger] full_line(g, n, axis_of(d), k)
            &&& no_equal_neighbours(occupied(full_line(g, n, axis_of(d), k)))
        }
}

/// Cell `p` of line `k` is found again at line `k`, position `p`.
pub proof fn lemma_index_coords(axis: Axis, n: int, k: int, p: int)
    requires
        0 <= k < n,
        0 <= p < n,
    ensures
        line_key(axis, n, cell_index(axis, n, k, p)) == k,
        line_pos(axis, n, cell_index(axis, n, k, p)) == p,
        0 <= cell_index(axis, n, k, p) < n * n,
{
    lemma_index_in_range(n, k, p);
    match axis {
        Axis::Vertical => {
            assert(k + p * n == p * n + k);
            lemma_fundamental_div_mod_converse_div(k + p * n, n, p, k);
            lemma_fundamental_div_mod_converse_mod(k + p * n, n, p, k);
        },
        Axis::Horizontal => {
            assert(p + k * n == k * n + p);
            lemma_fundamental_div_mod_converse_div(p + k * n, n, k, p);
            lemma_fundamental_div_mod_converse_mod(p + k * n, n, k, p);
        },
    }
}

/// Merging a line with no equal neighbours leaves it as it is.
pub proof fn lemma_merge_front_no_pairs(s: Seq<u8>)
    requires
        no_equal_neighbours(s),
    ensures
        merge_front(s) == s,
    decreases s.len(),
{
    if s.len() >= 2 {
        let rest = s.subrange(1, s.len() as int);
        assert(no_equal_neighbours(rest)) by {
            assert forall|j: int| 0 <= j < rest.len() - 1 implies #[trigger] rest[j] != rest[j + 1] by {
                assert(s[j + 1] != s[j + 2]);
            }
        }
        lemma_merge_front_no_pairs(rest);
        assert(seq![s[0]] + rest =~= s);
    }
}

pub proof fn lemma_merge_toward_no_pairs(s: Seq<u8>, rev: bool)
    requires
        no_equal_neighbours(s),
    ensures
        merge_toward(s, rev) == s,
{
    let r = s.reverse();
    assert(no_equal_neighbours(r)) by {
        assert forall|j: int| 0 <= j < r.len() - 1 implies #[trigger] r[j] != r[j + 1] by {
            assert(s[s.len() - 2 - j] != s[s.len() - 1 - j]);
        }
    }
    lemma_merge_front_no_pairs(s);
    lemma_merge_front_no_pairs(r);
    assert(r.reverse() =~= s);
}

/// Projecting a grid whose lines along the axis of `d` are packed toward the
/// origin of `d`, and laying the lines back, gives the grid back.
pub proof fn lemma_packed_round_trip(g: Seq<u8>, n: int, d: Direction)
    requires
        n >= 1,
        g.len() == n * n,
        forall|k: int|
            0 <= k < n ==> place(occupied(full_line(g, n, axis_of(d), k)), n, is_rev(d))
                == #[trigger] full_line(g, n, axis_of(d), k),
    ensures
        reconstruct(project(g, n, axis_of(d)), n, d) == g,
{
    let axis = axis_of(d);
    let r = reconstruct(project(g, n, axis), n, d);
    assert forall|i: int| 0 <= i < n * n implies r[i] == g[i] by {
        lemma_coords(n, i);
        let k = line_key(axis, n, i);
        let p = line_pos(axis, n, i);
        assert(full_line(g, n, axis, k)[p] == g[cell_index(axis, n, k, p)]);
        assert(cell_index(axis, n, k, p) == i);
    }
    assert(r =~= g);
}

/// A grid settled in direction `d` is what a move in `d` produces from it.
pub proof fn lemma_settled_is_fixed(g: Seq<u8>, n: int, d: Direction)
    requires
        n >= 1,
        g.len() == n * n,
        settled(g, n, d),
    ensures
        predict(g, n, d) == g,
{
    let proj = project(g, n, axis_of(d));
    assert forall|k: int| 0 <= k < n implies merge_all(proj, is_rev(d))[k] == proj[k] by {
        assert(place(occupied(full_line(g, n, axis_of(d), k)), n, is_rev(d)) == full_line(
            g,
            n,
            axis_of(d),
            k,
        ));
        lemma_merge_toward_no_pairs(proj[k], is_rev(d));
    }
    assert(merge_all(proj, is_rev(d)) =~= proj);
    lemma_packed_round_trip(g, n, d);
}

proof fn lemma_occupied_concat(a: Seq<u8>, b: Seq<u8>)
    ensures
        occupied(a + b) == occupied(a) + occupied(b),
    decreases b.len(),
{
    if b.len() == 0 {
        assert(a + b =~= a);
        assert(occupied(a) + occupied(b) =~= occupied(a));
    } else {
        assert((a + b).drop_last() =~= a + b.drop_last());
        lemma_occupied_concat(a, b.drop_last());
        if b.last() != 0 {
            assert(occupied(a) + occupied(b.drop_last()).push(b.last()) =~= (occupied(a)
                + occupied(b.drop_last())).push(b.last()));
        }
    }
}

proof fn lemma_occupied_all(s: Seq<u8>)
    ensures
        (forall|j: int| 0 <= j < s.len() ==> s[j] != 0) ==> occupied(s) == s,
        (forall|j: int| 0 <= j < s.len() ==> s[j] == 0) ==> occupied(s) == Seq::<u8>::empty(),
    decreases s.len(),
{
    if s.len() > 0 {
        lemma_occupied_all(s.drop_last());
        assert(s.drop_last().push(s.last()) =~= s);
    }
}

/// Each line of a predicted grid has its tiles packed toward the origin of
/// the move: no tile can slide further.
pub proof fn lemma_prediction_packed(g: Seq<u8>, n: int, d: Direction, k: int)
    requires
        grid_ok(g, n),
        0 <= k < n,
    ensures
        place(occupied(full_line(predict(g, n, d), n, axis_of(d), k)), n, is_rev(d))
            == full_line(predict(g, n, d), n, axis_of(d), k),
{
    let axis = axis_of(d);
    let rev = is_rev(d);
    let fl = full_line(g, n, axis, k);
    assert forall|p: int| 0 <= p < n implies fl[p] < 255 by {
        lemma_index_in_range(n, k, p);
    }
    lemma_occupied(fl);
    assert(project(g, n, axis)[k] == occupied(fl));
    let m = merge_toward(occupied(fl), rev);
    lemma_merge_toward_len(occupied(fl), rev);
    lemma_merge_front_nonzero(occupied(fl));
    lemma_merge_front_nonzero(occupied(fl).reverse());
    assert forall|j: int| 0 <= j < m.len() implies m[j] != 0 by {
        if rev {
            assert(m[j] == merge_front(occupied(fl).reverse())[m.len() - 1 - j]);
        }
    }
    assert(merge_all(project(g, n, axis), rev)[k] == m);
    let out = full_line(predict(g, n, d), n, axis, k);
    assert forall|p: int| 0 <= p < n implies out[p] == place(m, n, rev)[p] by {
        lemma_index_coords(axis, n, k, p);
    }
    assert(out =~= place(m, n, rev));
    let pad = Seq::new((n - m.len()) as nat, |j: int| 0u8);
    lemma_occupied_all(pad);
    lemma_occupied_all(m);
    lemma_occupied_concat(pad, m);
    lemma_occupied_concat(m, pad);
    assert(m + Seq::<u8>::empty() =~= m);
    assert(Seq::<u8>::empty() + m =~= m);
}

/// Repeating a move gives the same grid once nothing is left to merge: when
/// no line of the predicted grid along the move's axis has two equal
/// neighbouring tiles, moving it again in the same direction changes nothing.
pub proof fn lemma_prediction_idempotent(g: Seq<u8>, n: int, d: Direction)
    requires
        grid_ok(g, n),
        forall|k: int|
            0 <= k < n ==> no_equal_neighbours(
                occupied(#[trigger] full_line(predict(g, n, d), n, axis_of(d), k)),
            ),
    ensures
        predict(predict(g, n, d), n, d) == predict(g, n, d),
{
    let h = predict(g, n, d);
    assert forall|k: int| 0 <= k < n implies place(occupied(full_line(h, n, axis_of(d), k)), n, is_rev(d))
        == #[trigger] full_line(h, n, axis_of(d), k) by {
        lemma_prediction_packed(g, n, d, k);
    }
    lemma_settled_is_fixed(h, n, d);
}

/// A grid that no move changes is terminal.
pub proof fn lemma_unmovable_is_terminal(g: Seq<u8>, n: int)
    requires
        predict(g, n, Direction::Up) == g,
        predict(g, n, Direction::Down) == g,
        predict(g, n, Direction::Left) == g,
        predict(g, n, Direction::Right) == g,
    ensures
        terminal(g, n),
{
}

proof fn lemma_occupied_shorter(s: Seq<u8>, j: int)
    requires
        0 <= j < s.len(),
        s[j] == 0,
    ensures
        occupied(s).len() < s.len(),
    decreases s.len(),
{
    lemma_occupied(s.drop_last());
    if j < s.len() - 1 {
        lemma_occupied_shorter(s.drop_last(), j);
    }
}

proof fn lemma_occupied_nonempty(s: Seq<u8>, j: int)
    requires
        0 <= j < s.len(),
        s[j] != 0,
    ensures
        occupied(s).len() > 0,
    decreases s.len(),
{
    if j < s.len() - 1 {
        lemma_occupied_nonempty(s.drop_last(), j);
    }
}

proof fn lemma_merge_front_nonzero(s: Seq<u8>)
    requires
        ranks_fit(s),
        forall|j: int| 0 <= j < s.len() ==> s[j] != 0,
    ensures
        forall|j: int| 0 <= j < merge_front(s).len() ==> merge_front(s)[j] != 0,
    decreases s.len(),
{
    if s.len() >= 2 {
        let skip: int = if s[0] == s[1] {
            2
        } else {
            1
        };
        let rest = s.subrange(skip, s.len() as int);
        lemma_merge_front_nonzero(rest);
        let m = merge_front(s);
        assert forall|j: int| 0 <= j < m.len() implies m[j] != 0 by {
            if j > 0 {
                assert(m[j] == merge_front(rest)[j - 1]);
            }
        }
    }
}

/// A line holding both a tile and an empty cell reads differently at its
/// near end after a move toward the near end and after one toward the far end.
proof fn lemma_line_differs(
    g: Seq<u8>,
    n: int,
    near: Direction,
    far: Direction,
    k: int,
    pe: int,
    pt: int,
)
    requires
        grid_ok(g, n),
        axis_of(near) == axis_of(far),
        !is_rev(near),
        is_rev(far),
        0 <= k < n,
        0 <= pe < n,
        0 <= pt < n,
        g[cell_index(axis_of(near), n, k, pe)] == 0,
        g[cell_index(axis_of(near), n, k, pt)] != 0,
    ensures
        predict(g, n, near) != predict(g, n, far),
{
    let axis = axis_of(near);
    let fl = full_line(g, n, axis, k);
    let occ = occupied(fl);
    lemma_index_in_range(n, k, pe);
    lemma_index_in_range(n, k, pt);
    lemma_occupied_shorter(fl, pe);
    lemma_occupied_nonempty(fl, pt);
    assert forall|p: int| 0 <= p < n implies fl[p] < 255 by {
        lemma_index_in_range(n, k, p);
    }
    lemma_occupied(fl);
    assert(project(g, n, axis)[k] == occ);
    let m1 = merge_toward(occ, false);
    let m2 = merge_toward(occ, true);
    lemma_merge_toward_len(occ, false);
    lemma_merge_toward_len(occ, true);
    lemma_merge_front_nonzero(occ);
    assert(m1[0] != 0);
    let i = cell_index(axis, n, k, 0);
    lemma_index_coords(axis, n, k, 0);
    assert(merge_all(project(g, n, axis), false)[k] == m1);
    assert(merge_all(project(g, n, axis), true)[k] == m2);
    assert(predict(g, n, near)[i] == place(m1, n, false)[0]);
    assert(predict(g, n, far)[i] == place(m2, n, true)[0]);
    assert(place(m2, n, true)[0] == 0);
}

/// A grid with a tile and an empty cell is not terminal: some move changes it.
pub proof fn lemma_open_grid_not_terminal(g: Seq<u8>, n: int, t: int, e: int)
    requires
        grid_ok(g, n),
        0 <= t < n * n,
        0 <= e < n * n,
        g[t] != 0,
        g[e] == 0,
    ensures
        !terminal(g, n),
{
    lemma_coords(n, t);
    lemma_coords(n, e);
    let rt = t % n;
    let ct = t / n;
    let re = e % n;
    let ce = e / n;
    assert(cell_index(Axis::Vertical, n, rt, ct) == t);
    if exists|p: int| 0 <= p < n && g[cell_index(Axis::Vertical, n, rt, p)] == 0 {
        let p = choose|p: int| 0 <= p < n && g[cell_index(Axis::Vertical, n, rt, p)] == 0;
        lemma_line_differs(g, n, Direction::Up, Direction::Down, rt, p, ct);
    } else {
        assert(cell_index(Axis::Horizontal, n, ce, re) == e);
        assert(cell_index(Axis::Horizontal, n, ce, rt) == cell_index(Axis::Vertical, n, rt, ce));
        assert(g[cell_index(Axis::Vertical, n, rt, ce)] != 0);
        lemma_line_differs(g, n, Direction::Left, Direction::Right, ce, re, rt);
    }
}

} // verus!
