use vstd::prelude::*;
use rand::rngs::ThreadRng;
use crate::direction::Direction;
use crate::line::ranks_fit;
use crate::board::{
    Predictions, grid_ok, predict, terminal, empty_positions, lemma_empty_positions,
    lemma_fill_empty, predict_merge, check_if_game_over, empty_cells, same_cells,
};
use crate::random::draw_below;

verus! {

/// The rank of the winning tile, 2048.
pub const WIN_RANK: u8 = 11;

/// One spawn in `ODDS` is a rank-2 tile; the others are rank 1.
pub const ODDS: usize = 64;

/// What a game holds, as mathematical values.
pub struct GameState {
    pub size: nat,
    pub cells: Seq<u8>,
    pub over: bool,
}

/// Whether `after` is `before` with one or two empty cells given a new tile
/// of rank 1 or 2: two exactly when `before` had two empty cells and the
/// side `n` is above one, else one.
pub open spec fn spawned(before: Seq<u8>, after: Seq<u8>, n: int) -> bool {
    let filled: int = if empty_positions(before).len() == 2 && n > 1 {
        2
    } else {
        1
    };
    &&& after.len() == before.len()
    &&& forall|i: int|
        0 <= i < before.len() && after[i] != before[i] ==> before[i] == 0 && (after[i] == 1
            || after[i] == 2)
    &&& empty_positions(after).len() + filled == empty_positions(before).len()
}

/// The game: a square grid of ranks, the cached prediction of every move,
/// and the terminal flag derived from them.
pub struct Game {
    size: usize,
    cells: Vec<u8>,
    rng: ThreadRng,
    game_over: bool,
    merge_prediction: Predictions,
    movement_prediction: Vec<u8>,
}

impl View for Game {
    type V = GameState;

    closed spec fn view(&self) -> GameState {
        GameState { size: self.size as nat, cells: self.cells@, over: self.game_over }
    }
}

impl Game {
    /// The grid has `size * size` cells with mergeable ranks, the cached
    /// predictions are those of the grid, and the flag is derived from them.
    pub closed spec fn wf(&self) -> bool {
        &&& grid_ok(self.cells@, self.size as int)
        &&& self.merge_prediction.predicts(self.cells@, self.size as int)
        &&& self.game_over == terminal(self.cells@, self.size as int)
        &&& self.movement_prediction@.len() == 0
    }

    /// A game of side `s` with every cell empty.
    pub fn new(s: usize) -> (r: Game)
        requires
            s >= 1,
            s * s <= usize::MAX,
        ensures
            r.wf(),
            r@.size == s,
            r@.cells == Seq::new((s * s) as nat, |i: int| 0u8),
            r@.over == terminal(r@.cells, s as int),
    {
        let size: usize = s;
        let cells: Vec<u8> = vec![0; size * size];
        let rng: ThreadRng = rand::thread_rng();
        assert(cells@ =~= Seq::new((s * s) as nat, |i: int| 0u8));
        let merge_prediction = predict_merge(&cells, size);
        let game_over: bool = check_if_game_over(&merge_prediction);
        let movement_prediction: Vec<u8> = Vec::new();
        Game { size, cells, rng, game_over, merge_prediction, movement_prediction }
    }

    /// The cells, column-major: row `row`, column `col` at `row + col * size`.
    pub fn cells(&self) -> (r: &Vec<u8>)
        ensures
            r@ == self@.cells,
    {
        &self.cells
    }

    /// Whether some cell holds the winning rank.
    pub fn is_game_win(&self) -> (r: bool)
        ensures
            r == exists|i: int| 0 <= i < self@.cells.len() && self@.cells[i] == WIN_RANK,
    {
        let mut i: usize = 0;
        while i < self.cells.len()
            invariant
                i <= self.cells@.len(),
                forall|j: int| 0 <= j < i ==> self.cells@[j] != WIN_RANK,
            decreases self.cells@.len() - i,
        {
            if self.cells[i] == WIN_RANK {
                assert(self@.cells[i as int] == WIN_RANK);
                return true;
            }
            i = i + 1;
        }
        false
    }

    /// Whether no move can change the grid.
    pub fn is_game_over(&self) -> (r: bool)
        ensures
            r == self@.over,
    {
        self.game_over
    }

    fn refresh(&mut self)
        requires
            grid_ok(old(self).cells@, old(self).size as int),
            old(self).movement_prediction@.len() == 0,
        ensures
            final(self).wf(),
            final(self)@.size == old(self)@.size,
            final(self)@.cells == old(self)@.cells,
    {
        self.merge_prediction = predict_merge(&self.cells, self.size);
        self.game_over = check_if_game_over(&self.merge_prediction);
    }

    /// Puts a tile on the `pick`-th empty cell in ascending index order:
    /// rank 2 when `big`, else rank 1.
    pub fn place_tile(&mut self, pick: usize, big: bool)
        requires
            old(self).wf(),
            pick < empty_positions(old(self)@.cells).len(),
        ensures
            final(self).wf(),
            final(self)@.size == old(self)@.size,
            old(self)@.cells[empty_positions(old(self)@.cells)[pick as int]] == 0,
            final(self)@.cells == old(self)@.cells.update(
                empty_positions(old(self)@.cells)[pick as int],
                if big { 2u8 } else { 1u8 },
            ),
            empty_positions(final(self)@.cells).len() + 1 == empty_positions(old(self)@.cells).len(),
            final(self)@.over == terminal(final(self)@.cells, final(self)@.size as int),
    {
        proof {
            lemma_empty_positions(self.cells@);
        }
        let empty = empty_cells(&self.cells);
        let idx: usize = empty[pick];
        let rank: u8 = if big { 2 } else { 1 };
        proof {
            lemma_fill_empty(self.cells@, idx as int, rank);
        }
        self.cells.set(idx, rank);
        self.refresh();
    }

    /// Puts a random tile on a random empty cell, and a second one when a
    /// single empty cell is left on a grid of side above one.
    pub fn generate(&mut self)
        requires
            old(self).wf(),
            empty_positions(old(self)@.cells).len() > 0,
        ensures
            final(self).wf(),
            final(self)@.size == old(self)@.size,
            spawned(old(self)@.cells, final(self)@.cells, old(self)@.size as int),
            final(self)@.over == terminal(final(self)@.cells, final(self)@.size as int),
    {
        let ghost before = self.cells@;
        proof {
            lemma_empty_positions(before);
        }
        let n_empty: usize = self.empty_cells_qty();
        let pick = draw_below(&mut self.rng, n_empty);
        let big = draw_below(&mut self.rng, ODDS) == 0;
        self.place_tile(pick, big);
        if self.empty_cells_qty() == 1 && self.size > 1 {
            let ghost middle = self.cells@;
            proof {
                lemma_empty_positions(middle);
            }
            let big = draw_below(&mut self.rng, ODDS) == 0;
            self.place_tile(0, big);
        }
    }

    /// Slides and merges toward `dir` when that changes the grid, then, when
    /// `gen`, spawns a tile as `generate` does; a no-op on a finished game.
    pub fn move_cells(&mut self, dir: Direction, gen: bool)
        requires
            old(self).wf(),
            !old(self)@.over ==> ranks_fit(predict(old(self)@.cells, old(self)@.size as int, dir)),
        ensures
            final(self).wf(),
            final(self)@.size == old(self)@.size,
            ({
                let n = old(self)@.size as int;
                let next = predict(old(self)@.cells, n, dir);
                if old(self)@.over || next == old(self)@.cells {
                    final(self)@ == old(self)@
                } else if gen && empty_positions(next).len() > 0 {
                    spawned(next, final(self)@.cells, n)
                } else {
                    final(self)@.cells == next
                }
            }),
            final(self)@.over == terminal(final(self)@.cells, final(self)@.size as int),
    {
        if self.game_over {
            return;
        }
        let next: Vec<u8> = self.merge_prediction.get(dir).clone();
        assert(next@ == predict(self.cells@, self.size as int, dir));
        if !same_cells(&self.cells, &next) {
            self.cells = next;
            self.refresh();
            if gen && self.empty_cells_qty() > 0 {
                self.generate();
            }
        }
    }

    pub fn size(&self) -> (r: usize)
        ensures
            r == self@.size,
    {
        self.size
    }

    /// A copy of the cells.
    pub fn vec_cells(&self) -> (r: Vec<u8>)
        ensures
            r@ == self@.cells,
    {
        let r = self.cells.clone();
        assert(r@ == self@.cells);
        r
    }

    /// Replaces every cell, then recomputes the predictions and the flag.
    pub fn set_cells(&mut self, cells: &Vec<u8>)
        requires
            old(self).wf(),
            cells@.len() == old(self)@.cells.len(),
            ranks_fit(cells@),
        ensures
            final(self).wf(),
            final(self)@.size == old(self)@.size,
            final(self)@.cells == cells@,
            final(self)@.over == terminal(cells@, old(self)@.size as int),
    {
        self.cells = cells.clone();
        assert(self.cells@ == cells@);
        self.refresh();
    }

    /// The predicted grid of every direction.
    pub fn merge_prediction(&self) -> (r: &Predictions)
        requires
            self.wf(),
        ensures
            r.predicts(self@.cells, self@.size as int),
    {
        &self.merge_prediction
    }

    /// Kept empty: moves are resolved through `merge_prediction`.
    pub fn movement_prediction(&self) -> (r: &Vec<u8>)
        requires
            self.wf(),
        ensures
            r@.len() == 0,
    {
        &self.movement_prediction
    }

    /// The number of empty cells.
    pub fn empty_cells_qty(&self) -> (r: usize)
        ensures
            r == empty_positions(self@.cells).len(),
    {
        let e = empty_cells(&self.cells);
        e.len()
    }
}

} // verus!
