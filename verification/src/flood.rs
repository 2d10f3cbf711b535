//! Opening a region: which cells one reveal shows, and the traversal that
//! shows them.
//!
//! Revealing a hidden cell shows it. Where the cell has no mine next to it,
//! its hidden neighbours are shown as well, and so on from each of them. The
//! region is stated here by the paths that lead through it, with no
//! reference to the order in which a traversal visits the cells.

use vstd::prelude::*;
use crate::board::{Board, BoardView};
use crate::cell::Cell;
use crate::geometry::Position;

verus! {

impl BoardView {
    /// The position lies on the board and the player does not see it.
    pub open spec fn is_hidden(self, p: Position) -> bool {
        self.contains(p) && !self.cells[p].is_revealed
    }

    /// Opening the cell at `p` opens its neighbours too: it is hidden and has
    /// no mine next to it.
    pub open spec fn spreads(self, p: Position) -> bool {
        self.is_hidden(p) && self.cells[p].adjacent_mines == 0
    }

    /// A path along which a reveal travels: hidden cells, each next to the
    /// one before it, and each but the last with no mine next to it.
    pub open spec fn is_flood_path(self, path: Seq<Position>) -> bool {
        &&& path.len() > 0
        &&& forall|i: int| 0 <= i < path.len() ==> self.is_hidden(#[trigger] path[i])
        &&& forall|i: int|
            0 <= i < path.len() - 1 ==> self.spreads(#[trigger] path[i]) && path[i].adjacent(
                path[i + 1],
            )
    }

    /// A reveal at `start` reaches `p`.
    pub open spec fn floods_to(self, start: Position, p: Position) -> bool {
        exists|path: Seq<Position>|
            self.is_flood_path(path) && path.first() == start && #[trigger] path.last() == p
    }

    /// The cells that a reveal at `start` shows.
    pub open spec fn flood_region(self, start: Position) -> Set<Position> {
        Set::new(|p: Position| self.floods_to(start, p))
    }

    /// This board after a reveal at `start` has shown its region.
    pub open spec fn flooded(self, start: Position) -> BoardView {
        BoardView {
            cells: Map::new(
                |p: Position| self.contains(p),
                |p: Position|
                    if self.flood_region(start).contains(p) {
                        self.cells[p].opened()
                    } else {
                        self.cells[p]
                    },
            ),
            ..self
        }
    }

    /// Nothing is left to open from `opened`, but for what is still
    /// `pending`: every hidden neighbour of a member that spreads and is not
    /// pending is a member too.
    pub open spec fn flood_closed_but(self, opened: Set<Position>, pending: Seq<Position>) -> bool {
        forall|p: Position, q: Position|
            #![trigger opened.contains(p), p.adjacent(q)]
            opened.contains(p) && !pending.contains(p) && self.spreads(p) && self.is_hidden(q)
                && p.adjacent(q) ==> opened.contains(q)
    }

    /// Nothing is left to open from `opened`.
    pub open spec fn flood_closed(self, opened: Set<Position>) -> bool {
        self.flood_closed_but(opened, Seq::empty())
    }
}

/// A reveal reaches the cell it starts at, if that cell is hidden.
pub proof fn lemma_flood_reaches_start(v: BoardView, start: Position)
    requires
        v.is_hidden(start),
    ensures
        v.floods_to(start, start),
{
    let path = seq![start];
    assert(v.is_flood_path(path));
    assert(path.first() == start && path.last() == start);
}

/// A reveal that reaches a cell with no mine next to it reaches that cell's
/// hidden neighbours.
pub proof fn lemma_flood_extends(v: BoardView, start: Position, p: Position, q: Position)
    requires
        v.floods_to(start, p),
        v.spreads(p),
        v.is_hidden(q),
        p.adjacent(q),
    ensures
        v.floods_to(start, q),
{
    let path = choose|path: Seq<Position>|
        v.is_flood_path(path) && path.first() == start && #[trigger] path.last() == p;
    let longer = path.push(q);
    assert forall|i: int| 0 <= i < longer.len() implies v.is_hidden(#[trigger] longer[i]) by {
        if i < path.len() {
            assert(longer[i] == path[i]);
        }
    }
    assert forall|i: int| 0 <= i < longer.len() - 1 implies v.spreads(#[trigger] longer[i])
        && longer[i].adjacent(longer[i + 1]) by {
        assert(longer[i] == path[i]);
        if i < path.len() - 1 {
            assert(longer[i + 1] == path[i + 1]);
        }
    }
    assert(v.is_flood_path(longer));
    assert(longer.first() == start && longer.last() == q);
}

/// A closed set that holds the first cell of a path holds its last.
proof fn lemma_path_stays_inside(v: BoardView, opened: Set<Position>, path: Seq<Position>)
    requires
        v.is_flood_path(path),
        v.flood_closed(opened),
        opened.contains(path.first()),
    ensures
        opened.contains(path.last()),
    decreases path.len(),
{
    if path.len() > 1 {
        let shorter = path.drop_last();
        assert forall|i: int| 0 <= i < shorter.len() implies v.is_hidden(#[trigger] shorter[i]) by {
            assert(shorter[i] == path[i]);
        }
        assert forall|i: int| 0 <= i < shorter.len() - 1 implies v.spreads(#[trigger] shorter[i])
            && shorter[i].adjacent(shorter[i + 1]) by {
            assert(shorter[i] == path[i]);
            assert(shorter[i + 1] == path[i + 1]);
        }
        lemma_path_stays_inside(v, opened, shorter);
        let p = path[path.len() - 2];
        let q = path[path.len() - 1];
        assert(shorter.last() == p);
        assert(v.spreads(p) && p.adjacent(q));
        assert(v.is_hidden(q));
        assert(!Seq::<Position>::empty().contains(p));
        assert(opened.contains(p) && p.adjacent(q));
    }
}

/// The region of a reveal is closed: nothing is left to open from it.
pub proof fn lemma_flood_region_closed(v: BoardView, start: Position)
    ensures
        v.flood_closed(v.flood_region(start)),
{
    let region = v.flood_region(start);
    assert forall|p: Position, q: Position|
        #![trigger region.contains(p), p.adjacent(q)]
        region.contains(p) && v.spreads(p) && v.is_hidden(q) && p.adjacent(q) implies region.contains(
        q,
    ) by {
        lemma_flood_extends(v, start, p, q);
    }
}

/// The region of a reveal lies within every closed set that holds the
/// starting cell.
pub proof fn lemma_flood_region_least(v: BoardView, start: Position, opened: Set<Position>)
    requires
        v.flood_closed(opened),
        opened.contains(start),
    ensures
        v.flood_region(start).subset_of(opened),
{
    assert forall|p: Position| v.flood_region(start).contains(p) implies opened.contains(p) by {
        let path = choose|path: Seq<Position>|
            v.is_flood_path(path) && path.first() == start && #[trigger] path.last() == p;
        lemma_path_stays_inside(v, opened, path);
    }
}

/// The cells that a reveal shows do not depend on the order in which the
/// cells are visited.
///
/// Take any way of opening cells from `start` that opens only cells the
/// reveal reaches and goes on until nothing is left to open. The set
/// `opened` that it ends with is the region of the reveal, so any two such
/// ways end with the same set.
pub proof fn lemma_flood_order_independent(v: BoardView, start: Position, opened: Set<Position>)
    requires
        opened.contains(start),
        forall|p: Position| opened.contains(p) ==> v.floods_to(start, p),
        v.flood_closed(opened),
    ensures
        opened == v.flood_region(start),
{
    lemma_flood_region_least(v, start, opened);
    assert(opened =~= v.flood_region(start));
}

/// A reveal shows nothing but its starting cell when that cell has a mine
/// next to it.
pub proof fn lemma_flood_stops_at_numbers(v: BoardView, start: Position)
    requires
        v.is_hidden(start),
        v.cells[start].adjacent_mines != 0,
    ensures
        v.flood_region(start) == set![start],
{
    let only = set![start];
    lemma_flood_reaches_start(v, start);
    assert(v.flood_closed(only));
    assert forall|p: Position| only.contains(p) implies v.floods_to(start, p) by {}
    lemma_flood_order_independent(v, start, only);
}

/// The number of hidden cells among `cells`.
pub open spec fn count_hidden(cells: Seq<Cell>) -> nat
    decreases cells.len(),
{
    if cells.len() == 0 {
        0
    } else {
        count_hidden(cells.drop_last()) + (if cells.last().is_revealed {
            0nat
        } else {
            1nat
        })
    }
}

/// Showing one hidden cell leaves one hidden cell fewer.
proof fn lemma_count_hidden_drops(cells: Seq<Cell>, at: int, shown: Cell)
    requires
        0 <= at < cells.len(),
        !cells[at].is_revealed,
        shown.is_revealed,
    ensures
        count_hidden(cells.update(at, shown)) + 1 == count_hidden(cells),
    decreases cells.len(),
{
    let after = cells.update(at, shown);
    if at == cells.len() - 1 {
        assert(after.drop_last() =~= cells.drop_last());
    } else {
        assert(after.drop_last() =~= cells.drop_last().update(at, shown));
        lemma_count_hidden_drops(cells.drop_last(), at, shown);
    }
}

impl Board {
    /// Shows the hidden cell at `p`.
    pub(crate) fn open_cell(&mut self, p: Position)
        requires
            old(self).shaped(),
            old(self)@.is_hidden(p),
        ensures
            final(self).shaped(),
            final(self)@ == old(self)@.with_cell(p, old(self)@.cells[p].opened()),
            count_hidden(final(self).cells@) + 1 == count_hidden(old(self).cells@),
    {
        let at = self.offset(p);
        let mut cell = self.cells[at];
        cell.is_revealed = true;
        self.cells[at] = cell;
        proof {
            old(self).lemma_store(*self, p, cell);
            lemma_count_hidden_drops(old(self).cells@, at as int, cell);
        }
    }

    /// Shows the region of a reveal at the hidden cell `start`.
    ///
    /// The cells still to be looked at are kept on a stack, and each cell is
    /// shown as it is put there, so that none is put there twice.
    pub(crate) fn flood_reveal(&mut self, start: Position)
        requires
            old(self).shaped(),
            old(self)@.is_hidden(start),
        ensures
            final(self).shaped(),
            final(self)@ == old(self)@.flooded(start),
    {
        let ghost before = self@;
        let ghost mut opened: Set<Position> = set![start];
        proof {
            self.lemma_view();
            lemma_flood_reaches_start(before, start);
        }
        self.open_cell(start);
        let mut stack: Vec<Position> = Vec::new();
        stack.push(start);
        proof {
            assert(stack@[0] == start);
            assert(stack@.contains(start));
        }
        while stack.len() > 0
            invariant
                self.shaped(),
                before.valid_shape(),
                before.cells.dom() == before.positions(),
                self@.width == before.width,
                self@.height == before.height,
                self@.mine_count == before.mine_count,
                self@.mines_placed == before.mines_placed,
                self@.status == before.status,
                opened.contains(start),
                forall|p: Position|
                    opened.contains(p) ==> before.is_hidden(p) && before.floods_to(start, p),
                forall|p: Position| #[trigger]
                    before.contains(p) ==> self@.cells[p] == (if opened.contains(p) {
                        before.cells[p].opened()
                    } else {
                        before.cells[p]
                    }),
                forall|i: int| 0 <= i < stack@.len() ==> opened.contains(#[trigger] stack@[i]),
                before.flood_closed_but(opened, stack@),
            decreases count_hidden(self.cells@), stack@.len(),
        {
            let ghost full = stack@;
            let cur = stack.pop().unwrap();
            proof {
                self.lemma_view();
                assert(full =~= stack@.push(cur));
                assert(full[full.len() - 1] == cur);
                assert(opened.contains(cur));
                assert(before.contains(cur));
            }
            let ghost hidden_then = count_hidden(self.cells@);
            let ghost depth_then = stack@.len();
            let at = self.offset(cur);
            if self.cells[at].adjacent_mines == 0 {
                let near = self.neighbors_of(cur);
                let mut k: usize = 0;
                while k < near.len()
                    invariant
                        self.shaped(),
                        before.valid_shape(),
                        before.cells.dom() == before.positions(),
                        self@.width == before.width,
                        self@.height == before.height,
                        self@.mine_count == before.mine_count,
                        self@.mines_placed == before.mines_placed,
                        self@.status == before.status,
                        k <= near.len(),
                        near@.to_set() == before.neighbors(cur),
                        before.spreads(cur),
                        opened.contains(cur),
                        opened.contains(start),
                        forall|p: Position|
                            opened.contains(p) ==> before.is_hidden(p) && before.floods_to(start, p),
                        forall|p: Position| #[trigger]
                            before.contains(p) ==> self@.cells[p] == (if opened.contains(p) {
                                before.cells[p].opened()
                            } else {
                                before.cells[p]
                            }),
                        forall|i: int| 0 <= i < stack@.len() ==> opened.contains(#[trigger] stack@[i]),
                        before.flood_closed_but(opened, stack@.push(cur)),
                        forall|j: int|
                            0 <= j < k ==> !before.is_hidden(#[trigger] near@[j]) || opened.contains(
                                near@[j],
                            ),
                        count_hidden(self.cells@) + stack@.len() == hidden_then + depth_then,
                        stack@.len() >= depth_then,
                    decreases near.len() - k,
                {
                    let q = near[k];
                    proof {
                        self.lemma_view();
                        assert(near@.contains(q));
                        assert(near@.to_set().contains(q));
                        assert(before.contains(q) && cur.adjacent(q));
                    }
                    let spot = self.offset(q);
                    if !self.cells[spot].is_revealed {
                        let ghost pending = stack@.push(cur);
                        let ghost known = opened;
                        self.open_cell(q);
                        stack.push(q);
                        proof {
                            assert(before.is_hidden(q));
                            lemma_flood_extends(before, start, cur, q);
                            opened = known.insert(q);
                            self.lemma_view();
                            assert forall|i: int| 0 <= i < stack@.len() implies opened.contains(
                                #[trigger] stack@[i],
                            ) by {
                                if i < stack@.len() - 1 {
                                    assert(known.contains(stack@[i]));
                                }
                            }
                            assert forall|p: Position| pending.contains(p) implies stack@.push(
                                cur,
                            ).contains(p) by {
                                let i = choose|i: int| 0 <= i < pending.len() && pending[i] == p;
                                if i < pending.len() - 1 {
                                    assert(stack@.push(cur)[i] == p);
                                } else {
                                    assert(stack@.push(cur)[stack@.len() as int] == p);
                                }
                            }
                            assert(stack@.push(cur)[stack@.len() - 1] == q);
                            assert(stack@.push(cur).contains(q));
                            assert(before.flood_closed_but(opened, stack@.push(cur)));
                        }
                    }
                    k += 1;
                }
                proof {
                    assert forall|p: Position, q: Position|
                        #![trigger opened.contains(p), p.adjacent(q)]
                        opened.contains(p) && !stack@.contains(p) && before.spreads(p)
                            && before.is_hidden(q) && p.adjacent(q) implies opened.contains(q) by {
                        if p == cur {
                            assert(before.neighbors(cur).contains(q));
                            assert(near@.to_set().contains(q));
                            assert(near@.contains(q));
                            let j = choose|j: int| 0 <= j < near@.len() && near@[j] == q;
                            assert(!before.is_hidden(near@[j]) || opened.contains(near@[j]));
                        } else {
                            if stack@.push(cur).contains(p) {
                                let i = choose|i: int|
                                    0 <= i < stack@.push(cur).len() && stack@.push(cur)[i] == p;
                                if i < stack@.len() {
                                    assert(stack@[i] == p);
                                }
                            }
                        }
                    }
                }
            } else {
                proof {
                    assert forall|p: Position, q: Position|
                        #![trigger opened.contains(p), p.adjacent(q)]
                        opened.contains(p) && !stack@.contains(p) && before.spreads(p)
                            && before.is_hidden(q) && p.adjacent(q) implies opened.contains(q) by {
                        if p != cur {
                            if full.contains(p) {
                                let i = choose|i: int| 0 <= i < full.len() && full[i] == p;
                                if i < stack@.len() {
                                    assert(stack@[i] == p);
                                }
                            }
                        }
                    }
                }
            }
        }
        proof {
            self.lemma_view();
            assert(stack@ =~= Seq::empty());
            lemma_flood_order_independent(before, start, opened);
            assert(self@.cells =~= before.flooded(start).cells);
        }
    }
}

} // verus!
