//! Arrangements of the grid: orders that hold every position once. A random
//! one decides where the mines go.

use vstd::prelude::*;
use rand::seq::SliceRandom;
use crate::board::{Board, BoardView};
use crate::geometry::Position;
use crate::neighbors::{in_reading_order, lemma_neighbor_count, reads_before};
use crate::placement::lemma_chosen_mines;

verus! {

/// The handle to the random number generator of the current thread, as the
/// `rand` crate gives it out. Nothing is known of what it holds.
#[verifier::external_type_specification]
#[verifier::external_body]
pub struct ExThreadRng(rand::rngs::ThreadRng);

/// `rand::thread_rng` hands out the generator of the current thread, which
/// the system seeds on first use. Nothing is claimed of the handle. Where the
/// system has no randomness to give, `rand` stops the program.
pub assume_specification[ rand::thread_rng ]() -> (rng: rand::rngs::ThreadRng);

/// Shuffles `cells` in place with `SliceRandom::shuffle` of the `rand` crate.
///
/// The shuffle only swaps elements of the slice, so `cells` holds afterwards
/// what it held before, each element as often as before. Which order comes
/// out is left open.
#[verifier::external_body]
fn shuffle_positions(cells: &mut Vec<Position>, rng: &mut rand::rngs::ThreadRng)
    ensures
        final(cells)@.to_multiset() == old(cells)@.to_multiset(),
{
    cells.shuffle(rng);
}

impl BoardView {
    /// `order` holds every position of the board exactly once.
    pub open spec fn is_arrangement(self, order: Seq<Position>) -> bool {
        &&& order.no_duplicates()
        &&& order.to_set() == self.positions()
        &&& order.len() == self.width * self.height
    }
}

/// An order that holds the same positions as an arrangement, each as often,
/// is an arrangement.
pub proof fn lemma_rearranged(v: BoardView, first: Seq<Position>, second: Seq<Position>)
    requires
        v.is_arrangement(first),
        first.to_multiset() == second.to_multiset(),
    ensures
        v.is_arrangement(second),
{
    first.to_multiset_ensures();
    second.to_multiset_ensures();
    first.lemma_multiset_has_no_duplicates();
    second.lemma_multiset_has_no_duplicates_conv();
    assert(second.to_set() =~= first.to_set()) by {
        assert forall|p: Position| second.to_set().contains(p) == first.to_set().contains(p) by {
            assert(second.contains(p) == (second.to_multiset().count(p) > 0));
            assert(first.contains(p) == (first.to_multiset().count(p) > 0));
        }
    }
}

/// As long as mines are left to lay, every eligible position of the order
/// has been chosen.
proof fn lemma_unfinished_takes_all(v: BoardView, center: Position, order: Seq<Position>, i: int)
    requires
        0 <= v.mine_count,
        v.chosen_mines(center, order).len() < v.mine_count,
        0 <= i < order.len(),
        v.eligible(center, order[i]),
    ensures
        v.chosen_mines(center, order).contains(order[i]),
    decreases order.len(),
{
    let rest = order.drop_last();
    lemma_chosen_mines(v, center, rest);
    if i < order.len() - 1 {
        assert(rest[i] == order[i]);
        lemma_unfinished_takes_all(v, center, rest, i);
    }
}

/// An arrangement supplies all the mines of a board, wherever on the board
/// the first reveal is: at most nine cells are kept free around it, and the
/// board has ten cells more than mines.
pub proof fn lemma_arrangement_supplies_all(v: BoardView, center: Position, order: Seq<Position>)
    requires
        v.valid_shape(),
        v.contains(center),
        v.is_arrangement(order),
    ensures
        v.supplies_all_mines(center, order),
{
    let chosen = v.chosen_mines(center, order);
    lemma_chosen_mines(v, center, order);
    if chosen.len() < v.mine_count {
        let all = v.positions();
        let kept_free = v.neighbors(center).insert(center);
        let open = Set::new(|p: Position| v.eligible(center, p));
        order.unique_seq_to_set();
        lemma_neighbor_count(v, center);
        assert(all =~= open + kept_free);
        assert(open.subset_of(chosen)) by {
            assert forall|p: Position| open.contains(p) implies chosen.contains(p) by {
                assert(order.to_set().contains(p));
                let i = choose|i: int| 0 <= i < order.len() && order[i] == p;
                lemma_unfinished_takes_all(v, center, order, i);
            }
        }
        vstd::set_lib::lemma_len_subset(open, chosen);
        vstd::set_lib::lemma_set_disjoint_lens(open, kept_free);
        assert(open.disjoint(kept_free));
        assert(kept_free.len() <= 9);
    }
}

impl Board {
    /// Every position of the board, row by row.
    pub fn all_positions(&self) -> (all: Vec<Position>)
        requires
            self.shaped(),
        ensures
            self@.is_arrangement(all@),
            in_reading_order(all@),
    {
        let mut all: Vec<Position> = Vec::new();
        let mut y: usize = 0;
        proof {
            self.lemma_view();
        }
        while y < self.height
            invariant
                self.shaped(),
                y <= self.height,
                all@.len() == y * self.width,
                all@.no_duplicates(),
                in_reading_order(all@),
                forall|i: int| 0 <= i < all@.len() ==> self@.contains(#[trigger] all@[i]) && all@[i].y < y,
                forall|q: Position| self@.contains(q) && q.y < y ==> all@.contains(q),
            decreases self.height - y,
        {
            let mut x: usize = 0;
            while x < self.width
                invariant
                    self.shaped(),
                    y < self.height,
                    x <= self.width,
                    all@.len() == y * self.width + x,
                    all@.no_duplicates(),
                    in_reading_order(all@),
                    forall|i: int| 0 <= i < all@.len() ==> self@.contains(#[trigger] all@[i]) && reads_before(all@[i], x as int, y as int),
                    forall|q: Position| self@.contains(q) && reads_before(q, x as int, y as int) ==> all@.contains(q),
                decreases self.width - x,
            {
                let p = Position { x, y };
                let ghost before = all@;
                all.push(p);
                proof {
                    self.lemma_view();
                    assert(forall|i: int| 0 <= i < before.len() ==> all@[i] == before[i]);
                    assert(all@[before.len() as int] == p);
                    assert forall|q: Position| self@.contains(q) && reads_before(q, x + 1, y as int) implies all@.contains(q) by {
                        if reads_before(q, x as int, y as int) {
                            let i = choose|i: int| 0 <= i < before.len() && before[i] == q;
                            assert(all@[i] == q);
                        } else {
                            assert(q == p);
                        }
                    }
                }
                x += 1;
            }
            proof {
                assert((y + 1) * self.width == y * self.width + self.width) by (nonlinear_arith);
            }
            y += 1;
        }
        proof {
            self.lemma_view();
            assert(self.height * self.width == self.width * self.height) by (nonlinear_arith);
            assert(all@.to_set() =~= self@.positions()) by {
                assert forall|q: Position| all@.to_set().contains(q) == self@.positions().contains(q) by {
                    if all@.contains(q) {
                        let i = choose|i: int| 0 <= i < all@.len() && all@[i] == q;
                        assert(self@.contains(all@[i]));
                    }
                }
            }
        }
        all
    }

    /// Every position of the board once, in a random order.
    pub fn shuffled_positions(&self) -> (order: Vec<Position>)
        requires
            self.shaped(),
        ensures
            self@.is_arrangement(order@),
    {
        let mut order = self.all_positions();
        let ghost sorted = order@;
        let mut rng = rand::thread_rng();
        shuffle_positions(&mut order, &mut rng);
        proof {
            lemma_rearranged(self@, sorted, order@);
        }
        order
    }
}

} // verus!
