//! The tick-local batch of decisions: what each resolved particle will do,
//! and which destination cells are thereby spoken for.

use std::collections::HashSet;
use vstd::prelude::*;
use crate::cell::{key_of, lemma_key_order, Cell};
use crate::pixel_types::Pixel;

verus! {

/// The decision taken for one particle: where it goes (`to == from` when it
/// stays) and the state it will have once the decision is committed.
#[derive(Clone, Copy, Debug, PartialEq, Eq, Structural)]
pub struct Staged {
    pub id: usize,
    pub from: Cell,
    pub to: Cell,
    pub pixel: Pixel,
}

/// One committed change of cell, as handed to the renderer.
#[derive(Clone, Copy, Debug, PartialEq, Eq, Structural)]
pub struct Move {
    pub id: usize,
    pub from: Cell,
    pub to: Cell,
}

/// Whether a decision changes the particle's cell.
pub open spec fn is_move(staged: Staged) -> bool {
    staged.to != staged.from
}

/// The destinations claimed by the moves of a batch.
pub open spec fn claims_of(batch: Seq<Staged>) -> Set<Cell> {
    Set::new(
        |c: Cell|
            exists|k: int| 0 <= k < batch.len() && is_move(#[trigger] batch[k]) && batch[k].to == c,
    )
}

/// A cell is free for a decision when neither the committed grid nor an
/// earlier decision of the same tick has it.
pub open spec fn is_free(grid: Map<Cell, usize>, claims: Set<Cell>, cell: Cell) -> bool {
    !grid.contains_key(cell) && !claims.contains(cell)
}

/// Staging one more decision adds its destination to the claims exactly when
/// it is a move.
pub proof fn lemma_claims_push(batch: Seq<Staged>, staged: Staged)
    ensures
        claims_of(batch.push(staged)) == (if is_move(staged) {
            claims_of(batch).insert(staged.to)
        } else {
            claims_of(batch)
        }),
{
    let after = batch.push(staged);
    let expected = if is_move(staged) {
        claims_of(batch).insert(staged.to)
    } else {
        claims_of(batch)
    };
    assert forall|c: Cell| claims_of(after).contains(c) <==> expected.contains(c) by {
        if claims_of(after).contains(c) {
            let k = choose|k: int|
                0 <= k < after.len() && is_move(#[trigger] after[k]) && after[k].to == c;
            if k < batch.len() {
                assert(batch[k] == after[k]);
            }
        }
        if expected.contains(c) {
            if claims_of(batch).contains(c) {
                let k = choose|k: int|
                    0 <= k < batch.len() && is_move(#[trigger] batch[k]) && batch[k].to == c;
                assert(after[k] == batch[k]);
            } else {
                assert(after[batch.len() as int] == staged);
            }
        }
    }
    assert(claims_of(after) =~= expected);
}

/// The staged batch of one tick, in the order in which the decisions were
/// taken. Its view is that sequence of decisions.
pub struct Updates {
    entries: Vec<Staged>,
    claimed: HashSet<i64>,
}

impl View for Updates {
    type V = Seq<Staged>;

    closed spec fn view(&self) -> Seq<Staged> {
        self.entries@
    }
}

impl Updates {
    /// The index of claimed cells agrees with the staged moves.
    #[verifier::type_invariant]
    closed spec fn wf(&self) -> bool {
        forall|c: Cell|
            self.claimed@.contains(key_of(c) as i64) <==> #[trigger] claims_of(
                self.entries@,
            ).contains(c)
    }

    /// An empty batch.
    pub fn new() -> (updates: Updates)
        ensures
            updates@ == Seq::<Staged>::empty(),
    {
        Updates { entries: Vec::new(), claimed: HashSet::new() }
    }

    /// Number of staged decisions.
    pub fn len(&self) -> (len: usize)
        ensures
            len == self@.len(),
    {
        self.entries.len()
    }

    /// The decision staged at position `index`.
    pub fn get(&self, index: usize) -> (staged: Option<Staged>)
        ensures
            staged == (if index < self@.len() {
                Some(self@[index as int])
            } else {
                None
            }),
    {
        if index < self.entries.len() {
            Some(self.entries[index])
        } else {
            None
        }
    }

    /// Whether an already staged move targets the cell at column `x`, row `y`.
    pub fn is_claimed(&self, x: i32, y: i32) -> (claimed: bool)
        ensures
            claimed == claims_of(self@).contains(Cell { x, y }),
    {
        proof {
            use_type_invariant(self);
        }
        let cell = Cell { x, y };
        let key = cell.key();
        self.claimed.contains(&key)
    }

    /// Appends a decision to the batch.
    pub fn stage(&mut self, staged: Staged)
        ensures
            final(self)@ == old(self)@.push(staged),
    {
        let mut taken = Updates::new();
        core::mem::swap(self, &mut taken);
        proof {
            use_type_invariant(&taken);
            lemma_claims_push(taken.entries@, staged);
        }
        let Updates { mut entries, mut claimed } = taken;
        entries.push(staged);
        if staged.to.x != staged.from.x || staged.to.y != staged.from.y {
            let key = staged.to.key();
            claimed.insert(key);
            proof {
                assert forall|c: Cell| #[trigger] key_of(c) == key_of(staged.to) <==> c
                    == staged.to by {
                    lemma_key_order(c, staged.to);
                }
            }
        }
        *self = Updates { entries, claimed };
    }
}

} // verus!
