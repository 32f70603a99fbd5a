//! Sines and cosines of fixed-point angles, read from a table.
//!
//! The library does no trigonometry of its own. Whoever builds a renderer
//! hands it the sine of every angle of one full turn, in steps of a
//! thousandth of a radian; every other angle is brought into that turn first.

use crate::vector::ONE;
use vstd::arithmetic::div_mod::{lemma_mod_bound, lemma_mod_multiples_vanish};
use vstd::prelude::*;

verus! {

/// The number of angle steps in one full turn.
pub const FULL_TURN: i32 = 6283;

/// The number of angle steps in a quarter of a turn.
pub const QUARTER_TURN: i32 = 1571;

/// The sine of every angle from zero up to one full turn, each in steps of
/// `1 / ONE`.
pub struct SineTable {
    values: Vec<i32>,
}

impl View for SineTable {
    type V = Seq<i32>;

    closed spec fn view(&self) -> Seq<i32> {
        self.values@
    }
}

/// Whether `values` can serve as a table of sines: one value for each angle
/// of a full turn, none beyond one in magnitude.
pub open spec fn is_sine_table(values: Seq<i32>) -> bool {
    &&& values.len() == FULL_TURN
    &&& forall|i: int| 0 <= i < values.len() ==> -ONE <= #[trigger] values[i] <= ONE
}

impl SineTable {
    /// The table holds one value for each angle of a full turn, none beyond
    /// one in magnitude.
    pub open spec fn wf(&self) -> bool {
        is_sine_table(self@)
    }

    /// The sine of `angle`: the entry for the angle within the first full
    /// turn that differs from it by whole turns.
    pub open spec fn sin_of(&self, angle: int) -> int {
        self@[angle % (FULL_TURN as int)] as int
    }

    /// The cosine of `angle`: the sine a quarter turn further on.
    pub open spec fn cos_of(&self, angle: int) -> int {
        self.sin_of(angle + QUARTER_TURN)
    }

    /// Takes `values` as the table, where they can serve as one.
    pub fn new(values: Vec<i32>) -> (table: Option<Self>)
        ensures
            table is Some <==> is_sine_table(values@),
            table is Some ==> table->0@ == values@ && table->0.wf(),
    {
        if values.len() != FULL_TURN as usize {
            return None;
        }
        let mut i: usize = 0;
        while i < values.len()
            invariant
                i <= values@.len(),
                forall|k: int| 0 <= k < i ==> -ONE <= #[trigger] values@[k] <= ONE,
            decreases values@.len() - i,
        {
            if values[i] < -ONE || values[i] > ONE {
                return None;
            }
            i += 1;
        }
        Some(SineTable { values })
    }

    /// The entry for `angle`, brought into the table's turn.
    fn entry(&self, angle: i64) -> (r: i32)
        requires
            self.wf(),
            -0x1_0000_0000 <= angle <= 0x1_0000_0000,
        ensures
            r == self.sin_of(angle as int),
            -ONE <= r <= ONE,
    {
        let turns: i64 = 700_000;
        let lifted: u64 = (angle + turns * (FULL_TURN as i64)) as u64;
        let at: u64 = lifted % (FULL_TURN as u64);
        proof {
            lemma_mod_multiples_vanish(turns as int, angle as int, FULL_TURN as int);
            lemma_mod_bound(angle as int, FULL_TURN as int);
            assert(turns * FULL_TURN + angle == FULL_TURN * turns + angle) by (nonlinear_arith);
        }
        self.values[at as usize]
    }

    /// The sine of `angle`.
    pub fn sin(&self, angle: i32) -> (r: i32)
        requires
            self.wf(),
        ensures
            r == self.sin_of(angle as int),
            -ONE <= r <= ONE,
    {
        self.entry(angle as i64)
    }

    /// The cosine of `angle`.
    pub fn cos(&self, angle: i32) -> (r: i32)
        requires
            self.wf(),
        ensures
            r == self.cos_of(angle as int),
            -ONE <= r <= ONE,
    {
        self.entry(angle as i64 + QUARTER_TURN as i64)
    }
}

/// Sines and cosines come round: an angle and the angle any number of full
/// turns further on have the same sine and the same cosine.
pub proof fn lemma_whole_turns(table: &SineTable, angle: int, turns: int)
    ensures
        table.sin_of(angle + turns * FULL_TURN) == table.sin_of(angle),
        table.cos_of(angle + turns * FULL_TURN) == table.cos_of(angle),
{
    lemma_mod_multiples_vanish(turns, angle, FULL_TURN as int);
    lemma_mod_multiples_vanish(turns, angle + QUARTER_TURN, FULL_TURN as int);
    assert(turns * FULL_TURN + angle == FULL_TURN * turns + angle) by (nonlinear_arith);
    assert(angle + turns * FULL_TURN + QUARTER_TURN == FULL_TURN * turns + (angle + QUARTER_TURN))
        by (nonlinear_arith);
}

} // verus!
