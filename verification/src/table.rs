//! The palette table: one color for each iteration value from 0 to
//! `max_iter`, computed once and then only read.
//!
//! The last entry belongs to the points that did not escape. It is written
//! directly from the designated in-set color and never comes out of a
//! gradient formula.

use crate::palette::{
    black, cyclic_at, cyclic_color, linear_at, linear_color, Color, Depth,
};
use vstd::prelude::*;

verus! {

/// A table of `max_iter + 1` colors, the last of which is the in-set color.
#[derive(Clone, Debug)]
pub struct Palette {
    table: Vec<Color>,
    in_set: Color,
}

impl Palette {
    /// The colors of the table, by iteration value.
    pub closed spec fn entries(&self) -> Seq<Color> {
        self.table@
    }

    /// The designated color of the points that did not escape.
    pub closed spec fn in_set(&self) -> Color {
        self.in_set
    }

    /// The iteration budget that the table was built for.
    pub open spec fn spec_max_iter(&self) -> int {
        self.entries().len() - 1
    }

    /// The table has an entry for every value up to the budget, and the
    /// entry at the budget is the in-set color.
    pub open spec fn wf(&self) -> bool {
        &&& self.entries().len() >= 1
        &&& self.entries().last() == self.in_set()
    }

    /// The color of an iteration value: the in-set color from the budget
    /// on, and the table's entry below it.
    pub open spec fn color_at(&self, index: int) -> Color {
        if index >= self.spec_max_iter() {
            self.in_set()
        } else {
            self.entries()[index]
        }
    }

    /// The place in the gradient of a smooth iteration value that was
    /// rounded to `rounded`: the value itself, or the last place of the
    /// gradient for a value that reaches the budget.
    pub open spec fn gradient_index(&self, rounded: int) -> int {
        if rounded >= self.spec_max_iter() {
            self.spec_max_iter() - 1
        } else {
            rounded
        }
    }

    /// The table whose gradient entries are given, one for each iteration
    /// value below the budget, which is their number.
    pub fn from_gradient(gradient: Vec<Color>, in_set: Color) -> (palette: Palette)
        ensures
            palette.wf(),
            palette.in_set() == in_set,
            palette.entries() == gradient@.push(in_set),
    {
        let mut table = gradient;
        table.push(in_set);
        Palette { table, in_set }
    }

    /// The table of the linear gradient from `base` to `target`.
    pub fn linear(max_iter: usize, base: Color, target: Color, in_set: Color) -> (palette: Palette)
        ensures
            palette.wf(),
            palette.in_set() == in_set,
            palette.spec_max_iter() == max_iter,
            forall|i: int|
                0 <= i < max_iter ==> #[trigger] palette.entries()[i] == linear_color(
                    base,
                    target,
                    i,
                    max_iter as int,
                ),
    {
        let mut table: Vec<Color> = Vec::new();
        let mut i: usize = 0;
        while i < max_iter
            invariant
                i <= max_iter,
                table@.len() == i,
                forall|j: int|
                    0 <= j < i ==> #[trigger] table@[j] == linear_color(
                        base,
                        target,
                        j,
                        max_iter as int,
                    ),
            decreases max_iter - i,
        {
            table.push(linear_at(base, target, i, max_iter));
            i += 1;
        }
        table.push(in_set);
        Palette { table, in_set }
    }

    /// The table of the cyclic hue gradient with `cycles` turns of the hue
    /// circle over the budget. Its in-set color is black.
    pub fn cyclic(max_iter: usize, cycles: u32, depth: Depth) -> (palette: Palette)
        ensures
            palette.wf(),
            palette.in_set() == black(),
            palette.spec_max_iter() == max_iter,
            forall|i: int|
                0 <= i < max_iter ==> #[trigger] palette.entries()[i] == cyclic_color(
                    i,
                    max_iter as int,
                    cycles as int,
                    depth.spec_full() as u16,
                ),
    {
        let mut table: Vec<Color> = Vec::new();
        let mut i: usize = 0;
        while i < max_iter
            invariant
                i <= max_iter,
                table@.len() == i,
                forall|j: int|
                    0 <= j < i ==> #[trigger] table@[j] == cyclic_color(
                        j,
                        max_iter as int,
                        cycles as int,
                        depth.spec_full() as u16,
                    ),
            decreases max_iter - i,
        {
            table.push(cyclic_at(i, max_iter, cycles, depth));
            i += 1;
        }
        let in_set = Color { r: 0, g: 0, b: 0 };
        table.push(in_set);
        Palette { table, in_set }
    }

    /// The iteration budget that the table was built for.
    pub fn max_iter(&self) -> (max_iter: usize)
        requires
            self.wf(),
        ensures
            max_iter == self.spec_max_iter(),
    {
        self.table.len() - 1
    }

    /// The designated color of the points that did not escape.
    pub fn in_set_color(&self) -> (color: Color)
        ensures
            color == self.in_set(),
    {
        self.in_set
    }

    /// The color of an iteration value. Every value at or above the budget
    /// is the mark of a point that did not escape and gets the in-set color.
    pub fn color(&self, index: usize) -> (color: Color)
        requires
            self.wf(),
        ensures
            color == self.color_at(index as int),
    {
        if index >= self.table.len() - 1 {
            self.in_set
        } else {
            self.table[index]
        }
    }

    /// The color of a point that escaped and whose smooth iteration value,
    /// rounded, is `rounded`. A value at or above the budget is taken for
    /// the last entry of the gradient: the in-set entry is kept for the
    /// points that did not escape.
    pub fn escaped_color(&self, rounded: usize) -> (color: Color)
        requires
            self.wf(),
            self.spec_max_iter() > 0,
        ensures
            color == self.entries()[self.gradient_index(rounded as int)],
            0 <= self.gradient_index(rounded as int) < self.spec_max_iter(),
    {
        let last: usize = self.table.len() - 2;
        if rounded > last {
            self.table[last]
        } else {
            self.table[rounded]
        }
    }
}

/// Whatever the gradient of a palette holds, the iteration value that marks
/// a point as not escaped, and every value above it, has the in-set color.
pub proof fn lemma_sentinel_color(palette: Palette, index: int)
    requires
        palette.wf(),
        index >= palette.spec_max_iter(),
    ensures
        palette.color_at(index) == palette.in_set(),
        palette.color_at(palette.spec_max_iter()) == palette.entries().last(),
{
}

} // verus!
