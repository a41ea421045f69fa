//! 2D Cartesian coordinate.

use std::ops::{Add, Sub};
use vstd::prelude::*;
use vstd::std_specs::ops::{AddSpec, AddSpecImpl, SubSpec, SubSpecImpl};

verus! {

/// A 2-dimensional point.
#[derive(Copy, Clone, Debug, Default, Hash, Eq, PartialEq, Structural)]
pub struct Point<T> {
    /// The x-value of the point.
    pub x: T,
    /// The y-value of the point.
    pub y: T,
}

impl<T: Add<Output = T>> Add for Point<T> {
    type Output = Point<T>;

    /// Component-wise sum.
    fn add(self, other: Point<T>) -> (sum: Point<T>) {
        Point { x: self.x + other.x, y: self.y + other.y }
    }
}

impl<T: Add<Output = T>> AddSpecImpl for Point<T> {
    open spec fn obeys_add_spec() -> bool {
        T::obeys_add_spec()
    }

    open spec fn add_req(self, other: Point<T>) -> bool {
        self.x.add_req(other.x) && self.y.add_req(other.y)
    }

    open spec fn add_spec(self, other: Point<T>) -> Point<T> {
        Point { x: self.x.add_spec(other.x), y: self.y.add_spec(other.y) }
    }
}

impl<T: Sub<Output = T>> Sub for Point<T> {
    type Output = Point<T>;

    /// Component-wise difference.
    fn sub(self, other: Point<T>) -> (difference: Point<T>) {
        Point { x: self.x - other.x, y: self.y - other.y }
    }
}

impl<T: Sub<Output = T>> SubSpecImpl for Point<T> {
    open spec fn obeys_sub_spec() -> bool {
        T::obeys_sub_spec()
    }

    open spec fn sub_req(self, other: Point<T>) -> bool {
        self.x.sub_req(other.x) && self.y.sub_req(other.y)
    }

    open spec fn sub_spec(self, other: Point<T>) -> Point<T> {
        Point { x: self.x.sub_spec(other.x), y: self.y.sub_spec(other.y) }
    }
}

impl<T: Add<Output = T> + Copy> Point<T> {
    /// Adds `other` to this point in place, component by component.
    pub fn add_assign(&mut self, other: Point<T>)
        requires
            AddSpec::add_req(*old(self), other),
        ensures
            T::obeys_add_spec() ==> *final(self) == AddSpec::add_spec(*old(self), other),
    {
        let sum = *self + other;
        *self = sum;
    }
}

/// How many of `v - 1`, `v`, `v + 1` are `i32` values.
pub open spec fn span(v: i32) -> int {
    (if v > i32::MIN { 1int } else { 0int }) + 1 + (if v < i32::MAX { 1int } else { 0int })
}

impl Point<i32> {
    /// Whether `q` lies in the closed 3×3 block centered at this point. The
    /// point itself does.
    pub open spec fn near(self, q: Point<i32>) -> bool {
        &&& self.x - 1 <= q.x <= self.x + 1
        &&& self.y - 1 <= q.y <= self.y + 1
    }

    /// Column-major order: by `x`, then by `y`.
    pub open spec fn before(self, q: Point<i32>) -> bool {
        self.x < q.x || (self.x == q.x && self.y < q.y)
    }

    /// Whether the whole 3×3 block around this point has `i32` coordinates.
    pub open spec fn inner(self) -> bool {
        &&& i32::MIN < self.x < i32::MAX
        &&& i32::MIN < self.y < i32::MAX
    }

    /// The cell of the block around this point in column `i` and row `j`,
    /// each counted from 0 to 2.
    pub open spec fn block_cell(self, i: int, j: int) -> Point<i32>
        recommends
            self.inner(),
            0 <= i < 3,
            0 <= j < 3,
    {
        Point { x: (self.x - 1 + i) as i32, y: (self.y - 1 + j) as i32 }
    }

    /// Whether `q` comes before column `i`, row `j` of the block around this
    /// point.
    spec fn passed(self, q: Point<i32>, i: int, j: int) -> bool {
        q.x - self.x + 1 < i || (q.x - self.x + 1 == i && q.y - self.y + 1 < j)
    }

    /// How many cells the first `i` columns of the block hold.
    spec fn columns(self, i: int) -> int {
        (if i > 0 && self.x > i32::MIN { span(self.y) } else { 0 })
            + (if i > 1 { span(self.y) } else { 0 })
            + (if i > 2 && self.x < i32::MAX { span(self.y) } else { 0 })
    }

    /// How many cells the first `j` rows of column `i` hold.
    spec fn rows(self, i: int, j: int) -> int {
        if i32::MIN <= self.x - 1 + i <= i32::MAX {
            (if j > 0 && self.y > i32::MIN { 1int } else { 0 })
                + (if j > 1 { 1int } else { 0 })
                + (if j > 2 && self.y < i32::MAX { 1int } else { 0 })
        } else {
            0
        }
    }

    /// Every point of the closed 3×3 block centered at this point, this point
    /// included, column by column. At the edge of the `i32` range the block
    /// holds only the coordinates that exist.
    pub fn neighbors(self) -> (block: Vec<Point<i32>>)
        ensures
            forall|q: Point<i32>| block@.contains(q) <==> self.near(q),
            forall|i: int, j: int|
                0 <= i < j < block@.len() ==> (#[trigger] block@[i]).before(#[trigger] block@[j]),
            block@.len() == span(self.x) * span(self.y),
            self.inner() ==> block@.len() == 9,
            self.inner() ==> forall|i: int, j: int|
                0 <= i < 3 && 0 <= j < 3 ==> block@[3 * i + j] == #[trigger] self.block_cell(i, j),
    {
        let mut block: Vec<Point<i32>> = Vec::new();
        let mut i: i64 = 0;
        while i < 3
            invariant
                0 <= i <= 3,
                block@.len() == self.columns(i as int),
                self.inner() ==> block@.len() == 3 * i,
                forall|k: int|
                    0 <= k < block@.len() ==> self.near(#[trigger] block@[k]) && self.passed(
                        block@[k],
                        i as int,
                        0,
                    ),
                forall|q: Point<i32>|
                    self.near(q) && self.passed(q, i as int, 0) ==> block@.contains(q),
                forall|a: int, b: int|
                    0 <= a < b < block@.len() ==> (#[trigger] block@[a]).before(
                        #[trigger] block@[b],
                    ),
                self.inner() ==> forall|a: int, b: int|
                    0 <= a < i && 0 <= b < 3 ==> block@[3 * a + b] == #[trigger] self.block_cell(
                        a,
                        b,
                    ),
            decreases 3 - i,
        {
            let mut j: i64 = 0;
            while j < 3
                invariant
                    0 <= i < 3,
                    0 <= j <= 3,
                    block@.len() == self.columns(i as int) + self.rows(i as int, j as int),
                    self.inner() ==> block@.len() == 3 * i + j,
                    forall|k: int|
                        0 <= k < block@.len() ==> self.near(#[trigger] block@[k]) && self.passed(
                            block@[k],
                            i as int,
                            j as int,
                        ),
                    forall|q: Point<i32>|
                        self.near(q) && self.passed(q, i as int, j as int) ==> block@.contains(q),
                    forall|a: int, b: int|
                        0 <= a < b < block@.len() ==> (#[trigger] block@[a]).before(
                            #[trigger] block@[b],
                        ),
                    self.inner() ==> forall|a: int, b: int|
                        0 <= a < 3 && 0 <= b < 3 && (a < i || (a == i && b < j)) ==> block@[3 * a
                            + b] == #[trigger] self.block_cell(a, b),
                decreases 3 - j,
            {
                let nx: i64 = self.x as i64 - 1 + i;
                let ny: i64 = self.y as i64 - 1 + j;
                if -0x8000_0000 <= nx && nx <= 0x7fff_ffff && -0x8000_0000 <= ny && ny
                    <= 0x7fff_ffff {
                    let ghost earlier = block@;
                    let cell = Point { x: nx as i32, y: ny as i32 };
                    block.push(cell);
                    proof {
                        assert forall|q: Point<i32>|
                            self.near(q) && self.passed(q, i as int, j + 1) implies block@.contains(
                            q,
                        ) by {
                            if q == cell {
                                assert(block@[earlier.len() as int] == q);
                            } else {
                                assert(earlier.contains(q));
                                let k = choose|k: int| 0 <= k < earlier.len() && earlier[k] == q;
                                assert(block@[k] == q);
                            }
                        }
                    }
                }
                j = j + 1;
            }
            i = i + 1;
        }
        proof {
            assert forall|q: Point<i32>| block@.contains(q) implies self.near(q) by {
                let k = choose|k: int| 0 <= k < block@.len() && block@[k] == q;
                assert(self.near(block@[k]));
            }
            let across = span(self.x);
            let down = span(self.y);
            assert(self.columns(3) == across * down) by (nonlinear_arith)
                requires
                    across == 2 || across == 3,
                    self.columns(3) == if across == 2 {
                        down + down
                    } else {
                        down + down + down
                    },
            ;
        }
        block
    }
}

} // verus!
