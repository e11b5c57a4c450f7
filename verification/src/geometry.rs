//! The floorplan: axis-aligned rectangular blocks and how they touch.

use vstd::prelude::*;
use crate::error::Error;
use crate::text::equal_bytes;

verus! {

/// The largest length, and the largest magnitude of a coordinate.
pub const MAX_LENGTH: i64 = 100_000_000;

/// One rectangular functional unit of the chip.
#[derive(Debug)]
pub struct Block {
    /// The name of the block, unique within a floorplan.
    pub label: Vec<u8>,
    /// The extent along x.
    pub width: i64,
    /// The extent along y.
    pub height: i64,
    /// The x coordinate of the lower left corner.
    pub x: i64,
    /// The y coordinate of the lower left corner.
    pub y: i64,
    /// Scaling factors for power modelling; they do not shape the circuit.
    pub scaling: Vec<i64>,
}

/// The model of a block: its label as a sequence of bytes, and its numbers
/// as integers.
pub struct BlockModel {
    pub label: Seq<u8>,
    pub width: int,
    pub height: int,
    pub x: int,
    pub y: int,
    pub scaling: Seq<i64>,
}

impl View for Block {
    type V = BlockModel;

    open spec fn view(&self) -> BlockModel {
        BlockModel {
            label: self.label@,
            width: self.width as int,
            height: self.height as int,
            x: self.x as int,
            y: self.y as int,
            scaling: self.scaling@,
        }
    }
}

/// The models of a sequence of blocks.
pub open spec fn block_models(blocks: Seq<Block>) -> Seq<BlockModel> {
    Seq::new(blocks.len(), |i: int| blocks[i]@)
}

/// The smaller of two integers.
pub open spec fn min_int(a: int, b: int) -> int {
    if a <= b {
        a
    } else {
        b
    }
}

/// The larger of two integers.
pub open spec fn max_int(a: int, b: int) -> int {
    if a >= b {
        a
    } else {
        b
    }
}

/// A block has positive extents, and all its numbers are within range.
pub open spec fn block_valid(b: BlockModel) -> bool {
    &&& 0 < b.width <= MAX_LENGTH
    &&& 0 < b.height <= MAX_LENGTH
    &&& -MAX_LENGTH <= b.x <= MAX_LENGTH
    &&& -MAX_LENGTH <= b.y <= MAX_LENGTH
}

/// The area of a block.
pub open spec fn block_area(b: BlockModel) -> int {
    b.width * b.height
}

/// The length that the intervals `[lo1, hi1]` and `[lo2, hi2]` have in
/// common; zero or negative when they have no more than a point in common.
pub open spec fn overlap_1d(lo1: int, hi1: int, lo2: int, hi2: int) -> int {
    min_int(hi1, hi2) - max_int(lo1, lo2)
}

/// The extent along x that two blocks have in common.
pub open spec fn overlap_x(a: BlockModel, b: BlockModel) -> int {
    overlap_1d(a.x, a.x + a.width, b.x, b.x + b.width)
}

/// The extent along y that two blocks have in common.
pub open spec fn overlap_y(a: BlockModel, b: BlockModel) -> int {
    overlap_1d(a.y, a.y + a.height, b.y, b.y + b.height)
}

/// Two blocks cover a common area.
pub open spec fn overlapping(a: BlockModel, b: BlockModel) -> bool {
    overlap_x(a, b) > 0 && overlap_y(a, b) > 0
}

/// One block ends along x where the other begins.
pub open spec fn touching_x(a: BlockModel, b: BlockModel) -> bool {
    a.x + a.width == b.x || b.x + b.width == a.x
}

/// One block ends along y where the other begins.
pub open spec fn touching_y(a: BlockModel, b: BlockModel) -> bool {
    a.y + a.height == b.y || b.y + b.height == a.y
}

/// The length of the boundary segment that two blocks share; zero when they
/// share none, or only a corner.
pub open spec fn shared_boundary(a: BlockModel, b: BlockModel) -> int {
    if touching_x(a, b) && overlap_y(a, b) > 0 {
        overlap_y(a, b)
    } else if touching_y(a, b) && overlap_x(a, b) > 0 {
        overlap_x(a, b)
    } else {
        0
    }
}

/// Two blocks share a boundary segment of nonzero length.
pub open spec fn adjacent(a: BlockModel, b: BlockModel) -> bool {
    shared_boundary(a, b) > 0
}

/// Twice the difference of the centres of two blocks along x.
pub open spec fn center_dx2(a: BlockModel, b: BlockModel) -> int {
    (2 * a.x + a.width) - (2 * b.x + b.width)
}

/// Twice the difference of the centres of two blocks along y.
pub open spec fn center_dy2(a: BlockModel, b: BlockModel) -> int {
    (2 * a.y + a.height) - (2 * b.y + b.height)
}

/// The largest square of twice the distance between the centres of two
/// valid blocks.
pub const MAX_DISTANCE_SQUARED: u64 = 500_000_000_000_000_000;

/// The square of twice the Euclidean distance between the centres of two
/// blocks. A centre may lie on a half unit, so the distance is taken twice;
/// its square is a whole number.
pub open spec fn doubled_distance_squared(a: BlockModel, b: BlockModel) -> int {
    center_dx2(a, b) * center_dx2(a, b) + center_dy2(a, b) * center_dy2(a, b)
}

/// The sum of the areas of the blocks.
pub open spec fn total_area(blocks: Seq<BlockModel>) -> int
    decreases blocks.len(),
{
    if blocks.len() == 0 {
        0
    } else {
        total_area(blocks.drop_last()) + block_area(blocks.last())
    }
}

/// Every block is valid, no label occurs twice, and no two blocks overlap.
pub open spec fn valid_floorplan(blocks: Seq<BlockModel>) -> bool {
    &&& forall|i: int| 0 <= i < blocks.len() ==> block_valid(#[trigger] blocks[i])
    &&& forall|i: int, j: int|
        0 <= i < j < blocks.len() ==> (#[trigger] blocks[i]).label != (#[trigger] blocks[j]).label
    &&& forall|i: int, j: int|
        0 <= i < j < blocks.len() ==> !overlapping(#[trigger] blocks[i], #[trigger] blocks[j])
}

/// A rectangle of `width` by `height` is large enough to hold all blocks.
pub open spec fn fits_within(blocks: Seq<BlockModel>, width: int, height: int) -> bool {
    forall|i: int, j: int|
        0 <= i < blocks.len() && 0 <= j < blocks.len() ==> {
            &&& (#[trigger] blocks[j]).x + blocks[j].width - (#[trigger] blocks[i]).x <= width
            &&& blocks[j].y + blocks[j].height - blocks[i].y <= height
        }
}

/// Neither the shared boundary nor the distance between the centres depends
/// on the order of the two blocks.
pub proof fn lemma_shared_boundary_symmetric(a: BlockModel, b: BlockModel)
    ensures
        shared_boundary(a, b) == shared_boundary(b, a),
        doubled_distance_squared(a, b) == doubled_distance_squared(b, a),
{
    let dx = center_dx2(a, b);
    let dy = center_dy2(a, b);
    assert(center_dx2(b, a) == -dx);
    assert(center_dy2(b, a) == -dy);
    assert((-dx) * (-dx) == dx * dx) by (nonlinear_arith);
    assert((-dy) * (-dy) == dy * dy) by (nonlinear_arith);
}

/// The square of twice the distance between the centres of two valid blocks
/// is bounded.
pub proof fn lemma_distance_bounds(a: BlockModel, b: BlockModel)
    requires
        block_valid(a),
        block_valid(b),
    ensures
        0 <= doubled_distance_squared(a, b) <= MAX_DISTANCE_SQUARED,
        0 <= center_dx2(a, b) * center_dx2(a, b) <= 250_000_000_000_000_000,
        0 <= center_dy2(a, b) * center_dy2(a, b) <= 250_000_000_000_000_000,
{
    let dx = center_dx2(a, b);
    let dy = center_dy2(a, b);
    assert(0 <= dx * dx <= 250_000_000_000_000_000) by (nonlinear_arith)
        requires
            -500_000_000 <= dx <= 500_000_000,
    ;
    assert(0 <= dy * dy <= 250_000_000_000_000_000) by (nonlinear_arith)
        requires
            -500_000_000 <= dy <= 500_000_000,
    ;
}

/// Blocks that share a boundary have centres at least one unit apart, and
/// the shared length is no longer than either block.
pub proof fn lemma_adjacent_distance(a: BlockModel, b: BlockModel)
    requires
        block_valid(a),
        block_valid(b),
        adjacent(a, b),
    ensures
        4 <= doubled_distance_squared(a, b) <= MAX_DISTANCE_SQUARED,
        0 < shared_boundary(a, b) <= MAX_LENGTH,
{
    let dx = center_dx2(a, b);
    let dy = center_dy2(a, b);
    lemma_distance_bounds(a, b);
    if touching_x(a, b) && overlap_y(a, b) > 0 {
        assert(dx * dx >= 4) by (nonlinear_arith)
            requires
                dx >= 2 || dx <= -2,
        ;
    } else {
        assert(dy * dy >= 4) by (nonlinear_arith)
            requires
                dy >= 2 || dy <= -2,
        ;
    }
}

/// Lengthening a floorplan by one block adds that block's area.
pub proof fn lemma_total_area_push(blocks: Seq<BlockModel>, b: BlockModel)
    ensures
        total_area(blocks.push(b)) == total_area(blocks) + block_area(b),
{
    assert(blocks.push(b).drop_last() =~= blocks);
}

/// The area of a valid block is positive and bounded.
pub proof fn lemma_block_area_bounds(b: BlockModel)
    requires
        block_valid(b),
    ensures
        0 < block_area(b) <= MAX_LENGTH * MAX_LENGTH,
{
    assert(0 < b.width * b.height <= 100_000_000 * 100_000_000) by (nonlinear_arith)
        requires
            0 < b.width <= 100_000_000,
            0 < b.height <= 100_000_000,
    ;
}

/// Tells whether two byte strings are equal.
pub fn same_bytes(a: &Vec<u8>, b: &Vec<u8>) -> (r: bool)
    ensures
        r == (a@ == b@),
{
    equal_bytes(a.as_slice(), b.as_slice())
}

impl Block {
    /// A block without scaling factors.
    pub fn new(label: Vec<u8>, width: i64, height: i64, x: i64, y: i64) -> (b: Block)
        ensures
            b@ == (BlockModel {
                label: label@,
                width: width as int,
                height: height as int,
                x: x as int,
                y: y as int,
                scaling: Seq::empty(),
            }),
    {
        Block { label, width, height, x, y, scaling: Vec::new() }
    }

    /// Tells whether the block is valid.
    pub fn is_valid(&self) -> (r: bool)
        ensures
            r == block_valid(self@),
    {
        0 < self.width && self.width <= MAX_LENGTH && 0 < self.height && self.height <= MAX_LENGTH
            && -MAX_LENGTH <= self.x && self.x <= MAX_LENGTH && -MAX_LENGTH <= self.y && self.y
            <= MAX_LENGTH
    }

    /// The area of the block.
    pub fn area(&self) -> (r: i64)
        requires
            block_valid(self@),
        ensures
            r == block_area(self@),
            0 < r <= MAX_LENGTH * MAX_LENGTH,
    {
        proof {
            lemma_block_area_bounds(self@);
        }
        self.width * self.height
    }

    /// Tells whether this block and `other` cover a common area.
    pub fn overlaps(&self, other: &Block) -> (r: bool)
        requires
            block_valid(self@),
            block_valid(other@),
        ensures
            r == overlapping(self@, other@),
    {
        let ox: i64 = extent_in_common(self.x, self.x + self.width, other.x, other.x + other.width);
        let oy: i64 = extent_in_common(self.y, self.y + self.height, other.y, other.y + other.height);
        ox > 0 && oy > 0
    }

    /// The length of the boundary segment shared with `other`.
    pub fn shared_boundary_with(&self, other: &Block) -> (r: i64)
        requires
            block_valid(self@),
            block_valid(other@),
        ensures
            r == shared_boundary(self@, other@),
            0 <= r <= MAX_LENGTH,
    {
        let ox: i64 = extent_in_common(self.x, self.x + self.width, other.x, other.x + other.width);
        let oy: i64 = extent_in_common(self.y, self.y + self.height, other.y, other.y + other.height);
        let tx = self.x + self.width == other.x || other.x + other.width == self.x;
        let ty = self.y + self.height == other.y || other.y + other.height == self.y;
        if tx && oy > 0 {
            oy
        } else if ty && ox > 0 {
            ox
        } else {
            0
        }
    }

    /// Tells whether this block and `other` share a boundary segment of
    /// nonzero length.
    pub fn is_adjacent_to(&self, other: &Block) -> (r: bool)
        requires
            block_valid(self@),
            block_valid(other@),
        ensures
            r == adjacent(self@, other@),
    {
        self.shared_boundary_with(other) > 0
    }

    /// The square of twice the distance between the centres of this block
    /// and `other`.
    pub fn doubled_distance_squared_to(&self, other: &Block) -> (r: u64)
        requires
            block_valid(self@),
            block_valid(other@),
        ensures
            r == doubled_distance_squared(self@, other@),
            r <= MAX_DISTANCE_SQUARED,
    {
        let dx: i64 = (2 * self.x + self.width) - (2 * other.x + other.width);
        let dy: i64 = (2 * self.y + self.height) - (2 * other.y + other.height);
        proof {
            lemma_distance_bounds(self@, other@);
        }
        (dx * dx + dy * dy) as u64
    }
}

/// A validated floorplan: blocks in the order in which they were declared.
#[derive(Debug)]
pub struct Floorplan {
    blocks: Vec<Block>,
}

impl Floorplan {
    /// The blocks of the floorplan, in order.
    pub closed spec fn view(&self) -> Seq<BlockModel> {
        block_models(self.blocks@)
    }

    /// The floorplan is valid, and its blocks can be counted.
    pub open spec fn wf(&self) -> bool {
        valid_floorplan(self@) && self@.len() <= usize::MAX
    }

    /// Accepts the blocks as a floorplan if every block is valid, no label
    /// occurs twice and no two blocks overlap.
    pub fn new(blocks: Vec<Block>) -> (r: Result<Floorplan, Error>)
        ensures
            match r {
                Ok(f) => f@ == block_models(blocks@) && f.wf(),
                Err(e) => e == Error::GeometryError,
            },
            r is Ok <==> valid_floorplan(block_models(blocks@)),
    {
        let n: usize = blocks.len();
        let ghost models = block_models(blocks@);
        let mut i: usize = 0;
        while i < n
            invariant
                n == blocks.len(),
                models == block_models(blocks@),
                i <= n,
                forall|k: int| 0 <= k < i ==> block_valid(#[trigger] models[k]),
            decreases n - i,
        {
            if !blocks[i].is_valid() {
                assert(!block_valid(models[i as int]));
                return Err(Error::GeometryError);
            }
            assert(block_valid(models[i as int]));
            i += 1;
        }
        let mut i: usize = 0;
        while i < n
            invariant
                n == blocks.len(),
                models == block_models(blocks@),
                i <= n,
                forall|k: int| 0 <= k < n ==> block_valid(#[trigger] models[k]),
                forall|a: int, b: int|
                    0 <= a < b < n && a < i ==> (#[trigger] models[a]).label != (
                    #[trigger] models[b]).label,
                forall|a: int, b: int|
                    0 <= a < b < n && a < i ==> !overlapping(
                        #[trigger] models[a],
                        #[trigger] models[b],
                    ),
            decreases n - i,
        {
            let mut j: usize = i + 1;
            while j < n
                invariant
                    n == blocks.len(),
                    models == block_models(blocks@),
                    i < j <= n,
                    forall|k: int| 0 <= k < n ==> block_valid(#[trigger] models[k]),
                    forall|b: int|
                        i < b < j ==> models[i as int].label != (#[trigger] models[b]).label,
                    forall|b: int| i < b < j ==> !overlapping(models[i as int], #[trigger] models[b]),
                decreases n - j,
            {
                assert(models[i as int] == blocks@[i as int]@ && models[j as int]
                    == blocks@[j as int]@);
                if same_bytes(&blocks[i].label, &blocks[j].label) {
                    assert(models[i as int].label == models[j as int].label);
                    return Err(Error::GeometryError);
                }
                if blocks[i].overlaps(&blocks[j]) {
                    assert(overlapping(models[i as int], models[j as int]));
                    return Err(Error::GeometryError);
                }
                j += 1;
            }
            i += 1;
        }
        Ok(Floorplan { blocks })
    }

    /// The number of blocks.
    pub fn len(&self) -> (n: usize)
        ensures
            n == self@.len(),
    {
        self.blocks.len()
    }

    /// The blocks, in the order in which they were declared.
    pub fn blocks(&self) -> (v: &Vec<Block>)
        ensures
            block_models(v@) == self@,
    {
        &self.blocks
    }

    /// The block at position `i`.
    pub fn block(&self, i: usize) -> (b: &Block)
        requires
            i < self@.len(),
        ensures
            b@ == self@[i as int],
    {
        &self.blocks[i]
    }

    /// The total chip area: the sum of the areas of the blocks.
    pub fn area(&self) -> (a: u128)
        requires
            self.wf(),
        ensures
            a == total_area(self@),
    {
        let n: usize = self.blocks.len();
        let mut sum: u128 = 0;
        let mut i: usize = 0;
        while i < n
            invariant
                n == self.blocks.len(),
                self.wf(),
                i <= n,
                sum == total_area(self@.take(i as int)),
                sum <= i * 10_000_000_000_000_000,
            decreases n - i,
        {
            assert(self@[i as int] == self.blocks@[i as int]@);
            let a: i64 = self.blocks[i].area();
            proof {
                assert(self@.take(i + 1) =~= self@.take(i as int).push(self@[i as int]));
                lemma_total_area_push(self@.take(i as int), self@[i as int]);
            }
            sum = sum + a as u128;
            i += 1;
        }
        assert(self@.take(n as int) =~= self@);
        sum
    }

    /// Tells whether the blocks at positions `i` and `j` share a boundary
    /// segment of nonzero length.
    pub fn adjacent(&self, i: usize, j: usize) -> (r: bool)
        requires
            self.wf(),
            i < self@.len(),
            j < self@.len(),
        ensures
            r == adjacent(self@[i as int], self@[j as int]),
    {
        assert(self@[i as int] == self.blocks@[i as int]@ && self@[j as int]
            == self.blocks@[j as int]@);
        self.blocks[i].is_adjacent_to(&self.blocks[j])
    }

    /// Tells whether a rectangle of `width` by `height` can hold all blocks
    /// as they are laid out.
    pub fn fits_within(&self, width: i64, height: i64) -> (r: bool)
        requires
            self.wf(),
        ensures
            r == fits_within(self@, width as int, height as int),
    {
        let n: usize = self.blocks.len();
        if n == 0 {
            return true;
        }
        let first = &self.blocks[0];
        assert(self@[0] == self.blocks@[0]@);
        let mut left: i64 = first.x;
        let mut right: i64 = first.x + first.width;
        let mut bottom: i64 = first.y;
        let mut top: i64 = first.y + first.height;
        let ghost mut il: int = 0;
        let ghost mut ir: int = 0;
        let ghost mut ib: int = 0;
        let ghost mut it: int = 0;
        let mut i: usize = 1;
        while i < n
            invariant
                n == self.blocks.len(),
                self.wf(),
                1 <= i <= n,
                0 <= il < i && self@[il].x == left,
                0 <= ir < i && self@[ir].x + self@[ir].width == right,
                0 <= ib < i && self@[ib].y == bottom,
                0 <= it < i && self@[it].y + self@[it].height == top,
                forall|k: int|
                    0 <= k < i ==> {
                        &&& left <= (#[trigger] self@[k]).x
                        &&& self@[k].x + self@[k].width <= right
                        &&& bottom <= self@[k].y
                        &&& self@[k].y + self@[k].height <= top
                    },
            decreases n - i,
        {
            let b = &self.blocks[i];
            assert(self@[i as int] == self.blocks@[i as int]@);
            if b.x < left {
                left = b.x;
                proof {
                    il = i as int;
                }
            }
            if b.x + b.width > right {
                right = b.x + b.width;
                proof {
                    ir = i as int;
                }
            }
            if b.y < bottom {
                bottom = b.y;
                proof {
                    ib = i as int;
                }
            }
            if b.y + b.height > top {
                top = b.y + b.height;
                proof {
                    it = i as int;
                }
            }
            i += 1;
        }
        let r = right - left <= width && top - bottom <= height;
        proof {
            if !r {
                if right - left > width {
                    assert(self@[ir].x + self@[ir].width - self@[il].x > width);
                } else {
                    assert(self@[it].y + self@[it].height - self@[ib].y > height);
                    assert(self@[it].x + self@[it].width - self@[ib].x <= width ==> !({
                        &&& self@[it].x + self@[it].width - self@[ib].x <= width
                        &&& self@[it].y + self@[it].height - self@[ib].y <= height
                    }));
                }
            }
        }
        r
    }
}

/// The length that two intervals have in common, negative when they are
/// apart.
fn extent_in_common(lo1: i64, hi1: i64, lo2: i64, hi2: i64) -> (r: i64)
    requires
        -MAX_LENGTH <= lo1 <= hi1 <= 2 * MAX_LENGTH,
        -MAX_LENGTH <= lo2 <= hi2 <= 2 * MAX_LENGTH,
    ensures
        r == overlap_1d(lo1 as int, hi1 as int, lo2 as int, hi2 as int),
        r <= hi1 - lo1,
        r <= hi2 - lo2,
{
    let hi: i64 = if hi1 <= hi2 {
        hi1
    } else {
        hi2
    };
    let lo: i64 = if lo1 >= lo2 {
        lo1
    } else {
        lo2
    };
    hi - lo
}

} // verus!
