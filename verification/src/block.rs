use vstd::prelude::*;
use vstd::arithmetic::div_mod::{
    lemma_fundamental_div_mod, lemma_fundamental_div_mod_converse, lemma_mod_bound,
    lemma_div_pos_is_pos,
};

verus! {

/// An opaque 32-bit block type identifier; zero is the empty block.
#[derive(Clone, Copy, Debug, Default, Hash, Eq, PartialEq, Structural)]
pub struct BlockId(pub u32);

/// A position inside a block grid.
#[derive(Clone, Copy, Debug, Default, Hash, Eq, PartialEq, Structural)]
pub struct BlockCoord {
    pub x: usize,
    pub y: usize,
    pub z: usize,
}

impl BlockCoord {
    /// The position with all coordinates equal to `value`.
    pub fn splat(value: usize) -> (r: Self)
        ensures
            r.x == value,
            r.y == value,
            r.z == value,
    {
        BlockCoord { x: value, y: value, z: value }
    }
}

/// The extent of a block grid; strictly positive when used as bounds.
#[derive(Clone, Copy, Debug, Default, Hash, Eq, PartialEq, Structural)]
pub struct BlockSize {
    pub width: usize,
    pub height: usize,
    pub depth: usize,
}

impl BlockSize {
    /// The extent with all sides equal to `value`.
    pub fn splat(value: usize) -> (r: Self)
        ensures
            r.width == value,
            r.height == value,
            r.depth == value,
    {
        BlockSize { width: value, height: value, depth: value }
    }

    /// How many cells the extent covers.
    pub fn volume(self) -> (r: usize)
        requires
            self.width * self.height <= usize::MAX,
            self.width * self.height * self.depth <= usize::MAX,
        ensures
            r == spec_volume(self),
    {
        let wh: usize = self.width * self.height;
        wh * self.depth
    }
}

/// The cell count of an extent.
pub open spec fn spec_volume(size: BlockSize) -> int {
    size.width * size.height * size.depth
}

/// The linear index where the row at height `y` and depth `z` begins,
/// in a grid of the given depth and width.
pub open spec fn spec_index_base(depth: int, width: int, y: int, z: int) -> int {
    (y * depth + z) * width
}

/// The linear index where the row at height `y` and depth `z` begins.
pub fn get_index_base(depth: usize, width: usize, y: usize, z: usize) -> (r: usize)
    requires
        spec_index_base(depth as int, width as int, y as int, z as int) <= usize::MAX,
        y * depth + z <= usize::MAX,
    ensures
        r == spec_index_base(depth as int, width as int, y as int, z as int),
{
    (y * depth + z) * width
}

/// The width coordinate of linear index `j`.
pub open spec fn spec_x_of(j: int, width: int) -> int {
    j % width
}

/// The depth coordinate of linear index `j`.
pub open spec fn spec_z_of(j: int, width: int, depth: int) -> int {
    (j / width) % depth
}

/// The height coordinate of linear index `j`.
pub open spec fn spec_y_of(j: int, width: int, depth: int) -> int {
    (j / width) / depth
}

/// Whether linear index `j` lies in the box at `offset` of extent
/// `size`, inside a grid bounded by `bounds`.
pub open spec fn spec_in_box(j: int, offset: BlockCoord, size: BlockSize, bounds: BlockSize) -> bool {
    let x = spec_x_of(j, bounds.width as int);
    let z = spec_z_of(j, bounds.width as int, bounds.depth as int);
    let y = spec_y_of(j, bounds.width as int, bounds.depth as int);
    &&& offset.x <= x < offset.x + size.width
    &&& offset.z <= z < offset.z + size.depth
    &&& offset.y <= y < offset.y + size.height
}

/// Whether linear index `j` lies in the box and strictly before the
/// relative position `(y, z, x)` in row-major (y, z, x) order.
pub open spec fn spec_box_prefix(
    j: int,
    offset: BlockCoord,
    size: BlockSize,
    bounds: BlockSize,
    y: int,
    z: int,
    x: int,
) -> bool {
    let jx = spec_x_of(j, bounds.width as int) - offset.x;
    let jz = spec_z_of(j, bounds.width as int, bounds.depth as int) - offset.z;
    let jy = spec_y_of(j, bounds.width as int, bounds.depth as int) - offset.y;
    &&& spec_in_box(j, offset, size, bounds)
    &&& (jy < y || (jy == y && (jz < z || (jz == z && jx < x))))
}

/// The coordinates of a row cell: the linear index
/// `(y * depth + z) * width + x` decomposes back into `x`, `z`, `y`.
pub proof fn lemma_row_coords(width: int, depth: int, y: int, z: int, x: int)
    requires
        width >= 1,
        depth >= 1,
        0 <= x < width,
        0 <= z < depth,
        0 <= y,
    ensures
        spec_x_of(spec_index_base(depth, width, y, z) + x, width) == x,
        spec_z_of(spec_index_base(depth, width, y, z) + x, width, depth) == z,
        spec_y_of(spec_index_base(depth, width, y, z) + x, width, depth) == y,
        spec_index_base(depth, width, y, z) + x >= 0,
{
    let row = y * depth + z;
    let j = row * width + x;
    assert(row >= 0 && j == width * row + x && row * width >= 0) by (nonlinear_arith)
        requires
            y >= 0,
            depth >= 1,
            0 <= z < depth,
            width >= 1,
            0 <= x,
            row == y * depth + z,
            j == row * width + x,
    ;
    lemma_fundamental_div_mod_converse(j, width, row, x);
    assert(row == depth * y + z) by (nonlinear_arith)
        requires
            row == y * depth + z,
    ;
    lemma_fundamental_div_mod_converse(row, depth, y, z);
}

/// A linear index recomposes from its coordinates, which lie inside
/// the grid's width and depth.
pub proof fn lemma_index_recompose(j: int, width: int, depth: int)
    requires
        width >= 1,
        depth >= 1,
        j >= 0,
    ensures
        j == spec_index_base(depth, width, spec_y_of(j, width, depth), spec_z_of(j, width, depth))
            + spec_x_of(j, width),
        0 <= spec_x_of(j, width) < width,
        0 <= spec_z_of(j, width, depth) < depth,
        0 <= spec_y_of(j, width, depth),
{
    lemma_fundamental_div_mod(j, width);
    lemma_mod_bound(j, width);
    lemma_div_pos_is_pos(j, width);
    let q = j / width;
    lemma_fundamental_div_mod(q, depth);
    lemma_mod_bound(q, depth);
    lemma_div_pos_is_pos(q, depth);
    let y = spec_y_of(j, width, depth);
    let z = spec_z_of(j, width, depth);
    let x = spec_x_of(j, width);
    assert(q == depth * y + z);
    assert((y * depth + z) * width == width * (depth * y + z)) by (nonlinear_arith);
    assert(j == width * q + x);
}

/// Two linear indices with equal coordinates are equal.
pub proof fn lemma_coords_unique(j1: int, j2: int, width: int, depth: int)
    requires
        width >= 1,
        depth >= 1,
        j1 >= 0,
        j2 >= 0,
        spec_x_of(j1, width) == spec_x_of(j2, width),
        spec_z_of(j1, width, depth) == spec_z_of(j2, width, depth),
        spec_y_of(j1, width, depth) == spec_y_of(j2, width, depth),
    ensures
        j1 == j2,
{
    lemma_index_recompose(j1, width, depth);
    lemma_index_recompose(j2, width, depth);
}

/// Set every cell of the box at `offset` of extent `size` to `value`,
/// inside the grid `dst` bounded by `dst_bounds`; cells outside the box
/// are unchanged.
pub fn fill<T: Copy>(
    offset: BlockCoord,
    size: BlockSize,
    value: T,
    dst_bounds: BlockSize,
    dst: &mut Vec<T>,
)
    requires
        dst_bounds.width >= 1,
        dst_bounds.depth >= 1,
        offset.x + size.width <= dst_bounds.width,
        offset.y + size.height <= dst_bounds.height,
        offset.z + size.depth <= dst_bounds.depth,
        spec_volume(dst_bounds) <= old(dst)@.len(),
        old(dst)@.len() <= usize::MAX,
    ensures
        final(dst)@ =~= Seq::new(
            old(dst)@.len(),
            |j: int|
                if spec_in_box(j, offset, size, dst_bounds) {
                    value
                } else {
                    old(dst)@[j]
                },
        ),
{
    let mut y: usize = 0;
    while y < size.height
        invariant
            dst_bounds.width >= 1,
            dst_bounds.depth >= 1,
            offset.x + size.width <= dst_bounds.width,
            offset.y + size.height <= dst_bounds.height,
            offset.z + size.depth <= dst_bounds.depth,
            spec_volume(dst_bounds) <= old(dst)@.len(),
            old(dst)@.len() <= usize::MAX,
            y <= size.height,
            dst@.len() == old(dst)@.len(),
            dst@ =~= Seq::new(
                old(dst)@.len(),
                |j: int|
                    if spec_box_prefix(j, offset, size, dst_bounds, y as int, 0, 0) {
                        value
                    } else {
                        old(dst)@[j]
                    },
            ),
        decreases size.height - y,
    {
        fill_layer(offset, size, value, dst_bounds, dst, y);
        y = y + 1;
    }
    proof {
        assert forall|j: int| 0 <= j < old(dst)@.len() implies (spec_box_prefix(
            j,
            offset,
            size,
            dst_bounds,
            size.height as int,
            0,
            0,
        ) == spec_in_box(j, offset, size, dst_bounds)) by {}
    }
}

/// Fill one horizontal layer of the box: every row of the layer at
/// relative height `y`.
fn fill_layer<T: Copy>(
    offset: BlockCoord,
    size: BlockSize,
    value: T,
    dst_bounds: BlockSize,
    dst: &mut Vec<T>,
    y: usize,
)
    requires
        dst_bounds.width >= 1,
        dst_bounds.depth >= 1,
        offset.x + size.width <= dst_bounds.width,
        offset.y + size.height <= dst_bounds.height,
        offset.z + size.depth <= dst_bounds.depth,
        spec_volume(dst_bounds) <= old(dst)@.len(),
        old(dst)@.len() <= usize::MAX,
        y < size.height,
    ensures
        final(dst)@.len() == old(dst)@.len(),
        final(dst)@ =~= Seq::new(
            old(dst)@.len(),
            |j: int|
                if spec_box_prefix(
                    j,
                    offset,
                    size,
                    dst_bounds,
                    y as int,
                    size.depth as int,
                    0,
                ) && !spec_box_prefix(j, offset, size, dst_bounds, y as int, 0, 0) {
                    value
                } else {
                    old(dst)@[j]
                },
        ),
{
    let mut z: usize = 0;
    while z < size.depth
        invariant
            dst_bounds.width >= 1,
            dst_bounds.depth >= 1,
            offset.x + size.width <= dst_bounds.width,
            offset.y + size.height <= dst_bounds.height,
            offset.z + size.depth <= dst_bounds.depth,
            spec_volume(dst_bounds) <= old(dst)@.len(),
            old(dst)@.len() <= usize::MAX,
            y < size.height,
            z <= size.depth,
            dst@.len() == old(dst)@.len(),
            dst@ =~= Seq::new(
                old(dst)@.len(),
                |j: int|
                    if spec_box_prefix(j, offset, size, dst_bounds, y as int, z as int, 0)
                        && !spec_box_prefix(j, offset, size, dst_bounds, y as int, 0, 0) {
                        value
                    } else {
                        old(dst)@[j]
                    },
            ),
        decreases size.depth - z,
    {
        fill_row(offset, size, value, dst_bounds, dst, y, z);
        z = z + 1;
    }
}

/// Fill one row of the box: the cells of the row at relative height
/// `y` and relative depth `z`.
fn fill_row<T: Copy>(
    offset: BlockCoord,
    size: BlockSize,
    value: T,
    dst_bounds: BlockSize,
    dst: &mut Vec<T>,
    y: usize,
    z: usize,
)
    requires
        dst_bounds.width >= 1,
        dst_bounds.depth >= 1,
        offset.x + size.width <= dst_bounds.width,
        offset.y + size.height <= dst_bounds.height,
        offset.z + size.depth <= dst_bounds.depth,
        spec_volume(dst_bounds) <= old(dst)@.len(),
        old(dst)@.len() <= usize::MAX,
        y < size.height,
        z < size.depth,
    ensures
        final(dst)@.len() == old(dst)@.len(),
        final(dst)@ =~= Seq::new(
            old(dst)@.len(),
            |j: int|
                if spec_box_prefix(
                    j,
                    offset,
                    size,
                    dst_bounds,
                    y as int,
                    z as int + 1,
                    0,
                ) && !spec_box_prefix(j, offset, size, dst_bounds, y as int, z as int, 0) {
                    value
                } else {
                    old(dst)@[j]
                },
        ),
{
    let ghost w_i = dst_bounds.width as int;
    let ghost d_i = dst_bounds.depth as int;
    proof {
        lemma_base_bounds(offset, size, dst_bounds, y as int, z as int);
    }
    let base: usize = get_index_base(dst_bounds.depth, dst_bounds.width, offset.y + y, offset.z + z)
        + offset.x;
    let mut x: usize = 0;
    while x < size.width
        invariant
            dst_bounds.width >= 1,
            dst_bounds.depth >= 1,
            offset.x + size.width <= dst_bounds.width,
            offset.y + size.height <= dst_bounds.height,
            offset.z + size.depth <= dst_bounds.depth,
            spec_volume(dst_bounds) <= old(dst)@.len(),
            old(dst)@.len() <= usize::MAX,
            y < size.height,
            z < size.depth,
            x <= size.width,
            base == spec_index_base(
                dst_bounds.depth as int,
                dst_bounds.width as int,
                offset.y + y,
                offset.z + z,
            ) + offset.x,
            base + size.width <= old(dst)@.len(),
            dst@.len() == old(dst)@.len(),
            forall|j: int|
                0 <= j < old(dst)@.len() && !(base <= j < base + x) ==> dst@[j] == old(dst)@[j],
            forall|j: int| base <= j < base + x ==> dst@[j] == value,
        decreases size.width - x,
    {
        dst[base + x] = value;
        x = x + 1;
    }
    proof {
        assert forall|j: int| 0 <= j < old(dst)@.len() implies #[trigger] dst@[j] == (if
        spec_box_prefix(j, offset, size, dst_bounds, y as int, z as int + 1, 0)
            && !spec_box_prefix(j, offset, size, dst_bounds, y as int, z as int, 0) {
            value
        } else {
            old(dst)@[j]
        }) by {
            lemma_index_recompose(j, w_i, d_i);
            if base <= j < base + size.width {
                lemma_row_coords(
                    w_i,
                    d_i,
                    offset.y + y,
                    offset.z + z,
                    j - spec_index_base(d_i, w_i, offset.y + y, offset.z + z),
                );
            } else {
                if spec_box_prefix(j, offset, size, dst_bounds, y as int, z as int + 1, 0)
                    && !spec_box_prefix(j, offset, size, dst_bounds, y as int, z as int, 0) {
                    lemma_row_coords(
                        w_i,
                        d_i,
                        offset.y + y,
                        offset.z + z,
                        spec_x_of(j, w_i),
                    );
                    lemma_coords_unique(
                        j,
                        spec_index_base(d_i, w_i, offset.y + y, offset.z + z) + spec_x_of(j, w_i),
                        w_i,
                        d_i,
                    );
                }
            }
        }
    }
}

/// A row of the box lies inside the grid: its base index and width fit
/// the grid's cell count.
pub proof fn lemma_base_bounds(
    offset: BlockCoord,
    size: BlockSize,
    bounds: BlockSize,
    y: int,
    z: int,
)
    requires
        bounds.width >= 1,
        bounds.depth >= 1,
        offset.x + size.width <= bounds.width,
        offset.y + size.height <= bounds.height,
        offset.z + size.depth <= bounds.depth,
        0 <= y < size.height,
        0 <= z < size.depth,
    ensures
        0 <= spec_index_base(bounds.depth as int, bounds.width as int, offset.y + y, offset.z + z),
        spec_index_base(bounds.depth as int, bounds.width as int, offset.y + y, offset.z + z)
            + offset.x + size.width <= spec_volume(bounds),
        (offset.y + y) * (bounds.depth as int) + offset.z + z >= 0,
        (offset.y + y) * (bounds.depth as int) + offset.z + z <= spec_volume(bounds),
{
    let w = bounds.width as int;
    let d = bounds.depth as int;
    let h = bounds.height as int;
    let yy = offset.y + y;
    let zz = offset.z + z;
    assert((yy * d + zz) * w + w <= h * d * w && yy * d + zz >= 0 && (yy * d + zz) * w >= 0 && yy
        * d + zz <= h * d && h * d <= h * d * w && w * h * d == h * d * w) by (nonlinear_arith)
        requires
            w >= 1,
            d >= 1,
            0 <= yy < h,
            0 <= zz < d,
    ;
}

} // verus!
