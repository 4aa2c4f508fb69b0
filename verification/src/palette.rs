use vstd::prelude::*;
use vstd::arithmetic::power2::{pow2, lemma_pow2_pos, lemma_pow2_strictly_increases, lemma_pow2_unfold};
use crate::block::{BlockCoord, BlockId, BlockSize};
use crate::index_map::IndexMap;
use crate::order::{PackOrder, VarPackOrder};
use crate::pack_vec::PackVec;
use crate::part::{mask_spec, PartSize};

verus! {

/// The chunk's extent along x.
pub const CHUNK_WIDTH: usize = 16;

/// The chunk's extent along y.
pub const CHUNK_HEIGHT: usize = 16;

/// The chunk's extent along z.
pub const CHUNK_DEPTH: usize = 16;

/// The chunk's cell count.
pub const CHUNK_VOLUME: usize = 4096;

/// The storage width for a palette of `count` entries: the smallest
/// bit count whose range covers all `count` dense indices, at least 1.
pub open spec fn spec_storage_bits(count: int) -> int
    recommends
        count >= 0,
    decreases count,
{
    if count <= 2 {
        1
    } else {
        1 + spec_storage_bits((count + 1) / 2)
    }
}

/// The storage width covers the palette and is minimal.
pub proof fn lemma_storage_bits_covers(count: int)
    requires
        count >= 0,
    ensures
        1 <= spec_storage_bits(count),
        count <= pow2(spec_storage_bits(count) as nat),
        count > 2 ==> count > pow2((spec_storage_bits(count) - 1) as nat),
    decreases count,
{
    vstd::arithmetic::power2::lemma2_to64();
    if count > 2 {
        let half = (count + 1) / 2;
        vstd::arithmetic::div_mod::lemma_fundamental_div_mod(count + 1, 2);
        vstd::arithmetic::div_mod::lemma_mod_bound(count + 1, 2);
        assert(count <= 2 * half && 2 * half <= count + 1);
        lemma_storage_bits_covers(half);
        let hb = spec_storage_bits(half);
        lemma_pow2_unfold((hb + 1) as nat);
        lemma_pow2_pos(hb as nat);
        assert(count <= 2 * pow2(hb as nat));
        if half <= 2 {
            assert(hb == 1);
            assert(pow2(1nat) == 2);
        } else {
            lemma_pow2_unfold(hb as nat);
            lemma_pow2_pos((hb - 1) as nat);
            assert(half > pow2((hb - 1) as nat));
            assert(2 * half >= pow2(hb as nat) + 2);
            assert(count >= 2 * half - 1);
        }
    }
}

/// No smaller width covers the palette: any covering width is at least
/// the storage width.
pub proof fn lemma_storage_bits_minimal(count: int, b: int)
    requires
        count >= 0,
        b >= 1,
        count <= pow2(b as nat),
    ensures
        spec_storage_bits(count) <= b,
{
    let sb = spec_storage_bits(count);
    lemma_storage_bits_covers(count);
    if sb > b {
        if count <= 2 {
        } else {
            lemma_pow2_strictly_increases(b as nat, sb as nat);
            if b < sb - 1 {
                lemma_pow2_strictly_increases(b as nat, (sb - 1) as nat);
            }
            assert(pow2(b as nat) <= pow2((sb - 1) as nat));
            assert(count > pow2((sb - 1) as nat));
        }
    }
}

/// The storage width grows with the palette.
pub proof fn lemma_storage_bits_monotone(c1: int, c2: int)
    requires
        0 <= c1 <= c2,
    ensures
        spec_storage_bits(c1) <= spec_storage_bits(c2),
{
    lemma_storage_bits_covers(c1);
    lemma_storage_bits_covers(c2);
    lemma_storage_bits_minimal(c1, spec_storage_bits(c2));
}

/// A value below `2^v` is unchanged by the width-`v` mask.
pub proof fn lemma_small_value_masked(x: u64, v: u64)
    requires
        1 <= v <= 64,
        x < pow2(v as nat),
    ensures
        x & mask_spec(v) == x,
{
    if v < 64 {
        vstd::bits::lemma_u64_pow2_no_overflow(v as nat);
        vstd::bits::lemma_u64_shl_is_mul(1u64, v);
        assert(x < (1u64 << v) ==> x & (((1u64 << v) - 1) as u64) == x) by (bit_vector)
            requires
                v < 64,
        ;
    } else {
        vstd::arithmetic::power2::lemma2_to64_rest();
        assert(x & 0xffff_ffff_ffff_ffffu64 == x) by (bit_vector);
    }
}

/// The smallest width whose range covers a palette of `count` entries.
pub fn get_storage_bits_for_palette(count: usize) -> (r: PartSize)
    requires
        count <= 0x1_0000_0000,
    ensures
        r@ == spec_storage_bits(count as int),
        r@ <= 33,
{
    let mut bits: usize = 1;
    let mut cap: u64 = 2;
    proof {
        vstd::arithmetic::power2::lemma2_to64();
    }
    while cap < count as u64
        invariant
            count <= 0x1_0000_0000,
            1 <= bits <= 33,
            cap == pow2(bits as nat),
            bits > 1 ==> count > pow2((bits - 1) as nat),
            cap <= 0x2_0000_0000,
        decreases 34 - bits,
    {
        proof {
            lemma_pow2_unfold((bits + 1) as nat);
            lemma_pow2_pos(bits as nat);
            if bits >= 33 {
                vstd::arithmetic::power2::lemma2_to64_rest();
                if bits > 33 {
                    lemma_pow2_strictly_increases(33, bits as nat);
                }
            }
        }
        bits = bits + 1;
        cap = cap * 2;
    }
    proof {
        lemma_storage_bits_minimal(count as int, bits as int);
        lemma_storage_bits_covers(count as int);
        let sb = spec_storage_bits(count as int);
        if bits > 1 && sb < bits {
            if sb < bits - 1 {
                lemma_pow2_strictly_increases(sb as nat, (bits - 1) as nat);
            }
            assert(count as int <= pow2((bits - 1) as nat));
        }
    }
    PartSize::new(bits).unwrap()
}

/// A chunk-sized block store: an insertion-ordered palette of block
/// identifiers beside a packed vector of palette indices, one per
/// cell, at the smallest width that covers the palette.
pub struct ChunkPalette {
    indices: IndexMap,
    data: PackVec<VarPackOrder>,
}

impl View for ChunkPalette {
    type V = Seq<BlockId>;

    /// The store viewed as the block held at each of the chunk's cells.
    open spec fn view(&self) -> Seq<BlockId> {
        Seq::new(
            CHUNK_VOLUME as nat,
            |o: int| self.spec_indices()@[self.spec_data()@[o] as int],
        )
    }
}

impl ChunkPalette {
    /// The palette of block identifiers.
    pub closed spec fn spec_indices(&self) -> IndexMap {
        self.indices
    }

    /// The packed per-cell palette indices.
    pub closed spec fn spec_data(&self) -> PackVec<VarPackOrder> {
        self.data
    }

    /// Well-formed: palette and index vector are consistent — one
    /// index per cell, every index naming a palette entry, and the
    /// vector packed at the palette's storage width.
    pub open spec fn wf(&self) -> bool {
        &&& self.spec_indices().wf()
        &&& 1 <= self.spec_indices()@.len()
        &&& self.spec_data().wf()
        &&& self.spec_data()@.len() == CHUNK_VOLUME
        &&& self.spec_data().spec_value_bits() == spec_storage_bits(
            self.spec_indices()@.len() as int,
        )
        &&& forall|o: int|
            0 <= o < CHUNK_VOLUME ==> #[trigger] self.spec_data()@[o]
                < self.spec_indices()@.len()
    }

    /// A store of all-empty cells: the palette holds the empty block
    /// at index zero, and every cell refers to it.
    pub fn new() -> (r: Self)
        ensures
            r.wf(),
            r@ =~= Seq::new(CHUNK_VOLUME as nat, |o: int| BlockId(0)),
            r.spec_indices()@ =~= seq![BlockId(0)],
    {
        Self::filled(BlockId(0))
    }

    /// A store with every cell holding `value`: the palette holds it
    /// at index zero.
    pub fn filled(value: BlockId) -> (r: Self)
        ensures
            r.wf(),
            r@ =~= Seq::new(CHUNK_VOLUME as nat, |o: int| value),
            r.spec_indices()@ =~= seq![value],
    {
        let mut indices = IndexMap::new();
        indices.index_or_add(value);
        let mut data = PackVec::new_var(PartSize::new(1).unwrap());
        data.extend_with(CHUNK_VOLUME, 0);
        proof {
            assert(mask_spec(1) == 1) by (bit_vector);
            assert(0u64 & 1 == 0) by (bit_vector);
        }
        ChunkPalette { indices, data }
    }

    /// How many cells the store has along each axis.
    pub fn width(&self) -> (r: usize)
        ensures
            r == CHUNK_WIDTH,
    {
        CHUNK_WIDTH
    }

    pub fn height(&self) -> (r: usize)
        ensures
            r == CHUNK_HEIGHT,
    {
        CHUNK_HEIGHT
    }

    pub fn depth(&self) -> (r: usize)
        ensures
            r == CHUNK_DEPTH,
    {
        CHUNK_DEPTH
    }

    /// How many block identifiers the palette holds.
    pub fn palette_len(&self) -> (r: usize)
        ensures
            r == self.spec_indices()@.len(),
    {
        self.indices.len()
    }

    /// The bit width the index vector currently packs at.
    pub fn storage_value_bits(&self) -> (r: usize)
        requires
            self.wf(),
        ensures
            r == spec_storage_bits(self.spec_indices()@.len() as int),
    {
        self.data.order().value_bits().get()
    }

    /// The linear cell index of the coordinates `(x, y, z)`.
    pub fn get_offset(&self, x: usize, y: usize, z: usize) -> (r: usize)
        requires
            x < CHUNK_WIDTH,
            y < CHUNK_HEIGHT,
            z < CHUNK_DEPTH,
        ensures
            r == crate::block::spec_index_base(
                CHUNK_DEPTH as int,
                CHUNK_WIDTH as int,
                y as int,
                z as int,
            ) + x,
            r < CHUNK_VOLUME,
    {
        crate::block::get_index_base(CHUNK_DEPTH, CHUNK_WIDTH, y, z) + x
    }

    /// The block a cell holds: present exactly when the cell index is
    /// inside the chunk.
    pub fn get_at(&self, offset: usize) -> (r: Option<BlockId>)
        requires
            self.wf(),
        ensures
            offset < CHUNK_VOLUME ==> r == Some(self@[offset as int]),
            offset >= CHUNK_VOLUME ==> r is None,
    {
        match self.data.get(offset) {
            Some(index) => {
                proof {
                    assert(self.spec_data()@[offset as int] < self.spec_indices()@.len());
                }
                Some(self.indices.value(index as u32).unwrap())
            },
            None => None,
        }
    }

    /// The palette index of `value`, adding it to the palette when
    /// absent — rebuilding the index vector at a wider width first when
    /// the palette outgrows the old one. The blocks held by the cells
    /// are unchanged, through any resize.
    pub fn get_or_add_index(&mut self, value: BlockId) -> (r: (u32, bool))
        requires
            old(self).wf(),
            old(self).spec_indices()@.len() < u32::MAX,
        ensures
            final(self).wf(),
            final(self)@ =~= old(self)@,
            final(self).spec_data()@ =~= old(self).spec_data()@,
            r.0 < final(self).spec_indices()@.len(),
            final(self).spec_indices()@[r.0 as int] == value,
            r.1 == !old(self).spec_indices()@.contains(value),
            !r.1 ==> final(self).spec_indices()@ == old(self).spec_indices()@,
            r.1 ==> final(self).spec_indices()@ =~= old(self).spec_indices()@.push(value)
                && r.0 == old(self).spec_indices()@.len(),
    {
        let count: usize = self.indices.len();
        let bits_needed: PartSize = get_storage_bits_for_palette(count + 1);
        match self.indices.index(&value) {
            Some(i) => {
                proof {
                    assert(old(self).spec_indices()@.contains(value));
                }
                (i, false)
            },
            None => {
                if self.data.order().value_bits().get() != bits_needed.get() {
                    let ghost old_data = self.data;
                    let new_data = resize_storage(&self.data, bits_needed);
                    proof {
                        lemma_storage_bits_covers(count as int);
                        lemma_storage_bits_monotone(count as int, count as int + 1);
                        assert forall|o: int| 0 <= o < CHUNK_VOLUME implies old_data@[o] < pow2(
                            spec_storage_bits(count as int) as nat,
                        ) by {
                            assert(old_data@[o] < self.spec_indices()@.len());
                        }
                        lemma_width_growth_preserves(
                            old_data@,
                            spec_storage_bits(count as int) as u64,
                            bits_needed@,
                        );
                        assert(new_data@ =~= old_data@);
                    }
                    self.data = new_data;
                }
                let (idx, _) = self.indices.index_or_add(value);
                proof {
                    assert forall|o: int| 0 <= o < CHUNK_VOLUME implies self@[o] == old(
                        self,
                    )@[o] by {
                        assert(old(self).spec_data()@[o] < old(self).spec_indices()@.len());
                    }
                }
                (idx, true)
            },
        }
    }

    /// Write the palette index of `value` at a cell, adding it to the
    /// palette when absent; the flag tells whether the cell's block
    /// changed. Absent exactly when the cell index is outside the
    /// chunk (the palette may still have grown).
    pub fn set_at(&mut self, offset: usize, value: BlockId) -> (r: Option<bool>)
        requires
            old(self).wf(),
            old(self).spec_indices()@.len() < u32::MAX,
        ensures
            final(self).wf(),
            offset < CHUNK_VOLUME ==> r == Some(old(self)@[offset as int] != value)
                && final(self)@ =~= old(self)@.update(offset as int, value),
            offset >= CHUNK_VOLUME ==> r is None && final(self)@ =~= old(self)@,
            old(self).spec_indices()@.contains(value) ==> final(self).spec_indices()@ == old(
                self,
            ).spec_indices()@,
            !old(self).spec_indices()@.contains(value) ==> final(self).spec_indices()@ =~= old(
                self,
            ).spec_indices()@.push(value),
    {
        let (index, _) = self.get_or_add_index(value);
        let ghost mid = *self;
        proof {
            let n = self.spec_indices()@.len() as int;
            lemma_storage_bits_covers(n);
            vstd::arithmetic::power2::lemma2_to64();
            lemma_storage_bits_minimal(n, 32);
            lemma_small_value_masked(index as u64, self.spec_data().spec_value_bits());
        }
        match self.data.set(offset, index as u64) {
            Some(prev_index) => {
                proof {
                    let o = offset as int;
                    assert(mid.spec_data()@[o] < mid.spec_indices()@.len());
                    assert(prev_index == mid.spec_data()@[o]);
                    assert(old(self)@[o] == mid.spec_indices()@[prev_index as int]);
                    if prev_index == index {
                        assert(old(self)@[o] == value);
                    } else {
                        if mid.spec_indices()@[prev_index as int] == mid.spec_indices()@[
                            index as int
                        ] {
                            assert(mid.spec_indices().spec_map().contains_key(
                                mid.spec_indices()@[prev_index as int].0,
                            ));
                        }
                        assert(old(self)@[o] != value);
                    }
                    assert forall|o2: int|
                        0 <= o2 < CHUNK_VOLUME && o2 != o implies self@[o2] == old(
                        self,
                    )@[o2] by {
                        assert(mid.spec_data()@[o2] < mid.spec_indices()@.len());
                    }
                }
                Some(prev_index != index as u64)
            },
            None => {
                proof {
                    assert(self@ =~= mid@);
                }
                None
            },
        }
    }

    /// Set a linear run of cells to the palette entry at
    /// `palette_idx`; cells outside the run are unchanged.
    pub fn fill_contiguous_blocks(&mut self, dst_idx: usize, len: usize, palette_idx: u32)
        requires
            old(self).wf(),
            dst_idx + len <= CHUNK_VOLUME,
            palette_idx < old(self).spec_indices()@.len(),
        ensures
            final(self).wf(),
            final(self).spec_indices() == old(self).spec_indices(),
            final(self)@ =~= Seq::new(
                CHUNK_VOLUME as nat,
                |o: int|
                    if dst_idx <= o < dst_idx + len {
                        old(self).spec_indices()@[palette_idx as int]
                    } else {
                        old(self)@[o]
                    },
            ),
    {
        proof {
            let n = self.spec_indices()@.len() as int;
            lemma_storage_bits_covers(n);
            vstd::arithmetic::power2::lemma2_to64();
            lemma_storage_bits_minimal(n, 32);
            lemma_small_value_masked(palette_idx as u64, self.spec_data().spec_value_bits());
        }
        let full = self.data.as_span_mut();
        let window = full.cut(dst_idx, dst_idx + len);
        proof {
            full.lemma_cut_wf(dst_idx as int, dst_idx as int + len);
        }
        window.fill(&mut self.data, palette_idx as u64);
        proof {
            assert forall|o: int| 0 <= o < CHUNK_VOLUME implies #[trigger] self.spec_data()@[o]
                == (if dst_idx <= o < dst_idx + len {
                palette_idx as u64
            } else {
                old(self).spec_data()@[o]
            }) by {}
        }
    }
}

/// Palette consistency law: in a well-formed store — as every
/// operation leaves it — each cell's block maps back, through the
/// palette, to exactly the index packed for that cell.
pub proof fn lemma_palette_consistent(p: &ChunkPalette)
    requires
        p.wf(),
    ensures
        forall|o: int|
            0 <= o < CHUNK_VOLUME ==> #[trigger] p.spec_indices().spec_map().contains_key(
                p@[o].0,
            ) && p.spec_indices().spec_map()[p@[o].0] == p.spec_data()@[o],
{
    assert forall|o: int| 0 <= o < CHUNK_VOLUME implies #[trigger] p.spec_indices()
        .spec_map()
        .contains_key(p@[o].0) && p.spec_indices().spec_map()[p@[o].0] == p.spec_data()@[o] by {
        assert(p.spec_data()@[o] < p.spec_indices()@.len());
        let idx = p.spec_data()@[o] as int;
        assert(0 <= idx < p.spec_indices()@.len());
        assert(p@[o] == p.spec_indices()@[idx]);
        assert(p.spec_indices().spec_map().contains_key(p.spec_indices()@[idx].0));
        assert(p.spec_indices().spec_map()[p.spec_indices()@[idx].0] == idx);
    }
}

/// Resize law: when a palette resize widens the storage, every value
/// below the old width's range survives the rebuild exactly, so every
/// cell reads back unchanged.
pub proof fn lemma_width_growth_preserves(values: Seq<u64>, v1: u64, v2: u64)
    requires
        1 <= v1 <= v2 <= 64,
        forall|j: int| 0 <= j < values.len() ==> values[j] < pow2(v1 as nat),
    ensures
        Seq::new(values.len(), |j: int| values[j] & mask_spec(v2)) =~= values,
{
    assert forall|j: int| 0 <= j < values.len() implies values[j] & mask_spec(v2)
        == values[j] by {
        lemma_pow2_strictly_increases_or_eq(v1 as nat, v2 as nat);
        lemma_small_value_masked(values[j], v2);
    }
}

/// Rebuild a packed vector at the width `value_bits`, copying every
/// value across (truncated to the new width).
pub fn resize_storage(data: &PackVec<VarPackOrder>, value_bits: PartSize) -> (r: PackVec<
    VarPackOrder,
>)
    requires
        data.wf(),
        crate::part::fits_len(data@.len() as int),
    ensures
        r.wf(),
        r.spec_value_bits() == value_bits@,
        r@ =~= Seq::new(data@.len(), |i: int| data@[i] & mask_spec(value_bits@)),
{
    let order = VarPackOrder::new(value_bits);
    let mut new_storage: PackVec<VarPackOrder> = PackVec::with_capacity(data.len(), order);
    new_storage.extend_with(data.len(), 0);
    let src_span = data.as_span();
    let dst_span = new_storage.as_span_mut();
    src_span.copy_to(&dst_span, &mut new_storage);
    new_storage
}

/// Two powers of two compare as their exponents do.
proof fn lemma_pow2_strictly_increases_or_eq(e1: nat, e2: nat)
    requires
        e1 <= e2,
    ensures
        pow2(e1) <= pow2(e2),
{
    if e1 < e2 {
        lemma_pow2_strictly_increases(e1, e2);
    }
}

/// The chunk's bounds as a block extent.
pub open spec fn spec_chunk_bounds() -> BlockSize {
    BlockSize { width: CHUNK_WIDTH as usize, height: CHUNK_HEIGHT as usize, depth: CHUNK_DEPTH as usize }
}

impl ChunkPalette {
    /// Fill one row of the box at relative height `y` and depth `z`
    /// with the palette entry at `palette_idx`.
    fn fill_block_row(&mut self, offset: BlockCoord, size: BlockSize, palette_idx: u32, y: usize, z: usize)
        requires
            old(self).wf(),
            offset.x + size.width <= CHUNK_WIDTH,
            offset.y + size.height <= CHUNK_HEIGHT,
            offset.z + size.depth <= CHUNK_DEPTH,
            palette_idx < old(self).spec_indices()@.len(),
            y < size.height,
            z < size.depth,
        ensures
            final(self).wf(),
            final(self).spec_indices() == old(self).spec_indices(),
            final(self)@ =~= Seq::new(
                CHUNK_VOLUME as nat,
                |j: int|
                    if crate::block::spec_box_prefix(
                        j,
                        offset,
                        size,
                        spec_chunk_bounds(),
                        y as int,
                        z as int + 1,
                        0,
                    ) && !crate::block::spec_box_prefix(
                        j,
                        offset,
                        size,
                        spec_chunk_bounds(),
                        y as int,
                        z as int,
                        0,
                    ) {
                        old(self).spec_indices()@[palette_idx as int]
                    } else {
                        old(self)@[j]
                    },
            ),
    {
        let ghost w_i = CHUNK_WIDTH as int;
        let ghost d_i = CHUNK_DEPTH as int;
        if size.width == 0 {
            proof {
                assert(self@ =~= Seq::new(
                    CHUNK_VOLUME as nat,
                    |j: int|
                        if crate::block::spec_box_prefix(
                            j,
                            offset,
                            size,
                            spec_chunk_bounds(),
                            y as int,
                            z as int + 1,
                            0,
                        ) && !crate::block::spec_box_prefix(
                            j,
                            offset,
                            size,
                            spec_chunk_bounds(),
                            y as int,
                            z as int,
                            0,
                        ) {
                            old(self).spec_indices()@[palette_idx as int]
                        } else {
                            old(self)@[j]
                        },
                ));
            }
            return ;
        }
        proof {
            crate::block::lemma_base_bounds(
                offset,
                size,
                spec_chunk_bounds(),
                y as int,
                z as int,
            );
        }
        let base: usize = self.get_offset(offset.x, offset.y + y, offset.z + z);
        self.fill_contiguous_blocks(base, size.width, palette_idx);
        proof {
            let bounds = spec_chunk_bounds();
            let rowbase = crate::block::spec_index_base(d_i, w_i, offset.y + y, offset.z + z);
            assert forall|j: int| 0 <= j < CHUNK_VOLUME implies #[trigger] self@[j] == (if
            crate::block::spec_box_prefix(j, offset, size, bounds, y as int, z as int + 1, 0)
                && !crate::block::spec_box_prefix(j, offset, size, bounds, y as int, z as int, 0) {
                old(self).spec_indices()@[palette_idx as int]
            } else {
                old(self)@[j]
            }) by {
                crate::block::lemma_index_recompose(j, w_i, d_i);
                if base <= j < base + size.width {
                    crate::block::lemma_row_coords(w_i, d_i, offset.y + y, offset.z + z, j - rowbase);
                } else {
                    if crate::block::spec_box_prefix(j, offset, size, bounds, y as int, z as int + 1, 0)
                        && !crate::block::spec_box_prefix(j, offset, size, bounds, y as int, z as int, 0) {
                        crate::block::lemma_row_coords(
                            w_i,
                            d_i,
                            offset.y + y,
                            offset.z + z,
                            crate::block::spec_x_of(j, w_i),
                        );
                        crate::block::lemma_coords_unique(
                            j,
                            rowbase + crate::block::spec_x_of(j, w_i),
                            w_i,
                            d_i,
                        );
                    }
                }
            }
        }
    }

    /// Fill the box at `offset` of extent `size` with the palette entry
    /// at `palette_idx`; cells outside the box are unchanged.
    pub fn fill_block_core(&mut self, offset: BlockCoord, size: BlockSize, palette_idx: u32)
        requires
            old(self).wf(),
            offset.x + size.width <= CHUNK_WIDTH,
            offset.y + size.height <= CHUNK_HEIGHT,
            offset.z + size.depth <= CHUNK_DEPTH,
            palette_idx < old(self).spec_indices()@.len(),
        ensures
            final(self).wf(),
            final(self).spec_indices() == old(self).spec_indices(),
            final(self)@ =~= Seq::new(
                CHUNK_VOLUME as nat,
                |j: int|
                    if crate::block::spec_in_box(j, offset, size, spec_chunk_bounds()) {
                        old(self).spec_indices()@[palette_idx as int]
                    } else {
                        old(self)@[j]
                    },
            ),
    {
        let mut y: usize = 0;
        while y < size.height
            invariant
                self.wf(),
                offset.x + size.width <= CHUNK_WIDTH,
                offset.y + size.height <= CHUNK_HEIGHT,
                offset.z + size.depth <= CHUNK_DEPTH,
                palette_idx < old(self).spec_indices()@.len(),
                self.spec_indices() == old(self).spec_indices(),
                y <= size.height,
                self@ =~= Seq::new(
                    CHUNK_VOLUME as nat,
                    |j: int|
                        if crate::block::spec_box_prefix(
                            j,
                            offset,
                            size,
                            spec_chunk_bounds(),
                            y as int,
                            0,
                            0,
                        ) {
                            old(self).spec_indices()@[palette_idx as int]
                        } else {
                            old(self)@[j]
                        },
                ),
            decreases size.height - y,
        {
            let mut z: usize = 0;
            while z < size.depth
                invariant
                    self.wf(),
                    offset.x + size.width <= CHUNK_WIDTH,
                    offset.y + size.height <= CHUNK_HEIGHT,
                    offset.z + size.depth <= CHUNK_DEPTH,
                    palette_idx < old(self).spec_indices()@.len(),
                    self.spec_indices() == old(self).spec_indices(),
                    y < size.height,
                    z <= size.depth,
                    self@ =~= Seq::new(
                        CHUNK_VOLUME as nat,
                        |j: int|
                            if crate::block::spec_box_prefix(
                                j,
                                offset,
                                size,
                                spec_chunk_bounds(),
                                y as int,
                                z as int,
                                0,
                            ) {
                                old(self).spec_indices()@[palette_idx as int]
                            } else {
                                old(self)@[j]
                            },
                    ),
                decreases size.depth - z,
            {
                let ghost prev = *self;
                self.fill_block_row(offset, size, palette_idx, y, z);
                proof {
                    assert(self@ =~= Seq::new(
                        CHUNK_VOLUME as nat,
                        |j: int|
                            if crate::block::spec_box_prefix(
                                j,
                                offset,
                                size,
                                spec_chunk_bounds(),
                                y as int,
                                z as int + 1,
                                0,
                            ) {
                                old(self).spec_indices()@[palette_idx as int]
                            } else {
                                old(self)@[j]
                            },
                    ));
                }
                z = z + 1;
            }
            proof {
                assert(self@ =~= Seq::new(
                    CHUNK_VOLUME as nat,
                    |j: int|
                        if crate::block::spec_box_prefix(
                            j,
                            offset,
                            size,
                            spec_chunk_bounds(),
                            y as int + 1,
                            0,
                            0,
                        ) {
                            old(self).spec_indices()@[palette_idx as int]
                        } else {
                            old(self)@[j]
                        },
                ));
            }
            y = y + 1;
        }
        proof {
            assert forall|j: int| 0 <= j < CHUNK_VOLUME implies (crate::block::spec_box_prefix(
                j,
                offset,
                size,
                spec_chunk_bounds(),
                size.height as int,
                0,
                0,
            ) == crate::block::spec_in_box(j, offset, size, spec_chunk_bounds())) by {}
        }
    }

    /// Fill the box at `offset` of extent `size` with `value`, adding
    /// it to the palette when absent; cells outside the box are
    /// unchanged.
    pub fn fill(&mut self, offset: BlockCoord, size: BlockSize, value: BlockId)
        requires
            old(self).wf(),
            old(self).spec_indices()@.len() < u32::MAX,
            offset.x + size.width <= CHUNK_WIDTH,
            offset.y + size.height <= CHUNK_HEIGHT,
            offset.z + size.depth <= CHUNK_DEPTH,
        ensures
            final(self).wf(),
            final(self)@ =~= Seq::new(
                CHUNK_VOLUME as nat,
                |j: int|
                    if crate::block::spec_in_box(j, offset, size, spec_chunk_bounds()) {
                        value
                    } else {
                        old(self)@[j]
                    },
            ),
            old(self).spec_indices()@.contains(value) ==> final(self).spec_indices()@ == old(
                self,
            ).spec_indices()@,
            !old(self).spec_indices()@.contains(value) ==> final(self).spec_indices()@ =~= old(
                self,
            ).spec_indices()@.push(value),
    {
        let (palette_idx, _) = self.get_or_add_index(value);
        self.fill_block_core(offset, size, palette_idx);
    }
}

/// The chunk cell that a destination-grid cell `j` reads from, when a
/// box at `offset` of the chunk is copied to a box at `dst_offset` of
/// a grid bounded by `dst_bounds`.
pub open spec fn spec_get_src_pos(
    j: int,
    offset: BlockCoord,
    dst_offset: BlockCoord,
    dst_bounds: BlockSize,
) -> int {
    let rel_x = crate::block::spec_x_of(j, dst_bounds.width as int) - dst_offset.x;
    let rel_z = crate::block::spec_z_of(j, dst_bounds.width as int, dst_bounds.depth as int)
        - dst_offset.z;
    let rel_y = crate::block::spec_y_of(j, dst_bounds.width as int, dst_bounds.depth as int)
        - dst_offset.y;
    crate::block::spec_index_base(
        CHUNK_DEPTH as int,
        CHUNK_WIDTH as int,
        offset.y + rel_y,
        offset.z + rel_z,
    ) + offset.x + rel_x
}

/// The value-run end: the first position after `pos` where the packed
/// buffer stops repeating `index`, or the buffer's end.
fn buffer_run_end(buffer: &PackVec<VarPackOrder>, pos: usize, index: u64) -> (r: usize)
    requires
        buffer.wf(),
        pos < buffer@.len(),
        buffer@[pos as int] == index,
    ensures
        pos < r <= buffer@.len(),
        forall|m: int| pos <= m < r ==> buffer@[m] == index,
        r < buffer@.len() ==> buffer@[r as int] != index,
{
    let len: usize = buffer.len();
    let mut r: usize = pos + 1;
    while r < len && buffer.get(r).unwrap() == index
        invariant
            buffer.wf(),
            pos < r <= len,
            len == buffer@.len(),
            forall|m: int| pos <= m < r ==> buffer@[m] == index,
        decreases len - r,
    {
        r = r + 1;
    }
    r
}

impl ChunkPalette {
    /// Decode a linear run of chunk cells into `dst`: cell
    /// `src_idx + k` decodes to `dst[dst_idx + k]`. The indices are
    /// unpacked in bulk into a temporary buffer at the kernel width,
    /// then equal-index runs are looked up in the palette once each.
    fn get_contiguous_blocks(
        &self,
        dst: &mut Vec<BlockId>,
        dst_idx: usize,
        count: usize,
        src_idx: usize,
        kernel_bits: PartSize,
    )
        requires
            self.wf(),
            src_idx + count <= CHUNK_VOLUME,
            dst_idx + count <= old(dst)@.len(),
            kernel_bits@ >= self.spec_data().spec_value_bits(),
        ensures
            final(dst)@.len() == old(dst)@.len(),
            forall|j: int|
                dst_idx <= j < dst_idx + count ==> #[trigger] final(dst)@[j] == self@[src_idx + j
                    - dst_idx],
            forall|j: int|
                0 <= j < old(dst)@.len() && !(dst_idx <= j < dst_idx + count)
                    ==> final(dst)@[j] == old(dst)@[j],
    {
        let order = VarPackOrder::new(kernel_bits);
        proof {
            order.lemma_wf();
        }
        let mut index_buffer: PackVec<VarPackOrder> = PackVec::with_capacity(count, order);
        index_buffer.extend_with(count, 0);
        let src_span = self.data.as_span();
        proof {
            src_span.lemma_cut_wf(src_idx as int, src_idx as int + count);
            src_span.lemma_cut_view(src_idx as int, src_idx as int + count);
        }
        let window = src_span.cut(src_idx, src_idx + count);
        let dspan = index_buffer.as_span_mut();
        window.copy_to(&dspan, &mut index_buffer);
        proof {
            let n = self.spec_indices()@.len() as int;
            lemma_storage_bits_covers(n);
            vstd::arithmetic::power2::lemma2_to64();
            lemma_storage_bits_minimal(n, 32);
            assert forall|k: int| 0 <= k < count implies index_buffer@[k]
                == self.spec_data()@[src_idx + k] && index_buffer@[k] < n by {
                assert(self.spec_data()@[src_idx + k] < n);
                lemma_pow2_strictly_increases_or_eq(
                    self.spec_data().spec_value_bits() as nat,
                    kernel_bits@ as nat,
                );
                lemma_small_value_masked(self.spec_data()@[src_idx + k], kernel_bits@);
                assert(window@[k] == self.spec_data()@[src_idx + k]);
            }
        }
        let dst_len: usize = dst.len();
        let mut pos: usize = 0;
        while pos < count
            invariant
                self.wf(),
                dst_len == old(dst)@.len(),
                index_buffer.wf(),
                index_buffer@.len() == count,
                src_idx + count <= CHUNK_VOLUME,
                dst_idx + count <= old(dst)@.len(),
                dst@.len() == old(dst)@.len(),
                pos <= count,
                forall|k: int|
                    0 <= k < count ==> index_buffer@[k] == self.spec_data()@[src_idx + k]
                        && index_buffer@[k] < self.spec_indices()@.len(),
                forall|j: int|
                    dst_idx <= j < dst_idx + pos ==> #[trigger] dst@[j] == self@[src_idx + j
                        - dst_idx],
                forall|j: int|
                    0 <= j < old(dst)@.len() && !(dst_idx <= j < dst_idx + pos) ==> dst@[j]
                        == old(dst)@[j],
            decreases count - pos,
        {
            let index: u64 = index_buffer.get(pos).unwrap();
            let run_end: usize = buffer_run_end(&index_buffer, pos, index);
            let value: BlockId = self.indices.value(index as u32).unwrap();
            let ghost dst_before = dst@;
            let mut k: usize = pos;
            while k < run_end
                invariant
                    pos <= k <= run_end <= count,
                    dst_idx + count <= old(dst)@.len(),
                    dst_len == old(dst)@.len(),
                    dst@.len() == old(dst)@.len(),
                    forall|j: int|
                        dst_idx + pos <= j < dst_idx + k ==> #[trigger] dst@[j] == value,
                    dst@.len() == dst_before.len(),
                    dst_before.len() == old(dst)@.len(),
                    forall|j: int|
                        0 <= j < dst_before.len() && !(dst_idx + pos <= j < dst_idx + k)
                            ==> dst@[j] == dst_before[j],
                decreases run_end - k,
            {
                dst[dst_idx + k] = value;
                k = k + 1;
            }
            proof {
                assert(k == run_end);
                assert(index < self.spec_indices()@.len());
                assert((index as u32) as u64 == index);
                assert(value == self.spec_indices()@[index as int]);
                assert forall|j: int| dst_idx <= j < dst_idx + run_end implies #[trigger] dst@[j]
                    == self@[src_idx + j - dst_idx] by {
                    let m = j - dst_idx;
                    if m >= pos {
                        assert(index_buffer@[m] == index);
                        assert(self.spec_data()@[src_idx + m] == index);
                        assert(self@[src_idx + m] == self.spec_indices()@[self.spec_data()@[
                            src_idx + m] as int]);
                        assert(dst@[j] == value);
                    } else {
                        assert(dst@[j] == dst_before[j]);
                    }
                }
            }
            pos = run_end;
        }
    }
}


impl ChunkPalette {
    /// Decode one row of the box into the destination grid.
    fn get_blocks_row(
        &self,
        offset: BlockCoord,
        size: BlockSize,
        dst_offset: BlockCoord,
        dst_bounds: BlockSize,
        dst: &mut Vec<BlockId>,
        kernel_bits: PartSize,
        y: usize,
        z: usize,
    )
        requires
            self.wf(),
            dst_bounds.width >= 1,
            dst_bounds.depth >= 1,
            offset.x + size.width <= CHUNK_WIDTH,
            offset.y + size.height <= CHUNK_HEIGHT,
            offset.z + size.depth <= CHUNK_DEPTH,
            dst_offset.x + size.width <= dst_bounds.width,
            dst_offset.y + size.height <= dst_bounds.height,
            dst_offset.z + size.depth <= dst_bounds.depth,
            crate::block::spec_volume(dst_bounds) <= old(dst)@.len(),
            old(dst)@.len() <= usize::MAX,
            kernel_bits@ >= self.spec_data().spec_value_bits(),
            y < size.height,
            z < size.depth,
        ensures
            final(dst)@.len() == old(dst)@.len(),
            final(dst)@ =~= Seq::new(
                old(dst)@.len(),
                |j: int|
                    if crate::block::spec_box_prefix(
                        j,
                        dst_offset,
                        size,
                        dst_bounds,
                        y as int,
                        z as int + 1,
                        0,
                    ) && !crate::block::spec_box_prefix(
                        j,
                        dst_offset,
                        size,
                        dst_bounds,
                        y as int,
                        z as int,
                        0,
                    ) {
                        self@[spec_get_src_pos(j, offset, dst_offset, dst_bounds)]
                    } else {
                        old(dst)@[j]
                    },
            ),
    {
        let ghost w_i = dst_bounds.width as int;
        let ghost d_i = dst_bounds.depth as int;
        if size.width == 0 {
            proof {
                assert(dst@ =~= Seq::new(
                    old(dst)@.len(),
                    |j: int|
                        if crate::block::spec_box_prefix(
                            j,
                            dst_offset,
                            size,
                            dst_bounds,
                            y as int,
                            z as int + 1,
                            0,
                        ) && !crate::block::spec_box_prefix(
                            j,
                            dst_offset,
                            size,
                            dst_bounds,
                            y as int,
                            z as int,
                            0,
                        ) {
                            self@[spec_get_src_pos(j, offset, dst_offset, dst_bounds)]
                        } else {
                            old(dst)@[j]
                        },
                ));
            }
            return ;
        }
        proof {
            crate::block::lemma_base_bounds(offset, size, spec_chunk_bounds(), y as int, z as int);
            crate::block::lemma_base_bounds(dst_offset, size, dst_bounds, y as int, z as int);
        }
        let src_base: usize = self.get_offset(offset.x, offset.y + y, offset.z + z);
        let dst_base: usize = crate::block::get_index_base(
            dst_bounds.depth,
            dst_bounds.width,
            dst_offset.y + y,
            dst_offset.z + z,
        ) + dst_offset.x;
        self.get_contiguous_blocks(dst, dst_base, size.width, src_base, kernel_bits);
        proof {
            let dst_rowbase = crate::block::spec_index_base(
                d_i,
                w_i,
                dst_offset.y + y,
                dst_offset.z + z,
            );
            assert forall|j: int| 0 <= j < old(dst)@.len() implies #[trigger] dst@[j] == (if
            crate::block::spec_box_prefix(j, dst_offset, size, dst_bounds, y as int, z as int + 1, 0)
                && !crate::block::spec_box_prefix(
                j,
                dst_offset,
                size,
                dst_bounds,
                y as int,
                z as int,
                0,
            ) {
                self@[spec_get_src_pos(j, offset, dst_offset, dst_bounds)]
            } else {
                old(dst)@[j]
            }) by {
                crate::block::lemma_index_recompose(j, w_i, d_i);
                if dst_base <= j < dst_base + size.width {
                    crate::block::lemma_row_coords(
                        w_i,
                        d_i,
                        dst_offset.y + y,
                        dst_offset.z + z,
                        j - dst_rowbase,
                    );
                } else {
                    if crate::block::spec_box_prefix(
                        j,
                        dst_offset,
                        size,
                        dst_bounds,
                        y as int,
                        z as int + 1,
                        0,
                    ) && !crate::block::spec_box_prefix(
                        j,
                        dst_offset,
                        size,
                        dst_bounds,
                        y as int,
                        z as int,
                        0,
                    ) {
                        crate::block::lemma_row_coords(
                            w_i,
                            d_i,
                            dst_offset.y + y,
                            dst_offset.z + z,
                            crate::block::spec_x_of(j, w_i),
                        );
                        crate::block::lemma_coords_unique(
                            j,
                            dst_rowbase + crate::block::spec_x_of(j, w_i),
                            w_i,
                            d_i,
                        );
                    }
                }
            }
        }
    }

    /// Decode the box at `offset` of the chunk into the box at
    /// `dst_offset` of the destination grid, one row at a time; grid
    /// cells outside the destination box are unchanged.
    pub fn get_blocks_core(
        &self,
        offset: BlockCoord,
        size: BlockSize,
        dst_offset: BlockCoord,
        dst_bounds: BlockSize,
        dst: &mut Vec<BlockId>,
        kernel_bits: PartSize,
    )
        requires
            self.wf(),
            dst_bounds.width >= 1,
            dst_bounds.depth >= 1,
            offset.x + size.width <= CHUNK_WIDTH,
            offset.y + size.height <= CHUNK_HEIGHT,
            offset.z + size.depth <= CHUNK_DEPTH,
            dst_offset.x + size.width <= dst_bounds.width,
            dst_offset.y + size.height <= dst_bounds.height,
            dst_offset.z + size.depth <= dst_bounds.depth,
            crate::block::spec_volume(dst_bounds) <= old(dst)@.len(),
            old(dst)@.len() <= usize::MAX,
            kernel_bits@ >= self.spec_data().spec_value_bits(),
        ensures
            final(dst)@.len() == old(dst)@.len(),
            final(dst)@ =~= Seq::new(
                old(dst)@.len(),
                |j: int|
                    if crate::block::spec_in_box(j, dst_offset, size, dst_bounds) {
                        self@[spec_get_src_pos(j, offset, dst_offset, dst_bounds)]
                    } else {
                        old(dst)@[j]
                    },
            ),
    {
        let mut y: usize = 0;
        while y < size.height
            invariant
                self.wf(),
                dst_bounds.width >= 1,
                dst_bounds.depth >= 1,
                offset.x + size.width <= CHUNK_WIDTH,
                offset.y + size.height <= CHUNK_HEIGHT,
                offset.z + size.depth <= CHUNK_DEPTH,
                dst_offset.x + size.width <= dst_bounds.width,
                dst_offset.y + size.height <= dst_bounds.height,
                dst_offset.z + size.depth <= dst_bounds.depth,
                crate::block::spec_volume(dst_bounds) <= old(dst)@.len(),
                old(dst)@.len() <= usize::MAX,
                kernel_bits@ >= self.spec_data().spec_value_bits(),
                y <= size.height,
                dst@.len() == old(dst)@.len(),
                dst@ =~= Seq::new(
                    old(dst)@.len(),
                    |j: int|
                        if crate::block::spec_box_prefix(
                            j,
                            dst_offset,
                            size,
                            dst_bounds,
                            y as int,
                            0,
                            0,
                        ) {
                            self@[spec_get_src_pos(j, offset, dst_offset, dst_bounds)]
                        } else {
                            old(dst)@[j]
                        },
                ),
            decreases size.height - y,
        {
            let mut z: usize = 0;
            while z < size.depth
                invariant
                    self.wf(),
                    dst_bounds.width >= 1,
                    dst_bounds.depth >= 1,
                    offset.x + size.width <= CHUNK_WIDTH,
                    offset.y + size.height <= CHUNK_HEIGHT,
                    offset.z + size.depth <= CHUNK_DEPTH,
                    dst_offset.x + size.width <= dst_bounds.width,
                    dst_offset.y + size.height <= dst_bounds.height,
                    dst_offset.z + size.depth <= dst_bounds.depth,
                    crate::block::spec_volume(dst_bounds) <= old(dst)@.len(),
                    old(dst)@.len() <= usize::MAX,
                    kernel_bits@ >= self.spec_data().spec_value_bits(),
                    y < size.height,
                    z <= size.depth,
                    dst@.len() == old(dst)@.len(),
                    dst@ =~= Seq::new(
                        old(dst)@.len(),
                        |j: int|
                            if crate::block::spec_box_prefix(
                                j,
                                dst_offset,
                                size,
                                dst_bounds,
                                y as int,
                                z as int,
                                0,
                            ) {
                                self@[spec_get_src_pos(j, offset, dst_offset, dst_bounds)]
                            } else {
                                old(dst)@[j]
                            },
                    ),
                decreases size.depth - z,
            {
                self.get_blocks_row(offset, size, dst_offset, dst_bounds, dst, kernel_bits, y, z);
                proof {
                    assert(dst@ =~= Seq::new(
                        old(dst)@.len(),
                        |j: int|
                            if crate::block::spec_box_prefix(
                                j,
                                dst_offset,
                                size,
                                dst_bounds,
                                y as int,
                                z as int + 1,
                                0,
                            ) {
                                self@[spec_get_src_pos(j, offset, dst_offset, dst_bounds)]
                            } else {
                                old(dst)@[j]
                            },
                    ));
                }
                z = z + 1;
            }
            proof {
                assert(dst@ =~= Seq::new(
                    old(dst)@.len(),
                    |j: int|
                        if crate::block::spec_box_prefix(
                            j,
                            dst_offset,
                            size,
                            dst_bounds,
                            y as int + 1,
                            0,
                            0,
                        ) {
                            self@[spec_get_src_pos(j, offset, dst_offset, dst_bounds)]
                        } else {
                            old(dst)@[j]
                        },
                ));
            }
            y = y + 1;
        }
        proof {
            assert forall|j: int| 0 <= j < old(dst)@.len() implies (crate::block::spec_box_prefix(
                j,
                dst_offset,
                size,
                dst_bounds,
                size.height as int,
                0,
                0,
            ) == crate::block::spec_in_box(j, dst_offset, size, dst_bounds)) by {}
        }
    }

    /// The kernel width class for the store's current width: 8, 16 or
    /// 32 bits.
    fn kernel_bits(&self) -> (r: PartSize)
        requires
            self.wf(),
        ensures
            r@ >= self.spec_data().spec_value_bits(),
            r@ == 8 || r@ == 16 || r@ == 32,
    {
        proof {
            let n = self.spec_indices()@.len() as int;
            lemma_storage_bits_covers(n);
            vstd::arithmetic::power2::lemma2_to64();
            lemma_storage_bits_minimal(n, 32);
        }
        let v: usize = self.data.order().value_bits().get();
        if v <= 8 {
            PartSize::new(8).unwrap()
        } else if v <= 16 {
            PartSize::new(16).unwrap()
        } else {
            PartSize::new(32).unwrap()
        }
    }

    /// Decode the box at `offset` of the chunk into the box at
    /// `dst_offset` of the destination grid bounded by `dst_bounds`;
    /// grid cells outside the destination box are unchanged.
    pub fn get_slice(
        &self,
        offset: BlockCoord,
        size: BlockSize,
        dst_offset: BlockCoord,
        dst_bounds: BlockSize,
        dst: &mut Vec<BlockId>,
    )
        requires
            self.wf(),
            dst_bounds.width >= 1,
            dst_bounds.depth >= 1,
            offset.x + size.width <= CHUNK_WIDTH,
            offset.y + size.height <= CHUNK_HEIGHT,
            offset.z + size.depth <= CHUNK_DEPTH,
            dst_offset.x + size.width <= dst_bounds.width,
            dst_offset.y + size.height <= dst_bounds.height,
            dst_offset.z + size.depth <= dst_bounds.depth,
            crate::block::spec_volume(dst_bounds) <= old(dst)@.len(),
            old(dst)@.len() <= usize::MAX,
        ensures
            final(dst)@.len() == old(dst)@.len(),
            final(dst)@ =~= Seq::new(
                old(dst)@.len(),
                |j: int|
                    if crate::block::spec_in_box(j, dst_offset, size, dst_bounds) {
                        self@[spec_get_src_pos(j, offset, dst_offset, dst_bounds)]
                    } else {
                        old(dst)@[j]
                    },
            ),
    {
        let kernel = self.kernel_bits();
        self.get_blocks_core(offset, size, dst_offset, dst_bounds, dst, kernel);
    }
}

/// Whether block `b` occurs in the box at `src_offset` of extent
/// `size` inside a source grid bounded by `src_bounds`.
pub open spec fn spec_box_has_block(
    src: Seq<BlockId>,
    src_offset: BlockCoord,
    size: BlockSize,
    src_bounds: BlockSize,
    b: BlockId,
) -> bool {
    exists|j: int|
        0 <= j < src.len() && crate::block::spec_in_box(j, src_offset, size, src_bounds) && src[j]
            == b
}

/// Whether palette entry `i` was drawn from the source range
/// `[from, from + count)`: its id occurs there, and no earlier
/// palette entry repeats it.
pub open spec fn spec_added_from_range(
    entries: Seq<BlockId>,
    i: int,
    src: Seq<BlockId>,
    from: int,
    count: int,
) -> bool {
    &&& exists|k: int| from <= k < from + count && src[k] == entries[i]
    &&& !entries.subrange(0, i).contains(entries[i])
}

/// Whether palette entry `i` was drawn from the source box: its id
/// occurs in the box, and no earlier palette entry repeats it.
pub open spec fn spec_added_from_box(
    entries: Seq<BlockId>,
    i: int,
    src: Seq<BlockId>,
    src_offset: BlockCoord,
    size: BlockSize,
    src_bounds: BlockSize,
) -> bool {
    &&& spec_box_has_block(src, src_offset, size, src_bounds, entries[i])
    &&& !entries.subrange(0, i).contains(entries[i])
}

/// A palette entry never repeats an earlier one.
proof fn lemma_no_earlier_duplicate(m: &IndexMap, i: int)
    requires
        m.wf(),
        0 <= i < m@.len(),
    ensures
        !m@.subrange(0, i).contains(m@[i]),
{
    m.lemma_entries_distinct();
    if m@.subrange(0, i).contains(m@[i]) {
        let j = choose|j: int| 0 <= j < i && m@.subrange(0, i)[j] == m@[i];
        assert(m@[j] == m@[i]);
    }
}

/// The source-grid cell that chunk cell `o` takes its block from, when
/// a box at `src_offset` of a grid bounded by `src_bounds` is written
/// to a box at `offset` of the chunk.
pub open spec fn spec_set_src_pos(
    o: int,
    offset: BlockCoord,
    src_offset: BlockCoord,
    src_bounds: BlockSize,
) -> int {
    let rel_x = crate::block::spec_x_of(o, CHUNK_WIDTH as int) - offset.x;
    let rel_z = crate::block::spec_z_of(o, CHUNK_WIDTH as int, CHUNK_DEPTH as int) - offset.z;
    let rel_y = crate::block::spec_y_of(o, CHUNK_WIDTH as int, CHUNK_DEPTH as int) - offset.y;
    crate::block::spec_index_base(
        src_bounds.depth as int,
        src_bounds.width as int,
        src_offset.y + rel_y,
        src_offset.z + rel_z,
    ) + src_offset.x + rel_x
}

impl ChunkPalette {
    /// Encode a linear run of source blocks into the chunk: block
    /// `src[src_idx + k]` is stored at cell `dst_start + k`. Each
    /// equal-value run is translated through the palette once, the
    /// indices staged in a buffer at the kernel width, then packed
    /// back in bulk.
    fn set_contiguous_blocks(
        &mut self,
        src: &Vec<BlockId>,
        src_idx: usize,
        count: usize,
        dst_start: usize,
        kernel_bits: PartSize,
    )
        requires
            old(self).wf(),
            src_idx + count <= src@.len(),
            dst_start + count <= CHUNK_VOLUME,
            old(self).spec_indices()@.len() + count < u32::MAX,
            spec_storage_bits(old(self).spec_indices()@.len() + count) <= kernel_bits@,
        ensures
            final(self).wf(),
            forall|o: int|
                dst_start <= o < dst_start + count ==> #[trigger] final(self)@[o] == src@[src_idx
                    + o - dst_start],
            forall|o: int|
                0 <= o < CHUNK_VOLUME && !(dst_start <= o < dst_start + count)
                    ==> #[trigger] final(self)@[o] == old(self)@[o],
            old(self).spec_indices()@.len() <= final(self).spec_indices()@.len(),
            final(self).spec_indices()@.len() <= old(self).spec_indices()@.len() + count,
            forall|i: int|
                0 <= i < old(self).spec_indices()@.len()
                    ==> #[trigger] final(self).spec_indices()@[i] == old(self).spec_indices()@[i],
            forall|i: int|
                old(self).spec_indices()@.len() <= i < final(self).spec_indices()@.len()
                    ==> #[trigger] spec_added_from_range(
                    final(self).spec_indices()@,
                    i,
                    src@,
                    src_idx as int,
                    count as int,
                ),
    {
        let ghost old_len = old(self).spec_indices()@.len() as int;
        let order = VarPackOrder::new(kernel_bits);
        proof {
            order.lemma_wf();
        }
        let mut index_buffer: PackVec<VarPackOrder> = PackVec::with_capacity(count, order);
        index_buffer.extend_with(count, 0);
        let src_len: usize = src.len();
        let mut pos: usize = 0;
        while pos < count
            invariant
                self.wf(),
                src_len == src@.len(),
                src_idx + count <= src@.len(),
                dst_start + count <= CHUNK_VOLUME,
                old_len == old(self).spec_indices()@.len(),
                old_len + count < u32::MAX,
                spec_storage_bits(old_len + count) <= kernel_bits@,
                index_buffer.wf(),
                index_buffer@.len() == count,
                index_buffer.spec_value_bits() == kernel_bits@,
                pos <= count,
                self@ =~= old(self)@,
                old_len <= self.spec_indices()@.len() <= old_len + pos,
                forall|i: int|
                    0 <= i < old_len ==> #[trigger] self.spec_indices()@[i] == old(
                        self,
                    ).spec_indices()@[i],
                forall|k: int|
                    0 <= k < pos ==> #[trigger] index_buffer@[k]
                        < self.spec_indices()@.len() && self.spec_indices()@[index_buffer@[
                        k] as int] == src@[src_idx + k],
                forall|i: int|
                    old_len <= i < self.spec_indices()@.len() ==> exists|k: int|
                        src_idx <= k < src_idx + pos && src@[k] == #[trigger] self.spec_indices()@[
                        i],
            decreases count - pos,
        {
            let value: BlockId = src[src_idx + pos];
            let ghost pre = *self;
            let (pal_index, _) = self.get_or_add_index(value);
            let sub: &[BlockId] = vstd::slice::slice_subrange(
                src.as_slice(),
                src_idx + pos,
                src_idx + count,
            );
            let probe = crate::search::block_index_of_any_except::<16>(sub, value);
            let run_len: usize = match probe {
                Some(l) => l,
                None => sub.len(),
            };
            proof {
                assert(sub@[0] == value);
                assert(run_len >= 1);
                assert(pos + run_len <= count);
            }
            let full = index_buffer.as_span_mut();
            let window = full.cut(pos, pos + run_len);
            proof {
                full.lemma_cut_wf(pos as int, pos as int + run_len);
                index_buffer.spec_order().lemma_wf();
                let n = self.spec_indices()@.len() as int;
                lemma_storage_bits_covers(n);
                lemma_storage_bits_monotone(n, old_len + count);
                lemma_pow2_strictly_increases_or_eq(
                    spec_storage_bits(n) as nat,
                    kernel_bits@ as nat,
                );
                lemma_small_value_masked(pal_index as u64, kernel_bits@);
            }
            let ghost buf_before = index_buffer@;
            window.fill(&mut index_buffer, pal_index as u64);
            proof {
                assert forall|k: int| 0 <= k < pos + run_len implies #[trigger] index_buffer@[k]
                    < self.spec_indices()@.len() && self.spec_indices()@[index_buffer@[k] as int]
                    == src@[src_idx + k] by {
                    if k < pos {
                        assert(index_buffer@[k] == buf_before[k]);
                        assert(pre.spec_indices()@[buf_before[k] as int] == src@[src_idx + k]);
                    } else {
                        assert(index_buffer@[k] == pal_index as u64);
                        assert(sub@[k - pos] == value);
                        assert(src@[src_idx + k] == value);
                    }
                }
            }
            pos = pos + run_len;
        }
        let src_span = index_buffer.as_span();
        let dwin_full = self.data.as_span_mut();
        let dwin = dwin_full.cut(dst_start, dst_start + count);
        proof {
            dwin_full.lemma_cut_wf(dst_start as int, dst_start as int + count);
        }
        let ghost data_before = self.spec_data()@;
        let ghost pal = *self;
        src_span.copy_to(&dwin, &mut self.data);
        proof {
            let n = pal.spec_indices()@.len() as int;
            lemma_storage_bits_covers(n);
            vstd::arithmetic::power2::lemma2_to64();
            lemma_storage_bits_minimal(n, 32);
            assert forall|o: int| 0 <= o < CHUNK_VOLUME implies #[trigger] self.spec_data()@[o]
                == (if dst_start <= o < dst_start + count {
                index_buffer@[o - dst_start]
            } else {
                data_before[o]
            }) by {
                if dst_start <= o < dst_start + count {
                    assert(index_buffer@[o - dst_start] < n);
                    lemma_small_value_masked(
                        index_buffer@[o - dst_start],
                        self.spec_data().spec_value_bits(),
                    );
                }
            }
            assert forall|o: int|
                0 <= o < CHUNK_VOLUME && !(dst_start <= o < dst_start + count) implies #[trigger]
            self@[o] == old(self)@[o] by {
                assert(self.spec_data()@[o] == data_before[o]);
                assert(pal@[o] == old(self)@[o]);
                assert(data_before[o] < pal.spec_indices()@.len());
            }
            assert forall|i: int|
                old_len <= i < self.spec_indices()@.len() implies #[trigger] spec_added_from_range(
                self.spec_indices()@,
                i,
                src@,
                src_idx as int,
                count as int,
            ) by {
                lemma_no_earlier_duplicate(&self.indices, i);
            }
        }
    }
}

impl ChunkPalette {
    /// Encode one row of the source box into the chunk.
    fn set_blocks_row(
        &mut self,
        offset: BlockCoord,
        size: BlockSize,
        src_offset: BlockCoord,
        src_bounds: BlockSize,
        src: &Vec<BlockId>,
        kernel_bits: PartSize,
        y: usize,
        z: usize,
    )
        requires
            old(self).wf(),
            src_bounds.width >= 1,
            src_bounds.depth >= 1,
            offset.x + size.width <= CHUNK_WIDTH,
            offset.y + size.height <= CHUNK_HEIGHT,
            offset.z + size.depth <= CHUNK_DEPTH,
            src_offset.x + size.width <= src_bounds.width,
            src_offset.y + size.height <= src_bounds.height,
            src_offset.z + size.depth <= src_bounds.depth,
            crate::block::spec_volume(src_bounds) <= src@.len(),
            src@.len() <= usize::MAX,
            y < size.height,
            z < size.depth,
            old(self).spec_indices()@.len() + size.width < u32::MAX,
            spec_storage_bits(old(self).spec_indices()@.len() + size.width) <= kernel_bits@,
        ensures
            final(self).wf(),
            final(self)@ =~= Seq::new(
                CHUNK_VOLUME as nat,
                |o: int|
                    if crate::block::spec_box_prefix(
                        o,
                        offset,
                        size,
                        spec_chunk_bounds(),
                        y as int,
                        z as int + 1,
                        0,
                    ) && !crate::block::spec_box_prefix(
                        o,
                        offset,
                        size,
                        spec_chunk_bounds(),
                        y as int,
                        z as int,
                        0,
                    ) {
                        src@[spec_set_src_pos(o, offset, src_offset, src_bounds)]
                    } else {
                        old(self)@[o]
                    },
            ),
            old(self).spec_indices()@.len() <= final(self).spec_indices()@.len(),
            final(self).spec_indices()@.len() <= old(self).spec_indices()@.len() + size.width,
            forall|i: int|
                0 <= i < old(self).spec_indices()@.len()
                    ==> #[trigger] final(self).spec_indices()@[i] == old(self).spec_indices()@[i],
            forall|i: int|
                old(self).spec_indices()@.len() <= i < final(self).spec_indices()@.len()
                    ==> #[trigger] spec_added_from_box(
                    final(self).spec_indices()@,
                    i,
                    src@,
                    src_offset,
                    size,
                    src_bounds,
                ),
    {
        let ghost w_i = CHUNK_WIDTH as int;
        let ghost d_i = CHUNK_DEPTH as int;
        if size.width == 0 {
            proof {
                assert(self@ =~= Seq::new(
                    CHUNK_VOLUME as nat,
                    |o: int|
                        if crate::block::spec_box_prefix(
                            o,
                            offset,
                            size,
                            spec_chunk_bounds(),
                            y as int,
                            z as int + 1,
                            0,
                        ) && !crate::block::spec_box_prefix(
                            o,
                            offset,
                            size,
                            spec_chunk_bounds(),
                            y as int,
                            z as int,
                            0,
                        ) {
                            src@[spec_set_src_pos(o, offset, src_offset, src_bounds)]
                        } else {
                            old(self)@[o]
                        },
                ));
            }
            return ;
        }
        proof {
            crate::block::lemma_base_bounds(offset, size, spec_chunk_bounds(), y as int, z as int);
            crate::block::lemma_base_bounds(src_offset, size, src_bounds, y as int, z as int);
        }
        let src_row: usize = crate::block::get_index_base(
            src_bounds.depth,
            src_bounds.width,
            src_offset.y + y,
            src_offset.z + z,
        ) + src_offset.x;
        let dst_row: usize = self.get_offset(offset.x, offset.y + y, offset.z + z);
        self.set_contiguous_blocks(src, src_row, size.width, dst_row, kernel_bits);
        proof {
            let src_rowbase = crate::block::spec_index_base(
                src_bounds.depth as int,
                src_bounds.width as int,
                src_offset.y + y,
                src_offset.z + z,
            );
            let dst_rowbase = crate::block::spec_index_base(d_i, w_i, offset.y + y, offset.z + z);
            assert forall|o: int| 0 <= o < CHUNK_VOLUME implies #[trigger] self@[o] == (if
            crate::block::spec_box_prefix(o, offset, size, spec_chunk_bounds(), y as int, z as int + 1, 0)
                && !crate::block::spec_box_prefix(
                o,
                offset,
                size,
                spec_chunk_bounds(),
                y as int,
                z as int,
                0,
            ) {
                src@[spec_set_src_pos(o, offset, src_offset, src_bounds)]
            } else {
                old(self)@[o]
            }) by {
                crate::block::lemma_index_recompose(o, w_i, d_i);
                if dst_row <= o < dst_row + size.width {
                    crate::block::lemma_row_coords(
                        w_i,
                        d_i,
                        offset.y + y,
                        offset.z + z,
                        o - dst_rowbase,
                    );
                } else {
                    if crate::block::spec_box_prefix(
                        o,
                        offset,
                        size,
                        spec_chunk_bounds(),
                        y as int,
                        z as int + 1,
                        0,
                    ) && !crate::block::spec_box_prefix(
                        o,
                        offset,
                        size,
                        spec_chunk_bounds(),
                        y as int,
                        z as int,
                        0,
                    ) {
                        crate::block::lemma_row_coords(
                            w_i,
                            d_i,
                            offset.y + y,
                            offset.z + z,
                            crate::block::spec_x_of(o, w_i),
                        );
                        crate::block::lemma_coords_unique(
                            o,
                            dst_rowbase + crate::block::spec_x_of(o, w_i),
                            w_i,
                            d_i,
                        );
                    }
                }
            }
            assert forall|i: int|
                old(self).spec_indices()@.len() <= i < self.spec_indices()@.len()
                    implies #[trigger] spec_added_from_box(
                self.spec_indices()@,
                i,
                src@,
                src_offset,
                size,
                src_bounds,
            ) by {
                let entries = self.spec_indices()@;
                assert(spec_added_from_range(
                    entries,
                    i,
                    src@,
                    src_row as int,
                    size.width as int,
                ));
                let k = choose|k: int|
                    src_row as int <= k < src_row as int + size.width && src@[k] == entries[i];
                assert(0 <= k - src_rowbase < src_bounds.width);
                crate::block::lemma_row_coords(
                    src_bounds.width as int,
                    src_bounds.depth as int,
                    src_offset.y + y,
                    src_offset.z + z,
                    k - src_rowbase,
                );
                assert(crate::block::spec_in_box(k, src_offset, size, src_bounds));
                assert(spec_box_has_block(src@, src_offset, size, src_bounds, entries[i]));
            }
        }
    }

    /// Encode the box at `src_offset` of the source grid into the box
    /// at `offset` of the chunk, one row at a time; chunk cells outside
    /// the box are unchanged, and the palette only grows.
    pub fn set_blocks_core(
        &mut self,
        offset: BlockCoord,
        size: BlockSize,
        src_offset: BlockCoord,
        src_bounds: BlockSize,
        src: &Vec<BlockId>,
        kernel_bits: PartSize,
    )
        requires
            old(self).wf(),
            src_bounds.width >= 1,
            src_bounds.depth >= 1,
            offset.x + size.width <= CHUNK_WIDTH,
            offset.y + size.height <= CHUNK_HEIGHT,
            offset.z + size.depth <= CHUNK_DEPTH,
            src_offset.x + size.width <= src_bounds.width,
            src_offset.y + size.height <= src_bounds.height,
            src_offset.z + size.depth <= src_bounds.depth,
            crate::block::spec_volume(src_bounds) <= src@.len(),
            src@.len() <= usize::MAX,
            old(self).spec_indices()@.len() + crate::block::spec_volume(size) < u32::MAX,
            spec_storage_bits(
                old(self).spec_indices()@.len() + crate::block::spec_volume(size),
            ) <= kernel_bits@,
        ensures
            final(self).wf(),
            final(self)@ =~= Seq::new(
                CHUNK_VOLUME as nat,
                |o: int|
                    if crate::block::spec_in_box(o, offset, size, spec_chunk_bounds()) {
                        src@[spec_set_src_pos(o, offset, src_offset, src_bounds)]
                    } else {
                        old(self)@[o]
                    },
            ),
            old(self).spec_indices()@.len() <= final(self).spec_indices()@.len(),
            final(self).spec_indices()@.len() <= old(self).spec_indices()@.len()
                + crate::block::spec_volume(size),
            forall|i: int|
                0 <= i < old(self).spec_indices()@.len()
                    ==> #[trigger] final(self).spec_indices()@[i] == old(self).spec_indices()@[i],
            forall|i: int|
                old(self).spec_indices()@.len() <= i < final(self).spec_indices()@.len()
                    ==> #[trigger] spec_added_from_box(
                    final(self).spec_indices()@,
                    i,
                    src@,
                    src_offset,
                    size,
                    src_bounds,
                ),
    {
        let ghost old_len = old(self).spec_indices()@.len() as int;
        let ghost vol = crate::block::spec_volume(size);
        proof {
            let w = size.width as int;
            let h = size.height as int;
            let d = size.depth as int;
            assert((0int * d) * w == 0 && w * h * d >= 0) by (nonlinear_arith)
                requires
                    w >= 0,
                    h >= 0,
                    d >= 0,
            ;
        }
        let mut y: usize = 0;
        while y < size.height
            invariant
                self.wf(),
                src_bounds.width >= 1,
                src_bounds.depth >= 1,
                offset.x + size.width <= CHUNK_WIDTH,
                offset.y + size.height <= CHUNK_HEIGHT,
                offset.z + size.depth <= CHUNK_DEPTH,
                src_offset.x + size.width <= src_bounds.width,
                src_offset.y + size.height <= src_bounds.height,
                src_offset.z + size.depth <= src_bounds.depth,
                crate::block::spec_volume(src_bounds) <= src@.len(),
                src@.len() <= usize::MAX,
                old_len == old(self).spec_indices()@.len(),
                vol == crate::block::spec_volume(size),
                old_len + vol < u32::MAX,
                spec_storage_bits(old_len + vol) <= kernel_bits@,
                y <= size.height,
                old_len <= self.spec_indices()@.len(),
                self.spec_indices()@.len() <= old_len + (y as int * size.depth as int)
                    * size.width as int,
                (y as int * size.depth as int) * size.width as int <= vol,
                forall|i: int|
                    0 <= i < old_len ==> #[trigger] self.spec_indices()@[i] == old(
                        self,
                    ).spec_indices()@[i],
                forall|i: int|
                    old_len <= i < self.spec_indices()@.len()
                        ==> #[trigger] spec_added_from_box(
                        self.spec_indices()@,
                        i,
                        src@,
                        src_offset,
                        size,
                        src_bounds,
                    ),
                self@ =~= Seq::new(
                    CHUNK_VOLUME as nat,
                    |o: int|
                        if crate::block::spec_box_prefix(
                            o,
                            offset,
                            size,
                            spec_chunk_bounds(),
                            y as int,
                            0,
                            0,
                        ) {
                            src@[spec_set_src_pos(o, offset, src_offset, src_bounds)]
                        } else {
                            old(self)@[o]
                        },
                ),
            decreases size.height - y,
        {
            let mut z: usize = 0;
            while z < size.depth
                invariant
                    self.wf(),
                    src_bounds.width >= 1,
                    src_bounds.depth >= 1,
                    offset.x + size.width <= CHUNK_WIDTH,
                    offset.y + size.height <= CHUNK_HEIGHT,
                    offset.z + size.depth <= CHUNK_DEPTH,
                    src_offset.x + size.width <= src_bounds.width,
                    src_offset.y + size.height <= src_bounds.height,
                    src_offset.z + size.depth <= src_bounds.depth,
                    crate::block::spec_volume(src_bounds) <= src@.len(),
                    src@.len() <= usize::MAX,
                    old_len == old(self).spec_indices()@.len(),
                    vol == crate::block::spec_volume(size),
                    old_len + vol < u32::MAX,
                    spec_storage_bits(old_len + vol) <= kernel_bits@,
                    y < size.height,
                    z <= size.depth,
                    old_len <= self.spec_indices()@.len(),
                    self.spec_indices()@.len() <= old_len + (y as int * size.depth as int + z)
                        * size.width as int,
                    (y as int * size.depth as int + z) * size.width as int <= vol,
                    forall|i: int|
                        0 <= i < old_len ==> #[trigger] self.spec_indices()@[i] == old(
                            self,
                        ).spec_indices()@[i],
                    forall|i: int|
                        old_len <= i < self.spec_indices()@.len()
                            ==> #[trigger] spec_added_from_box(
                            self.spec_indices()@,
                            i,
                            src@,
                            src_offset,
                            size,
                            src_bounds,
                        ),
                    self@ =~= Seq::new(
                        CHUNK_VOLUME as nat,
                        |o: int|
                            if crate::block::spec_box_prefix(
                                o,
                                offset,
                                size,
                                spec_chunk_bounds(),
                                y as int,
                                z as int,
                                0,
                            ) {
                                src@[spec_set_src_pos(o, offset, src_offset, src_bounds)]
                            } else {
                                old(self)@[o]
                            },
                    ),
                decreases size.depth - z,
            {
                proof {
                    lemma_row_budget(size, y as int, z as int);
                    lemma_storage_bits_monotone(
                        self.spec_indices()@.len() + size.width as int,
                        old_len + vol,
                    );
                }
                let ghost len_before = self.spec_indices()@.len() as int;
                let ghost pal_before = self.spec_indices()@;
                self.set_blocks_row(offset, size, src_offset, src_bounds, src, kernel_bits, y, z);
                proof {
                    assert forall|i: int|
                        old_len <= i < self.spec_indices()@.len()
                            implies #[trigger] spec_added_from_box(
                        self.spec_indices()@,
                        i,
                        src@,
                        src_offset,
                        size,
                        src_bounds,
                    ) by {
                        if i < len_before {
                            assert(self.spec_indices()@[i] == pal_before[i]);
                            assert(self.spec_indices()@.subrange(0, i) =~= pal_before.subrange(
                                0,
                                i,
                            ));
                            assert(spec_added_from_box(
                                pal_before,
                                i,
                                src@,
                                src_offset,
                                size,
                                src_bounds,
                            ));
                        }
                    }
                    assert(self@ =~= Seq::new(
                        CHUNK_VOLUME as nat,
                        |o: int|
                            if crate::block::spec_box_prefix(
                                o,
                                offset,
                                size,
                                spec_chunk_bounds(),
                                y as int,
                                z as int + 1,
                                0,
                            ) {
                                src@[spec_set_src_pos(o, offset, src_offset, src_bounds)]
                            } else {
                                old(self)@[o]
                            },
                    ));
                    assert((y as int * size.depth as int + z + 1) * size.width as int == (y as int
                        * size.depth as int + z) * size.width as int + size.width)
                        by (nonlinear_arith);
                }
                z = z + 1;
            }
            proof {
                assert(self@ =~= Seq::new(
                    CHUNK_VOLUME as nat,
                    |o: int|
                        if crate::block::spec_box_prefix(
                            o,
                            offset,
                            size,
                            spec_chunk_bounds(),
                            y as int + 1,
                            0,
                            0,
                        ) {
                            src@[spec_set_src_pos(o, offset, src_offset, src_bounds)]
                        } else {
                            old(self)@[o]
                        },
                ));
                assert((y as int + 1) * size.depth as int * size.width as int == (y as int
                    * size.depth as int + size.depth) * size.width as int) by (nonlinear_arith);
                assert(((y as int + 1) * size.depth as int) * size.width as int == (y as int
                    * size.depth as int + size.depth) * size.width as int) by (nonlinear_arith);
                lemma_layer_budget(size, y as int);
            }
            y = y + 1;
        }
        proof {
            assert forall|o: int| 0 <= o < CHUNK_VOLUME implies (crate::block::spec_box_prefix(
                o,
                offset,
                size,
                spec_chunk_bounds(),
                size.height as int,
                0,
                0,
            ) == crate::block::spec_in_box(o, offset, size, spec_chunk_bounds())) by {}
        }
    }
}

/// A row of the box stays inside its volume budget.
proof fn lemma_row_budget(size: BlockSize, y: int, z: int)
    requires
        0 <= y < size.height,
        0 <= z < size.depth,
    ensures
        (y * size.depth as int + z) * size.width as int + size.width
            <= crate::block::spec_volume(size),
        (y * size.depth as int + z + 1) * size.width as int <= crate::block::spec_volume(size),
        0 <= (y * size.depth as int + z) * size.width as int,
{
    let w = size.width as int;
    let h = size.height as int;
    let d = size.depth as int;
    assert((y * d + z) * w + w <= w * h * d && (y * d + z + 1) * w <= w * h * d && 0 <= (y * d + z)
        * w) by (nonlinear_arith)
        requires
            0 <= y < h,
            0 <= z < d,
            w >= 0,
    ;
}

/// A whole layer of the box stays inside its volume budget.
proof fn lemma_layer_budget(size: BlockSize, y: int)
    requires
        0 <= y < size.height,
    ensures
        ((y + 1) * size.depth as int) * size.width as int <= crate::block::spec_volume(size),
        ((y + 1) * size.depth as int) * size.width as int == (y * size.depth as int
            + size.depth as int) * size.width as int,
{
    let w = size.width as int;
    let h = size.height as int;
    let d = size.depth as int;
    assert(((y + 1) * d) * w <= w * h * d && ((y + 1) * d) * w == (y * d + d) * w)
        by (nonlinear_arith)
        requires
            0 <= y < h,
            w >= 0,
            d >= 0,
    ;
}

/// A non-empty box has a corner cell: the cell at the box's origin
/// lies in the box and inside the source grid.
proof fn lemma_box_corner_cell(src_offset: BlockCoord, size: BlockSize, src_bounds: BlockSize)
    requires
        src_bounds.width >= 1,
        src_bounds.depth >= 1,
        src_offset.x + size.width <= src_bounds.width,
        src_offset.y + size.height <= src_bounds.height,
        src_offset.z + size.depth <= src_bounds.depth,
        crate::block::spec_volume(size) > 0,
    ensures
        ({
            let j0 = crate::block::spec_index_base(
                src_bounds.depth as int,
                src_bounds.width as int,
                src_offset.y as int,
                src_offset.z as int,
            ) + src_offset.x;
            &&& 0 <= j0 < crate::block::spec_volume(src_bounds)
            &&& crate::block::spec_in_box(j0, src_offset, size, src_bounds)
        }),
{
    let sw = size.width as int;
    let sh = size.height as int;
    let sd = size.depth as int;
    let sv = crate::block::spec_volume(size);
    assert(sw >= 1 && sh >= 1 && sd >= 1) by (nonlinear_arith)
        requires
            sv == sw * sh * sd,
            sv > 0,
            sw >= 0,
            sh >= 0,
            sd >= 0,
    ;
    crate::block::lemma_row_coords(
        src_bounds.width as int,
        src_bounds.depth as int,
        src_offset.y as int,
        src_offset.z as int,
        src_offset.x as int,
    );
    crate::block::lemma_base_bounds(src_offset, size, src_bounds, 0, 0);
}

impl ChunkPalette {
    /// Write the box at `src_offset` of the source grid into the box
    /// at `offset` of the chunk. When the whole source repeats one
    /// block, the write collapses to a fill of that block; otherwise
    /// the box is encoded row by row. Chunk cells outside the box are
    /// unchanged.
    pub fn set_slice(
        &mut self,
        offset: BlockCoord,
        size: BlockSize,
        src_offset: BlockCoord,
        src_bounds: BlockSize,
        src: &Vec<BlockId>,
    )
        requires
            old(self).wf(),
            src_bounds.width >= 1,
            src_bounds.height >= 1,
            src_bounds.depth >= 1,
            offset.x + size.width <= CHUNK_WIDTH,
            offset.y + size.height <= CHUNK_HEIGHT,
            offset.z + size.depth <= CHUNK_DEPTH,
            src_offset.x + size.width <= src_bounds.width,
            src_offset.y + size.height <= src_bounds.height,
            src_offset.z + size.depth <= src_bounds.depth,
            crate::block::spec_volume(src_bounds) <= src@.len(),
            src@.len() <= usize::MAX,
            old(self).spec_indices()@.len() + crate::block::spec_volume(size) < u32::MAX,
        ensures
            final(self).wf(),
            final(self)@ =~= Seq::new(
                CHUNK_VOLUME as nat,
                |o: int|
                    if crate::block::spec_in_box(o, offset, size, spec_chunk_bounds()) {
                        src@[spec_set_src_pos(o, offset, src_offset, src_bounds)]
                    } else {
                        old(self)@[o]
                    },
            ),
            old(self).spec_indices()@.len() <= final(self).spec_indices()@.len(),
            final(self).spec_indices()@.len() <= old(self).spec_indices()@.len() + (
            if crate::block::spec_volume(size) == 0 {
                1int
            } else {
                crate::block::spec_volume(size)
            }),
            forall|i: int|
                0 <= i < old(self).spec_indices()@.len()
                    ==> #[trigger] final(self).spec_indices()@[i] == old(self).spec_indices()@[i],
            crate::block::spec_volume(size) > 0 ==> forall|i: int|
                old(self).spec_indices()@.len() <= i < final(self).spec_indices()@.len()
                    ==> #[trigger] spec_added_from_box(
                    final(self).spec_indices()@,
                    i,
                    src@,
                    src_offset,
                    size,
                    src_bounds,
                ),
            (forall|k: int| 0 <= k < src@.len() ==> #[trigger] src@[k] == src@[0]) ==> {
                &&& old(self).spec_indices()@.contains(src@[0]) ==> final(self).spec_indices()@
                    == old(self).spec_indices()@
                &&& !old(self).spec_indices()@.contains(src@[0]) ==> final(self).spec_indices()@
                    =~= old(self).spec_indices()@.push(src@[0])
            },
    {
        proof {
            let w = src_bounds.width as int;
            let h = src_bounds.height as int;
            let d = src_bounds.depth as int;
            assert(w * h * d >= 1) by (nonlinear_arith)
                requires
                    w >= 1,
                    h >= 1,
                    d >= 1,
            ;
            let sw = size.width as int;
            let sh = size.height as int;
            let sd = size.depth as int;
            assert(sw * sh * sd >= 0 && sw * sh <= 256 && sw * sh * sd <= 4096)
                by (nonlinear_arith)
                requires
                    0 <= sw <= 16,
                    0 <= sh <= 16,
                    0 <= sd <= 16,
            ;
        }
        let first: BlockId = src[0];
        let probe = crate::search::block_index_of_any_except::<16>(src.as_slice(), first);
        match probe {
            None => {
                self.fill(offset, size, first);
                proof {
                    if crate::block::spec_volume(size) > 0 {
                        lemma_box_corner_cell(src_offset, size, src_bounds);
                        let j0 = crate::block::spec_index_base(
                            src_bounds.depth as int,
                            src_bounds.width as int,
                            src_offset.y as int,
                            src_offset.z as int,
                        ) + src_offset.x;
                        assert(src@[j0] == first);
                        assert(spec_box_has_block(src@, src_offset, size, src_bounds, first));
                        assert forall|i: int|
                            old(self).spec_indices()@.len() <= i < self.spec_indices()@.len()
                                implies #[trigger] spec_added_from_box(
                            self.spec_indices()@,
                            i,
                            src@,
                            src_offset,
                            size,
                            src_bounds,
                        ) by {
                            lemma_no_earlier_duplicate(&self.indices, i);
                            assert(self.spec_indices()@[i] == first);
                        }
                    }
                    assert forall|o: int|
                        0 <= o < CHUNK_VOLUME && crate::block::spec_in_box(
                            o,
                            offset,
                            size,
                            spec_chunk_bounds(),
                        ) implies src@[#[trigger] spec_set_src_pos(
                        o,
                        offset,
                        src_offset,
                        src_bounds,
                    )] == first by {
                        crate::block::lemma_index_recompose(
                            o,
                            CHUNK_WIDTH as int,
                            CHUNK_DEPTH as int,
                        );
                        let rel_y = crate::block::spec_y_of(
                            o,
                            CHUNK_WIDTH as int,
                            CHUNK_DEPTH as int,
                        ) - offset.y;
                        let rel_z = crate::block::spec_z_of(
                            o,
                            CHUNK_WIDTH as int,
                            CHUNK_DEPTH as int,
                        ) - offset.z;
                        crate::block::lemma_base_bounds(src_offset, size, src_bounds, rel_y, rel_z);
                    }
                    assert(self@ =~= Seq::new(
                        CHUNK_VOLUME as nat,
                        |o: int|
                            if crate::block::spec_in_box(o, offset, size, spec_chunk_bounds()) {
                                src@[spec_set_src_pos(o, offset, src_offset, src_bounds)]
                            } else {
                                old(self)@[o]
                            },
                    ));
                }
            },
            Some(mismatch) => {
                proof {
                    assert(src@[mismatch as int] != src@[0]);
                }
                let vol: usize = size.volume();
                let bits_needed: PartSize = get_storage_bits_for_palette(
                    self.indices.len() + vol,
                );
                proof {
                    let n = self.spec_indices()@.len() + vol;
                    lemma_storage_bits_covers(n as int);
                    vstd::arithmetic::power2::lemma2_to64();
                    lemma_storage_bits_minimal(n as int, 32);
                }
                let b: usize = bits_needed.get();
                let kernel: PartSize = if b <= 8 {
                    PartSize::new(8).unwrap()
                } else if b <= 16 {
                    PartSize::new(16).unwrap()
                } else {
                    PartSize::new(32).unwrap()
                };
                self.set_blocks_core(offset, size, src_offset, src_bounds, src, kernel);
            },
        }
    }
}

} // verus!
