use vstd::prelude::*;
use crate::block::{BlockCoord, BlockId, BlockSize};
use crate::palette::{
    spec_chunk_bounds, spec_get_src_pos, spec_set_src_pos, ChunkPalette, CHUNK_DEPTH,
    CHUNK_HEIGHT, CHUNK_VOLUME, CHUNK_WIDTH,
};

verus! {

/// The position of a chunk in its dimension's chunk grid.
#[derive(Clone, Copy, Debug, Default, PartialEq, Eq, Structural)]
pub struct ChunkLocation {
    pub x: u32,
    pub y: u32,
    pub z: u32,
}

/// The position of a chunk region in its dimension's region grid.
#[derive(Clone, Copy, Debug, Default, PartialEq, Eq, Structural)]
pub struct ChunkRegionLocation {
    pub x: u32,
    pub y: u32,
    pub z: u32,
}

/// A group of chunks published together.
pub struct ChunkRegion {}

/// The backing representation of a chunk.
pub enum ChunkStorage {
    /// Implicitly all empty blocks; no allocation.
    Empty,
    /// A single block fills the whole chunk; no allocation.
    Value(BlockId),
    /// The general palette-compressed case.
    Palette(ChunkPalette),
}

/// A fixed-size three-dimensional grid of blocks with one of three
/// backing representations; writes promote the implicit
/// representations to the palette.
pub struct Chunk {
    storage: ChunkStorage,
}

impl Chunk {
    /// The backing representation.
    pub closed spec fn spec_storage(&self) -> &ChunkStorage {
        &self.storage
    }

    /// The block each cell holds; empty and single-value chunks hold
    /// their implicit block everywhere.
    pub open spec fn view(&self) -> Seq<BlockId> {
        match *self.spec_storage() {
            ChunkStorage::Empty => Seq::new(CHUNK_VOLUME as nat, |o: int| BlockId(0)),
            ChunkStorage::Value(v) => Seq::new(CHUNK_VOLUME as nat, |o: int| v),
            ChunkStorage::Palette(p) => p.view(),
        }
    }

    /// How many palette entries back the chunk.
    pub open spec fn spec_palette_len(&self) -> int {
        match *self.spec_storage() {
            ChunkStorage::Palette(p) => p.spec_indices()@.len() as int,
            _ => 1,
        }
    }

    /// The block identifiers backing the chunk, in palette order; an
    /// implicit representation is backed by its one block.
    pub open spec fn spec_palette(&self) -> Seq<BlockId> {
        match *self.spec_storage() {
            ChunkStorage::Empty => seq![BlockId(0)],
            ChunkStorage::Value(v) => seq![v],
            ChunkStorage::Palette(p) => p.spec_indices()@,
        }
    }

    /// Well-formed: a palette-backed chunk has a consistent palette.
    pub open spec fn wf(&self) -> bool {
        match *self.spec_storage() {
            ChunkStorage::Palette(p) => p.wf(),
            _ => true,
        }
    }

    /// An implicitly empty chunk.
    pub fn new() -> (r: Self)
        ensures
            r.wf(),
            r.spec_storage() is Empty,
            r@ =~= Seq::new(CHUNK_VOLUME as nat, |o: int| BlockId(0)),
    {
        Chunk { storage: ChunkStorage::Empty }
    }

    /// A chunk implicitly filled with one block; no allocation.
    pub fn filled(value: BlockId) -> (r: Self)
        ensures
            r.wf(),
            r.spec_storage() is Value,
            r@ =~= Seq::new(CHUNK_VOLUME as nat, |o: int| value),
    {
        Chunk { storage: ChunkStorage::Value(value) }
    }

    pub fn width(&self) -> (r: usize)
        ensures
            r == CHUNK_WIDTH,
    {
        CHUNK_WIDTH
    }

    pub fn height(&self) -> (r: usize)
        ensures
            r == CHUNK_HEIGHT,
    {
        CHUNK_HEIGHT
    }

    pub fn depth(&self) -> (r: usize)
        ensures
            r == CHUNK_DEPTH,
    {
        CHUNK_DEPTH
    }

    /// The chunk's extent.
    pub fn size(&self) -> (r: BlockSize)
        ensures
            r == spec_chunk_bounds(),
    {
        BlockSize { width: CHUNK_WIDTH, height: CHUNK_HEIGHT, depth: CHUNK_DEPTH }
    }

    /// The linear cell index of the coordinates `(x, y, z)`.
    pub fn get_offset(&self, x: usize, y: usize, z: usize) -> (r: usize)
        requires
            x < CHUNK_WIDTH,
            y < CHUNK_HEIGHT,
            z < CHUNK_DEPTH,
        ensures
            r == crate::block::spec_index_base(
                CHUNK_DEPTH as int,
                CHUNK_WIDTH as int,
                y as int,
                z as int,
            ) + x,
            r < CHUNK_VOLUME,
    {
        crate::block::get_index_base(CHUNK_DEPTH, CHUNK_WIDTH, y, z) + x
    }

    /// The linear cell index of a position.
    pub fn get_coord_offset(&self, offset: BlockCoord) -> (r: usize)
        requires
            offset.x < CHUNK_WIDTH,
            offset.y < CHUNK_HEIGHT,
            offset.z < CHUNK_DEPTH,
        ensures
            r == crate::block::spec_index_base(
                CHUNK_DEPTH as int,
                CHUNK_WIDTH as int,
                offset.y as int,
                offset.z as int,
            ) + offset.x,
            r < CHUNK_VOLUME,
    {
        self.get_offset(offset.x, offset.y, offset.z)
    }

    /// The block a cell holds: present exactly when the cell index is
    /// inside the chunk. An implicitly empty chunk answers the empty
    /// block and a single-value chunk its one block, without touching
    /// the representation.
    pub fn get_at(&self, offset: usize) -> (r: Option<BlockId>)
        requires
            self.wf(),
        ensures
            offset < CHUNK_VOLUME ==> r == Some(self@[offset as int]),
            offset >= CHUNK_VOLUME ==> r is None,
    {
        match &self.storage {
            ChunkStorage::Empty => {
                if offset < CHUNK_VOLUME {
                    Some(BlockId(0))
                } else {
                    None
                }
            },
            ChunkStorage::Value(value) => {
                if offset < CHUNK_VOLUME {
                    Some(*value)
                } else {
                    None
                }
            },
            ChunkStorage::Palette(palette) => palette.get_at(offset),
        }
    }

    /// Replace an implicit representation with a palette seeded with
    /// the implicit block; the blocks held by the cells are unchanged.
    fn promote(&mut self)
        requires
            old(self).wf(),
        ensures
            final(self).wf(),
            final(self).spec_storage() is Palette,
            final(self)@ =~= old(self)@,
            final(self).spec_palette() =~= old(self).spec_palette(),
    {
        let implicit: Option<BlockId> = match &self.storage {
            ChunkStorage::Empty => Some(BlockId(0)),
            ChunkStorage::Value(v) => Some(*v),
            ChunkStorage::Palette(_) => None,
        };
        if let Some(value) = implicit {
            self.storage = ChunkStorage::Palette(ChunkPalette::filled(value));
        }
    }

    /// Write `value` at a cell, promoting to a palette first; the flag
    /// tells whether the cell's block changed. Absent exactly when the
    /// cell index is outside the chunk.
    pub fn set_at(&mut self, offset: usize, value: BlockId) -> (r: Option<bool>)
        requires
            old(self).wf(),
            old(self).spec_palette_len() < u32::MAX,
        ensures
            final(self).wf(),
            offset < CHUNK_VOLUME ==> r == Some(old(self)@[offset as int] != value)
                && final(self)@ =~= old(self)@.update(offset as int, value),
            offset >= CHUNK_VOLUME ==> r is None && final(self)@ =~= old(self)@,
            final(self).spec_palette_len() <= old(self).spec_palette_len() + 1,
            old(self).spec_palette().contains(value) ==> final(self).spec_palette() =~= old(
                self,
            ).spec_palette(),
            !old(self).spec_palette().contains(value) ==> final(self).spec_palette() =~= old(
                self,
            ).spec_palette().push(value),
    {
        self.promote();
        match &mut self.storage {
            ChunkStorage::Palette(palette) => palette.set_at(offset, value),
            _ => {
                proof {
                    assert(false);
                }
                None
            },
        }
    }

    /// Decode the box at `offset` of the chunk into the box at
    /// `dst_offset` of the destination grid; grid cells outside the
    /// destination box are unchanged.
    pub fn get_slice(
        &self,
        offset: BlockCoord,
        size: BlockSize,
        dst_offset: BlockCoord,
        dst_bounds: BlockSize,
        dst: &mut Vec<BlockId>,
    )
        requires
            self.wf(),
            dst_bounds.width >= 1,
            dst_bounds.depth >= 1,
            offset.x + size.width <= CHUNK_WIDTH,
            offset.y + size.height <= CHUNK_HEIGHT,
            offset.z + size.depth <= CHUNK_DEPTH,
            dst_offset.x + size.width <= dst_bounds.width,
            dst_offset.y + size.height <= dst_bounds.height,
            dst_offset.z + size.depth <= dst_bounds.depth,
            crate::block::spec_volume(dst_bounds) <= old(dst)@.len(),
            old(dst)@.len() <= usize::MAX,
        ensures
            final(dst)@.len() == old(dst)@.len(),
            final(dst)@ =~= Seq::new(
                old(dst)@.len(),
                |j: int|
                    if crate::block::spec_in_box(j, dst_offset, size, dst_bounds) {
                        self@[spec_get_src_pos(j, offset, dst_offset, dst_bounds)]
                    } else {
                        old(dst)@[j]
                    },
            ),
    {
        match &self.storage {
            ChunkStorage::Empty => {
                crate::block::fill(dst_offset, size, BlockId(0), dst_bounds, dst);
                proof {
                    lemma_box_src_pos_in_chunk(offset, size, dst_offset, dst_bounds, old(dst)@.len() as int);
                }
            },
            ChunkStorage::Value(value) => {
                let v: BlockId = *value;
                crate::block::fill(dst_offset, size, v, dst_bounds, dst);
                proof {
                    lemma_box_src_pos_in_chunk(offset, size, dst_offset, dst_bounds, old(dst)@.len() as int);
                }
            },
            ChunkStorage::Palette(palette) => {
                palette.get_slice(offset, size, dst_offset, dst_bounds, dst);
            },
        }
    }

    /// Write the box at `src_offset` of the source grid into the box
    /// at `offset` of the chunk, promoting to a palette first; chunk
    /// cells outside the box are unchanged.
    pub fn set_slice(
        &mut self,
        offset: BlockCoord,
        size: BlockSize,
        src_offset: BlockCoord,
        src_bounds: BlockSize,
        src: &Vec<BlockId>,
    )
        requires
            old(self).wf(),
            src_bounds.width >= 1,
            src_bounds.height >= 1,
            src_bounds.depth >= 1,
            offset.x + size.width <= CHUNK_WIDTH,
            offset.y + size.height <= CHUNK_HEIGHT,
            offset.z + size.depth <= CHUNK_DEPTH,
            src_offset.x + size.width <= src_bounds.width,
            src_offset.y + size.height <= src_bounds.height,
            src_offset.z + size.depth <= src_bounds.depth,
            crate::block::spec_volume(src_bounds) <= src@.len(),
            src@.len() <= usize::MAX,
            old(self).spec_palette_len() + crate::block::spec_volume(size) < u32::MAX,
        ensures
            final(self).wf(),
            final(self)@ =~= Seq::new(
                CHUNK_VOLUME as nat,
                |o: int|
                    if crate::block::spec_in_box(o, offset, size, spec_chunk_bounds()) {
                        src@[spec_set_src_pos(o, offset, src_offset, src_bounds)]
                    } else {
                        old(self)@[o]
                    },
            ),
            final(self).spec_palette_len() <= old(self).spec_palette_len() + (
            if crate::block::spec_volume(size) == 0 {
                1int
            } else {
                crate::block::spec_volume(size)
            }),
            forall|i: int|
                0 <= i < old(self).spec_palette().len()
                    ==> #[trigger] final(self).spec_palette()[i] == old(self).spec_palette()[i],
            crate::block::spec_volume(size) > 0 ==> forall|i: int|
                old(self).spec_palette().len() <= i < final(self).spec_palette().len()
                    ==> #[trigger] crate::palette::spec_added_from_box(
                    final(self).spec_palette(),
                    i,
                    src@,
                    src_offset,
                    size,
                    src_bounds,
                ),
            (forall|k: int| 0 <= k < src@.len() ==> #[trigger] src@[k] == src@[0]) ==> {
                &&& old(self).spec_palette().contains(src@[0]) ==> final(self).spec_palette()
                    =~= old(self).spec_palette()
                &&& !old(self).spec_palette().contains(src@[0]) ==> final(self).spec_palette()
                    =~= old(self).spec_palette().push(src@[0])
            },
    {
        self.promote();
        match &mut self.storage {
            ChunkStorage::Palette(palette) => {
                palette.set_slice(offset, size, src_offset, src_bounds, src);
            },
            _ => {
                proof {
                    assert(false);
                }
            },
        }
    }

    /// Fill the box at `offset` with `value`, promoting to a palette
    /// first; chunk cells outside the box are unchanged.
    pub fn fill(&mut self, offset: BlockCoord, size: BlockSize, value: BlockId)
        requires
            old(self).wf(),
            old(self).spec_palette_len() < u32::MAX,
            offset.x + size.width <= CHUNK_WIDTH,
            offset.y + size.height <= CHUNK_HEIGHT,
            offset.z + size.depth <= CHUNK_DEPTH,
        ensures
            final(self).wf(),
            final(self)@ =~= Seq::new(
                CHUNK_VOLUME as nat,
                |o: int|
                    if crate::block::spec_in_box(o, offset, size, spec_chunk_bounds()) {
                        value
                    } else {
                        old(self)@[o]
                    },
            ),
            final(self).spec_palette_len() <= old(self).spec_palette_len() + 1,
            old(self).spec_palette().contains(value) ==> final(self).spec_palette() =~= old(
                self,
            ).spec_palette(),
            !old(self).spec_palette().contains(value) ==> final(self).spec_palette() =~= old(
                self,
            ).spec_palette().push(value),
    {
        self.promote();
        match &mut self.storage {
            ChunkStorage::Palette(palette) => {
                palette.fill(offset, size, value);
            },
            _ => {
                proof {
                    assert(false);
                }
            },
        }
    }
}

/// Every cell of a destination box reads from a chunk cell: the source
/// position of an in-box grid index lies inside the chunk.
proof fn lemma_box_src_pos_in_chunk(
    offset: BlockCoord,
    size: BlockSize,
    dst_offset: BlockCoord,
    dst_bounds: BlockSize,
    dst_len: int,
)
    requires
        dst_bounds.width >= 1,
        dst_bounds.depth >= 1,
        offset.x + size.width <= CHUNK_WIDTH,
        offset.y + size.height <= CHUNK_HEIGHT,
        offset.z + size.depth <= CHUNK_DEPTH,
        dst_offset.x + size.width <= dst_bounds.width,
        dst_offset.y + size.height <= dst_bounds.height,
        dst_offset.z + size.depth <= dst_bounds.depth,
    ensures
        forall|j: int|
            0 <= j < dst_len && crate::block::spec_in_box(j, dst_offset, size, dst_bounds)
                ==> 0 <= #[trigger] spec_get_src_pos(j, offset, dst_offset, dst_bounds)
                < CHUNK_VOLUME,
{
    assert forall|j: int|
        0 <= j < dst_len && crate::block::spec_in_box(j, dst_offset, size, dst_bounds) implies 0
        <= #[trigger] spec_get_src_pos(j, offset, dst_offset, dst_bounds) < CHUNK_VOLUME by {
        crate::block::lemma_index_recompose(
            j,
            dst_bounds.width as int,
            dst_bounds.depth as int,
        );
        let rel_y = crate::block::spec_y_of(j, dst_bounds.width as int, dst_bounds.depth as int)
            - dst_offset.y;
        let rel_z = crate::block::spec_z_of(j, dst_bounds.width as int, dst_bounds.depth as int)
            - dst_offset.z;
        crate::block::lemma_base_bounds(offset, size, spec_chunk_bounds(), rel_y, rel_z);
    }
}

} // verus!
