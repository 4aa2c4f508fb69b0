use voxel_pack::block::{fill, BlockCoord, BlockId, BlockSize};
use voxel_pack::index_map::IndexMap;
use voxel_pack::chunk::Chunk;
use voxel_pack::palette::{get_storage_bits_for_palette, ChunkPalette, CHUNK_VOLUME};

fn offset_of(x: usize, y: usize, z: usize) -> usize {
    (y * 16 + z) * 16 + x
}

#[test]
fn new_palette_is_empty_blocks() {
    let p = ChunkPalette::new();
    assert_eq!(p.get_at(0), Some(BlockId(0)));
    assert_eq!(p.get_at(CHUNK_VOLUME - 1), Some(BlockId(0)));
    assert_eq!(p.get_at(CHUNK_VOLUME), None);
}

#[test]
fn set_at_and_get_at() {
    let mut p = ChunkPalette::new();
    assert_eq!(p.set_at(5, BlockId(9)), Some(true));
    assert_eq!(p.set_at(5, BlockId(9)), Some(false));
    assert_eq!(p.get_at(5), Some(BlockId(9)));
    assert_eq!(p.get_at(6), Some(BlockId(0)));
    assert_eq!(p.set_at(CHUNK_VOLUME, BlockId(9)), None);
}

#[test]
fn fill_then_read() {
    // Filling the whole chunk stores the block everywhere; the palette
    // holds the pre-seeded empty block and the fill block.
    let mut p = ChunkPalette::new();
    p.fill(BlockCoord::splat(0), BlockSize::splat(16), BlockId(7));
    assert_eq!(p.get_at(0), Some(BlockId(7)));
    assert_eq!(p.get_at(16 * 16 * 16 - 1), Some(BlockId(7)));
    assert_eq!(p.palette_len(), 2);
    assert_eq!(p.storage_value_bits(), 1);
}

#[test]
fn growing_palette_width() {
    // Each new block id grows the palette; previously written cells
    // keep their blocks across every width change.
    let mut p = ChunkPalette::new();
    for id in 1..=3u32 {
        let offset = (id - 1) as usize;
        assert_eq!(p.set_at(offset, BlockId(id)), Some(true));
        for back in 0..offset {
            assert_eq!(p.get_at(back), Some(BlockId(back as u32 + 1)));
        }
    }
    assert_eq!(p.get_at(0), Some(BlockId(1)));
    assert_eq!(p.get_at(1), Some(BlockId(2)));
    assert_eq!(p.get_at(2), Some(BlockId(3)));
    assert_eq!(p.get_at(3), Some(BlockId(0)));
    // Four palette entries pack at two bits.
    assert_eq!(p.palette_len(), 4);
    assert_eq!(p.storage_value_bits(), 2);
}

#[test]
fn wide_palette_keeps_values() {
    // Push the palette past several width boundaries.
    let mut p = ChunkPalette::new();
    for i in 0..600usize {
        assert_eq!(p.set_at(i, BlockId(1000 + i as u32)), Some(true));
    }
    for i in 0..600usize {
        assert_eq!(p.get_at(i), Some(BlockId(1000 + i as u32)));
    }
    assert_eq!(p.get_at(600), Some(BlockId(0)));
    assert_eq!(p.palette_len(), 601);
    assert_eq!(p.storage_value_bits(), 10);
}

#[test]
fn striped_set_slice() {
    // A 4x1x4 source of fives with one six in the corner lands at the
    // target offset; everything else stays empty.
    let mut p = ChunkPalette::new();
    let mut src: Vec<BlockId> = vec![BlockId(5); 16];
    src[0] = BlockId(6);
    let bounds = BlockSize { width: 4, height: 1, depth: 4 };
    p.set_slice(
        BlockCoord { x: 1, y: 2, z: 3 },
        bounds,
        BlockCoord::splat(0),
        bounds,
        &src,
    );
    assert_eq!(p.get_at(offset_of(1, 2, 3)), Some(BlockId(6)));
    for x in 0..4 {
        for z in 0..4 {
            if !(x == 0 && z == 0) {
                assert_eq!(p.get_at(offset_of(1 + x, 2, 3 + z)), Some(BlockId(5)));
            }
        }
    }
    assert_eq!(p.get_at(offset_of(0, 2, 3)), Some(BlockId(0)));
    assert_eq!(p.get_at(offset_of(5, 2, 3)), Some(BlockId(0)));
    assert_eq!(p.get_at(offset_of(1, 1, 3)), Some(BlockId(0)));
    // The palette gained the five and the six beside the empty block.
    assert_eq!(p.palette_len(), 3);
}

#[test]
fn run_fast_path_fills() {
    // A source that repeats one block takes the fill path and the box
    // reads back uniformly.
    let mut p = ChunkPalette::new();
    let src: Vec<BlockId> = vec![BlockId(9); 16];
    let bounds = BlockSize { width: 16, height: 1, depth: 1 };
    p.set_slice(
        BlockCoord { x: 0, y: 4, z: 2 },
        bounds,
        BlockCoord::splat(0),
        bounds,
        &src,
    );
    for x in 0..16 {
        assert_eq!(p.get_at(offset_of(x, 4, 2)), Some(BlockId(9)));
    }
    assert_eq!(p.get_at(offset_of(0, 4, 3)), Some(BlockId(0)));

    // The fast path leaves exactly the state a fill leaves: same
    // palette, same width, same cells.
    let mut q = ChunkPalette::new();
    q.fill(
        BlockCoord { x: 0, y: 4, z: 2 },
        bounds,
        BlockId(9),
    );
    assert_eq!(p.palette_len(), q.palette_len());
    assert_eq!(p.storage_value_bits(), q.storage_value_bits());
    for o in 0..CHUNK_VOLUME {
        assert_eq!(p.get_at(o), q.get_at(o));
    }
}

#[test]
fn get_slice_reads_box() {
    let mut p = ChunkPalette::new();
    p.fill(
        BlockCoord { x: 2, y: 0, z: 2 },
        BlockSize { width: 2, height: 1, depth: 2 },
        BlockId(4),
    );
    let bounds = BlockSize { width: 4, height: 1, depth: 4 };
    let mut dst: Vec<BlockId> = vec![BlockId(77); 16];
    p.get_slice(
        BlockCoord { x: 1, y: 0, z: 1 },
        bounds,
        BlockCoord::splat(0),
        bounds,
        &mut dst,
    );
    for x in 0..4 {
        for z in 0..4 {
            let expect = if (1..3).contains(&x) && (1..3).contains(&z) {
                BlockId(4)
            } else {
                BlockId(0)
            };
            assert_eq!(dst[z * 4 + x], expect);
        }
    }
}

#[test]
fn set_then_get_slice_round_trip() {
    let mut p = ChunkPalette::new();
    let bounds = BlockSize { width: 3, height: 2, depth: 3 };
    let mut src: Vec<BlockId> = Vec::new();
    for i in 0..18u32 {
        src.push(BlockId(100 + i));
    }
    p.set_slice(
        BlockCoord { x: 5, y: 6, z: 7 },
        bounds,
        BlockCoord::splat(0),
        bounds,
        &src,
    );
    let mut dst: Vec<BlockId> = vec![BlockId(0); 18];
    p.get_slice(
        BlockCoord { x: 5, y: 6, z: 7 },
        bounds,
        BlockCoord::splat(0),
        bounds,
        &mut dst,
    );
    assert_eq!(dst, src);
}

#[test]
fn storage_bits_formula() {
    assert_eq!(get_storage_bits_for_palette(0).get(), 1);
    assert_eq!(get_storage_bits_for_palette(1).get(), 1);
    assert_eq!(get_storage_bits_for_palette(2).get(), 1);
    assert_eq!(get_storage_bits_for_palette(3).get(), 2);
    assert_eq!(get_storage_bits_for_palette(4).get(), 2);
    assert_eq!(get_storage_bits_for_palette(5).get(), 3);
    assert_eq!(get_storage_bits_for_palette(256).get(), 8);
    assert_eq!(get_storage_bits_for_palette(257).get(), 9);
    assert_eq!(get_storage_bits_for_palette(0x1_0000_0000).get(), 32);
}

#[test]
fn chunk_empty_reads_zero() {
    // Point reads and slice reads on an implicitly empty chunk both
    // see the implicit all-zero block; out-of-range reads see nothing.
    let c = Chunk::new();
    assert_eq!(c.get_at(0), Some(BlockId(0)));
    assert_eq!(c.get_at(CHUNK_VOLUME - 1), Some(BlockId(0)));
    assert_eq!(c.get_at(CHUNK_VOLUME), None);
    let bounds = BlockSize { width: 2, height: 2, depth: 2 };
    let mut dst: Vec<BlockId> = vec![BlockId(9); 8];
    c.get_slice(
        BlockCoord::splat(0),
        bounds,
        BlockCoord::splat(0),
        bounds,
        &mut dst,
    );
    assert_eq!(dst, vec![BlockId(0); 8]);
}

#[test]
fn chunk_single_value_reads() {
    // A single-value chunk answers its one block at every cell,
    // nothing past the end, and keeps its blocks across a point write.
    let mut c = Chunk::filled(BlockId(3));
    assert_eq!(c.get_at(0), Some(BlockId(3)));
    assert_eq!(c.get_at(CHUNK_VOLUME - 1), Some(BlockId(3)));
    assert_eq!(c.get_at(CHUNK_VOLUME), None);
    assert_eq!(c.set_at(7, BlockId(4)), Some(true));
    assert_eq!(c.get_at(7), Some(BlockId(4)));
    assert_eq!(c.get_at(8), Some(BlockId(3)));
}

#[test]
fn chunk_set_promotes() {
    let mut c = Chunk::new();
    assert_eq!(c.set_at(offset_of(3, 3, 3), BlockId(5)), Some(true));
    assert_eq!(c.get_at(offset_of(3, 3, 3)), Some(BlockId(5)));
    assert_eq!(c.get_at(offset_of(3, 3, 4)), Some(BlockId(0)));
    assert_eq!(c.set_at(offset_of(3, 3, 3), BlockId(5)), Some(false));
}

#[test]
fn chunk_fill_and_slice() {
    let mut c = Chunk::new();
    c.fill(BlockCoord::splat(0), BlockSize::splat(16), BlockId(7));
    assert_eq!(c.get_at(0), Some(BlockId(7)));
    assert_eq!(c.get_at(CHUNK_VOLUME - 1), Some(BlockId(7)));

    let bounds = BlockSize { width: 2, height: 1, depth: 2 };
    let src = vec![BlockId(1), BlockId(2), BlockId(3), BlockId(4)];
    c.set_slice(
        BlockCoord { x: 0, y: 0, z: 0 },
        bounds,
        BlockCoord::splat(0),
        bounds,
        &src,
    );
    assert_eq!(c.get_at(offset_of(0, 0, 0)), Some(BlockId(1)));
    assert_eq!(c.get_at(offset_of(1, 0, 0)), Some(BlockId(2)));
    assert_eq!(c.get_at(offset_of(0, 0, 1)), Some(BlockId(3)));
    assert_eq!(c.get_at(offset_of(1, 0, 1)), Some(BlockId(4)));
    assert_eq!(c.get_at(offset_of(2, 0, 0)), Some(BlockId(7)));
}

#[test]
fn chunk_dimensions() {
    let c = Chunk::new();
    assert_eq!(c.width(), 16);
    assert_eq!(c.height(), 16);
    assert_eq!(c.depth(), 16);
    let s = c.size();
    assert_eq!(s.width, 16);
    assert_eq!(s.volume(), 4096);
    assert_eq!(c.get_offset(1, 2, 3), offset_of(1, 2, 3));
    assert_eq!(
        c.get_coord_offset(BlockCoord { x: 1, y: 2, z: 3 }),
        offset_of(1, 2, 3)
    );
}

#[test]
fn grid_fill_boxes() {
    // The free fill writes a box inside a plain grid.
    let bounds = BlockSize { width: 4, height: 3, depth: 2 };
    let mut grid: Vec<u8> = vec![0u8; 24];
    fill(
        BlockCoord { x: 1, y: 1, z: 0 },
        BlockSize { width: 2, height: 2, depth: 2 },
        9u8,
        bounds,
        &mut grid,
    );
    let mut expected: Vec<u8> = vec![0u8; 24];
    for y in 1..3 {
        for z in 0..2 {
            for x in 1..3 {
                expected[(y * 2 + z) * 4 + x] = 9;
            }
        }
    }
    assert_eq!(grid, expected);
}

#[test]
fn index_map_bijection() {
    let mut m = IndexMap::new();
    assert_eq!(m.len(), 0);
    assert_eq!(m.get_next_index(), 0);
    assert_eq!(m.index_or_add(BlockId(7)), (0, true));
    assert_eq!(m.index_or_add(BlockId(3)), (1, true));
    assert_eq!(m.index_or_add(BlockId(7)), (0, false));
    assert_eq!(m.len(), 2);
    assert_eq!(m.get_next_index(), 2);
    assert_eq!(m.index(&BlockId(3)), Some(1));
    assert_eq!(m.index(&BlockId(99)), None);
    assert_eq!(m.value(0), Some(BlockId(7)));
    assert_eq!(m.value(1), Some(BlockId(3)));
    assert_eq!(m.value(2), None);
}

#[test]
fn block_splats() {
    let c = BlockCoord::splat(4);
    assert_eq!((c.x, c.y, c.z), (4, 4, 4));
    let s = BlockSize::splat(3);
    assert_eq!((s.width, s.height, s.depth), (3, 3, 3));
    assert_eq!(s.volume(), 27);
}
