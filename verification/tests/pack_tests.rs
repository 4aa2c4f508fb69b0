use voxel_pack::codec::{pack, unpack};
use voxel_pack::order::{ConstPackOrder, PackOrder, VarPackOrder};
use voxel_pack::pack_vec::PackVec;
use voxel_pack::part::{part_count_ceil, PackIndex, PartKey, PartOffset, PartSize};

#[test]
fn set_get_round_trip() {
    // Writing then reading yields the value truncated to the width.
    for bits in 1..=64 {
        let mut vec = PackVec::new_var(PartSize::new(bits).unwrap());
        vec.extend_with(40, 0);
        let x: u64 = 0xdead_beef_cafe_f00d;
        let mask: u64 = if bits == 64 { u64::MAX } else { (1u64 << bits) - 1 };
        assert_eq!(vec.set(17, x), Some(0));
        assert_eq!(vec.get(17), Some(x & mask));
        for i in 0..40 {
            if i != 17 {
                assert_eq!(vec.get(i), Some(0));
            }
        }
    }
}

#[test]
fn get_set_out_of_range() {
    let mut vec = PackVec::new_var(PartSize::new(9).unwrap());
    vec.extend_with(5, 3);
    assert_eq!(vec.get(5), None);
    assert_eq!(vec.set(5, 1), None);
    assert_eq!(vec.get(4), Some(3));
}

#[test]
fn push_grows_by_parts() {
    let mut vec = PackVec::new_var(PartSize::new(16).unwrap());
    assert_eq!(vec.len(), 0);
    assert_eq!(vec.capacity(), 0);
    for i in 0..9 {
        vec.push(i as u64 + 100);
    }
    assert_eq!(vec.len(), 9);
    // Four 16-bit values per part: nine values occupy three parts.
    assert_eq!(vec.part_len(), 3);
    assert!(vec.capacity() >= 9);
    for i in 0..9 {
        assert_eq!(vec.get(i), Some(i as u64 + 100));
    }
}

#[test]
fn with_capacity_reserves() {
    let order = VarPackOrder::new(PartSize::new(10).unwrap());
    let vec: PackVec<VarPackOrder> = PackVec::with_capacity(100, order);
    assert_eq!(vec.len(), 0);
    assert!(vec.capacity() >= 100);
}

#[test]
fn extend_with_fills() {
    let mut vec = PackVec::new_var(PartSize::new(12).unwrap());
    vec.extend_with(7, 0xabc);
    vec.extend_with(3, 0x123);
    assert_eq!(vec.len(), 10);
    for i in 0..7 {
        assert_eq!(vec.get(i), Some(0xabc));
    }
    for i in 7..10 {
        assert_eq!(vec.get(i), Some(0x123));
    }
}

#[test]
fn const_order_matches_var_order() {
    // The compile-time order behaves exactly like the runtime one.
    let mut cvec: PackVec<ConstPackOrder<11>> = PackVec::new(ConstPackOrder::new());
    let mut vvec = PackVec::new_var(PartSize::new(11).unwrap());
    for i in 0..50 {
        let x: u64 = (i * 37 + 11) % 2048;
        cvec.push(x);
        vvec.push(x);
    }
    assert_eq!(cvec.order().value_bits().get(), 11);
    assert_eq!(cvec.order().values_per_part().get(), 5);
    for i in 0..50 {
        assert_eq!(cvec.get(i), vvec.get(i));
    }
}

#[test]
fn pack_unpack_inverse() {
    // Values below the width round-trip through pack then unpack.
    for bits in 1..=12 {
        let width = PartSize::new(bits).unwrap();
        let vpp = 64 / bits;
        let count: usize = 3 * vpp + 1;
        let mut src: Vec<u64> = Vec::new();
        let mut x: u64 = 1;
        let limit: u64 = 1u64 << bits;
        for _i in 0..count {
            x = (x * 31 + 17) % limit;
            src.push(x);
        }
        let mut words: Vec<u64> = vec![0u64; 8];
        pack(&mut words, 2, &src, width);
        let mut dst: Vec<u64> = vec![0u64; count];
        unpack(&mut dst, &words, 2, width);
        assert_eq!(dst, src);
    }
}

#[test]
fn unpack_offset_head() {
    // Unpacking from an unaligned offset reads the right slots.
    let width = PartSize::new(8).unwrap();
    let mut words: Vec<u64> = vec![0u64; 4];
    let src: Vec<u64> = (0..20).map(|i| (i + 40) as u64).collect();
    pack(&mut words, 3, &src, width);
    let mut dst: Vec<u64> = vec![0u64; 10];
    unpack(&mut dst, &words, 8, width);
    for i in 0..10 {
        assert_eq!(dst[i], (45 + i) as u64);
    }
}

#[test]
fn pack_preserves_neighbours() {
    let width = PartSize::new(4).unwrap();
    let mut words: Vec<u64> = vec![u64::MAX; 2];
    let src: Vec<u64> = vec![0, 0, 0];
    pack(&mut words, 5, &src, width);
    let mut dst: Vec<u64> = vec![0u64; 32];
    unpack(&mut dst, &words, 0, width);
    for i in 0..32 {
        if (5..8).contains(&i) {
            assert_eq!(dst[i], 0);
        } else {
            assert_eq!(dst[i], 0xf);
        }
    }
}

#[test]
fn fill_overwrites_all() {
    let mut vec = PackVec::new_var(PartSize::new(6).unwrap());
    for i in 0..25 {
        vec.push(i as u64);
    }
    vec.fill(0x7fu64);
    for i in 0..25 {
        assert_eq!(vec.get(i), Some(0x3f));
    }
}

#[test]
fn part_key_decomposes() {
    let v = PartSize::new(5).unwrap();
    let vpp = v.values_per_part().unwrap();
    assert_eq!(vpp.get(), 12);
    let key = PartKey::new(30, v, vpp);
    assert_eq!(key.part, 2);
    assert_eq!(key.val.get(), 6);
    assert_eq!(key.bit.get(), 30);
}

#[test]
fn part_count_ceil_rounds_up() {
    let vpp = PartSize::new(12).unwrap();
    assert_eq!(part_count_ceil(0, vpp), 0);
    assert_eq!(part_count_ceil(1, vpp), 1);
    assert_eq!(part_count_ceil(12, vpp), 1);
    assert_eq!(part_count_ceil(13, vpp), 2);
}

#[test]
fn pack_index_round_trip() {
    let start = PartOffset::new(9).unwrap();
    let idx = PackIndex::from_range(start, 1234).unwrap();
    assert_eq!(idx.start().get(), 9);
    assert_eq!(idx.len(), 1234);
    let idx2 = PackIndex::from_len(77).unwrap();
    assert_eq!(idx2.start().get(), 0);
    assert_eq!(idx2.len(), 77);
    assert_eq!(PackIndex::from_range(start, usize::MAX), None);
}

#[test]
fn part_size_bounds() {
    assert!(PartSize::new(0).is_none());
    assert!(PartSize::new(65).is_none());
    assert_eq!(PartSize::new(64).unwrap().get(), 64);
    assert_eq!(PartSize::max().get(), 64);
    assert_eq!(PartOffset::max().get(), 64);
    assert_eq!(PartSize::new(3).unwrap().value_mask(), 0b111);
    assert_eq!(PartSize::new(64).unwrap().value_mask(), u64::MAX);
    assert!(PartOffset::new(65).is_none());
    assert_eq!(PartOffset::new(64).unwrap().get(), 64);
}
