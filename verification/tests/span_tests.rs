use voxel_pack::order::{ConstPackOrder, PackOrder, VarPackOrder};
use voxel_pack::pack_vec::PackVec;
use voxel_pack::part::{PackIndex, PartOffset, PartSize};
use voxel_pack::span::{value_count, PackSpan};

fn collect_span(vec: &PackVec<VarPackOrder>) -> Vec<u64> {
    let mut out: Vec<u64> = Vec::new();
    let mut it = vec.as_span().iter();
    while let Some(v) = it.next() {
        out.push(v);
    }
    out
}

#[test]
fn span_span_cut() {
    let mut cvec: PackVec<ConstPackOrder<8>> = PackVec::new(ConstPackOrder::new());
    cvec.extend_with(16, 3);
    assert_eq!(cvec.len(), 16);
    assert_eq!(cvec.get(0), Some(3));

    let mut vec = PackVec::new_var(PartSize::new(1).unwrap());
    vec.extend_with(64, 0);

    let vec_len = vec.len();
    let span = vec.as_span_mut();
    assert_eq!(vec_len, span.len());

    let cut1 = span.cut(4, 64);
    assert_eq!(cut1.len(), 60);

    let cut2 = cut1.cut(4, 60);
    assert_eq!(cut2.len(), 56);

    for i in 0..5 {
        cut2.set(&mut vec, i, 1).unwrap();
        assert_eq!(cut2.get(&vec, i), Some(1));
    }

    vec.set(0, 1).unwrap();

    println!("{:#b}", vec.get(0).unwrap());
    println!("{:#b}", vec.get(7).unwrap());
    println!("{:#b}", vec.get(12).unwrap());
    assert_eq!(vec.get(0), Some(1));
    assert_eq!(vec.get(8), Some(1));
    assert_eq!(vec.get(12), Some(1));
    assert_eq!(vec.get(7), Some(0));
}

#[test]
fn mod_span_cut() {
    let mut vec = PackVec::new_var(PartSize::new(1).unwrap());
    vec.extend_with(64, 0);

    let vec_len = vec.len();
    let span = vec.as_span_mut();
    assert_eq!(vec_len, span.len());

    let cut1 = span.cut(4, 64);
    assert_eq!(cut1.len(), 60);

    let cut2 = cut1.cut(4, 60);
    assert_eq!(cut2.len(), 56);

    for i in 0..5 {
        cut2.set(&mut vec, i, 1).unwrap();
        assert_eq!(cut2.get(&vec, i), Some(1));
    }
}

#[test]
fn span_span_unpack() {
    let src: Vec<u64> = vec![u64::MAX; 4];

    for n in 1..8 {
        let vpp = 64 / n;
        let len = 64.min(4 * vpp);
        let mut dst: Vec<u64> = vec![0u64; len];
        voxel_pack::codec::unpack(&mut dst, &src, 0, PartSize::new(n).unwrap());
        println!("{:?}", dst);
        let mask: u64 = (1u64 << n) - 1;
        for v in dst.iter() {
            assert_eq!(*v, mask);
        }
    }
}

#[test]
fn mod_span_unpack() {
    let src: Vec<u64> = vec![u64::MAX; 4];
    let mut dst: Vec<u64> = vec![0u64; 36];
    voxel_pack::codec::unpack(&mut dst, &src, 0, PartSize::new(7).unwrap());
    println!("{:?}", dst);
    for i in 0..36 {
        assert_eq!(dst[i], 0x7f);
    }
}

#[test]
fn span_span_iter() {
    let mut vec = PackVec::new_var(PartSize::new(2).unwrap());
    vec.extend_with(33, 1);
    vec.extend_with(33, 2);
    vec.extend_with(33, 3);

    let values = collect_span(&vec);
    println!("{:?}", values);
    assert_eq!(values.len(), 99);
    for (i, v) in values.iter().enumerate() {
        let expected: u64 = if i < 33 {
            1
        } else if i < 66 {
            2
        } else {
            3
        };
        assert_eq!(*v, expected);
    }
}

#[test]
fn mod_span_iter() {
    let mut vec = PackVec::new_var(PartSize::new(2).unwrap());
    vec.extend_with(33, 1);
    vec.extend_with(33, 2);
    vec.extend_with(33, 3);

    let a = collect_span(&vec);
    let b = collect_span(&vec);
    assert_eq!(a, b);
}

#[test]
fn cut_identity_collect() {
    // Reading a full-range cut yields the same values as the span.
    let mut vec = PackVec::new_var(PartSize::new(5).unwrap());
    for i in 0..40 {
        vec.push(i as u64);
    }
    let full = collect_span(&vec);
    let span = vec.as_span();
    let cut = span.cut(0, vec.len());
    let mut cut_vals: Vec<u64> = Vec::new();
    let mut it = cut.iter();
    while let Some(v) = it.next() {
        cut_vals.push(v);
    }
    assert_eq!(full, cut_vals);
}

#[test]
fn cut_composition_values() {
    // Cutting a cut addresses the same values as one combined cut.
    let mut vec = PackVec::new_var(PartSize::new(3).unwrap());
    for i in 0..50 {
        vec.push((i % 8) as u64);
    }
    let span = vec.as_span();
    let once = span.cut(7, 29).cut(3, 15);
    let combined = span.cut(10, 22);
    for i in 0..12 {
        assert_eq!(once.get(i), combined.get(i));
        assert_eq!(once.get(i), span.get(10 + i));
    }
}

#[test]
fn alignment_independence() {
    // For every start offset inside a part, a cut reads the same
    // values as the original span at the shifted index.
    let mut vec = PackVec::new_var(PartSize::new(5).unwrap());
    for i in 0..60 {
        vec.push((i * 7) as u64);
    }
    let span = vec.as_span();
    let l: usize = 13;
    for s in 0..12 {
        let cut = span.cut(s, s + l);
        for i in 0..l {
            assert_eq!(cut.get(i), span.get(s + i));
        }
    }
}

#[test]
fn split_at_halves() {
    let mut vec = PackVec::new_var(PartSize::new(5).unwrap());
    for i in 0..20 {
        vec.push(i as u64);
    }
    let span = vec.as_span();
    let (head, tail) = span.split_at(7);
    assert_eq!(head.len(), 7);
    assert_eq!(tail.len(), 13);
    for i in 0..7 {
        assert_eq!(head.get(i), Some(i as u64));
    }
    for i in 0..13 {
        assert_eq!(tail.get(i), Some((7 + i) as u64));
    }
    assert_eq!(head.get(7), None);
}

#[test]
fn copy_to_truncates() {
    // Copying to a narrower span truncates each value to the
    // destination's width.
    let mut a = PackVec::new_var(PartSize::new(7).unwrap());
    for i in 0..30 {
        a.push((100 + i) as u64);
    }
    let mut b = PackVec::new_var(PartSize::new(3).unwrap());
    b.extend_with(30, 0);
    let dst = b.as_span_mut();
    a.as_span().copy_to(&dst, &mut b);
    for i in 0..30 {
        assert_eq!(b.get(i), Some(((100 + i) as u64) & 0x7));
    }
}

#[test]
fn cross_width_copy_preserves() {
    // Copying into a wider vector preserves every value exactly.
    let mut a = PackVec::new_var(PartSize::new(3).unwrap());
    let mut expected: Vec<u64> = Vec::new();
    let mut x: u64 = 5;
    for _i in 0..100 {
        x = (x * 13 + 7) % 8;
        a.push(x);
        expected.push(x);
    }
    let mut b = PackVec::new_var(PartSize::new(5).unwrap());
    b.extend_with(100, 0);
    let dst = b.as_span_mut();
    a.as_span().copy_to(&dst, &mut b);
    for i in 0..100 {
        assert_eq!(b.get(i), a.get(i));
        assert_eq!(b.get(i), Some(expected[i]));
    }
}

#[test]
fn boundary_cut() {
    // With five-bit values there are twelve slots per part; a cut that
    // crosses the first part boundary reads the original values.
    let mut vec = PackVec::new_var(PartSize::new(5).unwrap());
    assert_eq!(vec.order().values_per_part().get(), 12);
    for i in 0..24 {
        vec.push((i + 1) as u64);
    }
    let span = vec.as_span();
    let cut = span.cut(7, 19);
    for i in 0..12 {
        assert_eq!(cut.get(i), span.get(7 + i));
        assert_eq!(cut.get(i), Some((8 + i) as u64));
    }
}

#[test]
fn from_slice_wraps_words() {
    // A span over a plain word slice reads the packed values,
    // including from an unaligned start offset.
    let words: Vec<u64> = vec![0x8877_6655_4433_2211, 0xaabb];
    let order = VarPackOrder::new(PartSize::new(8).unwrap());
    let range = PackIndex::from_range(PartOffset::new(1).unwrap(), 10).unwrap();
    let span = PackSpan::from_slice(&words, range, order).unwrap();
    assert_eq!(span.len(), 10);
    assert_eq!(span.get(0), Some(0x22));
    assert_eq!(span.get(6), Some(0x88));
    assert_eq!(span.get(7), Some(0xbb));
    assert_eq!(span.get(8), Some(0xaa));
    assert_eq!(span.get(9), Some(0x00));
    assert_eq!(span.get(10), None);

    // A range past the words' capacity is rejected.
    let too_long = PackIndex::from_len(17).unwrap();
    assert!(PackSpan::from_slice(&words, too_long, order).is_err());
    // A start offset outside the first part is rejected.
    let bad_start = PackIndex::from_range(PartOffset::new(8).unwrap(), 2).unwrap();
    assert!(PackSpan::from_slice(&words, bad_start, order).is_err());
    let fits = PackIndex::from_len(16).unwrap();
    let wide = VarPackOrder::new(PartSize::new(4).unwrap());
    assert!(PackSpan::from_slice(&words, fits, wide).is_ok());
}

#[test]
fn span_mut_iter_reads_window() {
    let mut vec = PackVec::new_var(PartSize::new(5).unwrap());
    for i in 0..30 {
        vec.push(i as u64);
    }
    let window = vec.as_span_mut().cut(5, 17);
    let mut it = window.iter(&vec);
    let mut seen: Vec<u64> = Vec::new();
    while let Some(v) = it.next() {
        seen.push(v);
    }
    let expected: Vec<u64> = (5..17).collect();
    assert_eq!(seen, expected);
}

#[test]
fn cut_checked_rejects_bad_ranges() {
    let mut vec = PackVec::new_var(PartSize::new(6).unwrap());
    vec.extend_with(10, 1);
    let span = vec.as_span();
    assert!(span.cut_checked(3, 2).is_none());
    assert!(span.cut_checked(0, 11).is_none());
    assert!(span.cut_checked(11, 11).is_none());
    assert!(span.cut_checked(0, 10).is_some());
    let mspan = vec.as_span_mut();
    assert!(mspan.cut_checked(3, 2).is_none());
    assert!(mspan.cut_checked(0, 11).is_none());
    assert!(mspan.cut_checked(10, 10).is_some());
    assert!(vec.as_span().split_at_checked(11).is_none());
    assert!(vec.as_span().split_at_checked(10).is_some());
}

#[test]
fn value_count_matches() {
    let vpp = PartSize::new(12).unwrap();
    assert_eq!(value_count(4, 5, 7, vpp), Some(36));
    assert_eq!(value_count(0, 0, 0, vpp), Some(0));
    assert_eq!(value_count(1, 10, 3, vpp), None);
    assert_eq!(value_count(usize::MAX, 0, 0, PartSize::new(64).unwrap()), None);
}

#[test]
fn bit_len_counts_bits() {
    let mut vec = PackVec::new_var(PartSize::new(6).unwrap());
    vec.extend_with(10, 1);
    assert_eq!(vec.as_span().bit_len(), 60);
    assert_eq!(vec.as_span_mut().bit_len(), 60);
}
