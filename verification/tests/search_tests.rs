use voxel_pack::search::index_of_any_except;

const T_N: usize = 4;

fn check_steps(len: usize) {
    for i in 0..=len {
        let mut v: Vec<u32> = Vec::new();
        for j in 0..len {
            if i > j {
                v.push(1);
            } else {
                v.push(0);
            }
        }
        assert_eq!(index_of_any_except::<T_N>(&v, 1).unwrap_or(len), i);
    }
}

#[test]
fn prefix() {
    for len in 0..T_N {
        check_steps(len);
    }

    let a: u32 = 1;
    let b: u32 = 2;
    assert_eq!(index_of_any_except::<T_N>(&vec![a; T_N - 1], a), None);
    assert_eq!(index_of_any_except::<T_N>(&vec![a; T_N - 1], b), Some(0));
    assert_eq!(index_of_any_except::<T_N>(&vec![a, b], a), Some(1));
}

#[test]
fn aligned() {
    for i in 0..=T_N {
        check_steps(i * T_N);
    }
}

#[test]
fn suffix() {
    for len in T_N..(T_N * 2 - 1) {
        check_steps(len);
    }

    let a: u32 = 1;
    let b: u32 = 2;
    assert_eq!(index_of_any_except::<T_N>(&vec![a; T_N + 1], a), None);
    assert_eq!(index_of_any_except::<T_N>(&vec![a; T_N + 1], b), Some(0));

    let mut v: Vec<u32> = Vec::new();
    for _i in 0..T_N {
        v.push(a);
    }
    v.push(b);
    assert_eq!(index_of_any_except::<T_N>(&v, a), Some(T_N));
}
