use atomic::capability::Capabilities;
use atomic::fallback::{lock_for_addr, SpinLockTable};
use atomic::laws::{add_repeatedly, store_swap_load, store_then_load};
use atomic::location::Location;
use atomic::ops;
use std::sync::atomic::Ordering;

fn platforms() -> Vec<Capabilities> {
    vec![Capabilities::all(), Capabilities::none()]
}

fn aligned(size: usize) -> Location {
    Location::new(0x4000, 8, vec![0; size]).unwrap()
}

fn sample(size: usize) -> Vec<u8> {
    (0..size).map(|i| (0xa5usize + 17 * i) as u8).collect()
}

#[test]
fn a_load_returns_what_was_stored() {
    let width = std::mem::size_of::<usize>();
    for caps in platforms() {
        for size in [1, 2, 4, 8, width] {
            let mut locks = SpinLockTable::new();
            let mut dst = aligned(size);
            let value = sample(size);
            ops::atomic_store(&caps, &mut locks, &mut dst, &value, Ordering::Relaxed);
            assert_eq!(ops::atomic_load(&caps, &mut locks, &dst, Ordering::Relaxed), value);
            assert_eq!(dst.read(), value);
        }
    }
}

#[test]
fn a_load_returns_what_was_stored_at_any_size() {
    for caps in platforms() {
        for size in [0, 3, 5, 7, 12, 16, 24, 100] {
            let mut locks = SpinLockTable::new();
            let mut dst = aligned(size);
            let value = sample(size);
            assert_eq!(store_then_load(&caps, &mut locks, &mut dst, &value), value);
        }
    }
}

#[test]
fn a_swap_returns_what_was_stored_and_leaves_what_it_was_given() {
    for caps in platforms() {
        for size in [1, 2, 4, 8, 24] {
            let mut locks = SpinLockTable::new();
            let mut dst = aligned(size);
            let first = sample(size);
            let second = vec![0x11; size];
            ops::atomic_store(&caps, &mut locks, &mut dst, &first, Ordering::Release);
            let prior = ops::atomic_swap(&caps, &mut locks, &mut dst, &second, Ordering::AcqRel);
            assert_eq!(prior, first);
            assert_eq!(ops::atomic_load(&caps, &mut locks, &dst, Ordering::Acquire), second);
            let (swapped, loaded) =
                store_swap_load(&caps, &mut locks, &mut dst, &first, &second, Ordering::SeqCst);
            assert_eq!(swapped, first);
            assert_eq!(loaded, second);
        }
    }
}

#[test]
fn a_compare_exchange_succeeds_only_on_the_expected_pattern() {
    for caps in platforms() {
        for size in [1, 2, 4, 8, 24] {
            let mut locks = SpinLockTable::new();
            let mut dst = aligned(size);
            let first = sample(size);
            let second = vec![0x22; size];
            let other = vec![0x33; size];
            ops::atomic_store(&caps, &mut locks, &mut dst, &first, Ordering::SeqCst);
            let failed = ops::atomic_compare_exchange(
                &caps,
                &mut locks,
                &mut dst,
                &other,
                &second,
                Ordering::SeqCst,
                Ordering::Relaxed,
            );
            assert_eq!(failed, Err(first.clone()));
            assert_eq!(dst.read(), first);
            let done = ops::atomic_compare_exchange(
                &caps,
                &mut locks,
                &mut dst,
                &first,
                &second,
                Ordering::AcqRel,
                Ordering::Acquire,
            );
            assert_eq!(done, Ok(first.clone()));
            assert_eq!(dst.read(), second);
        }
    }
}

#[test]
fn a_compare_exchange_compares_bits_and_not_numbers() {
    let zero: f32 = 0.0;
    let minus_zero: f32 = -0.0;
    assert!(zero == minus_zero);
    for caps in platforms() {
        let mut locks = SpinLockTable::new();
        let mut dst = Location::holding(0x100, &zero).unwrap();
        let one = 1.0f32.to_ne_bytes();
        let failed = ops::atomic_compare_exchange(
            &caps,
            &mut locks,
            &mut dst,
            &minus_zero.to_ne_bytes(),
            &one,
            Ordering::SeqCst,
            Ordering::SeqCst,
        );
        assert_eq!(failed, Err(zero.to_ne_bytes().to_vec()));
        assert_eq!(dst.read(), zero.to_ne_bytes().to_vec());
        let done = ops::atomic_compare_exchange(
            &caps,
            &mut locks,
            &mut dst,
            &zero.to_ne_bytes(),
            &one,
            Ordering::SeqCst,
            Ordering::SeqCst,
        );
        assert_eq!(done, Ok(zero.to_ne_bytes().to_vec()));
        assert_eq!(dst.read(), one.to_vec());
    }
}

#[test]
fn a_compare_exchange_matches_a_pattern_that_is_not_equal_to_itself() {
    let nan = f32::NAN;
    assert!(nan != nan);
    for caps in platforms() {
        let mut locks = SpinLockTable::new();
        let mut dst = Location::holding(0x100, &nan).unwrap();
        let done = ops::atomic_compare_exchange(
            &caps,
            &mut locks,
            &mut dst,
            &nan.to_ne_bytes(),
            &[0, 0, 0, 0],
            Ordering::Relaxed,
            Ordering::Relaxed,
        );
        assert_eq!(done, Ok(nan.to_ne_bytes().to_vec()));
        assert_eq!(dst.read(), vec![0, 0, 0, 0]);
    }
}

#[test]
fn a_weak_compare_exchange_does_not_fail_without_reason() {
    for caps in platforms() {
        let mut locks = SpinLockTable::new();
        let mut dst = aligned(4);
        for step in 0u32..100 {
            let done = ops::atomic_compare_exchange_weak(
                &caps,
                &mut locks,
                &mut dst,
                &step.to_le_bytes(),
                &(step + 1).to_le_bytes(),
                Ordering::SeqCst,
                Ordering::Relaxed,
            );
            assert_eq!(done, Ok(step.to_le_bytes().to_vec()));
        }
        let failed = ops::atomic_compare_exchange_weak(
            &caps,
            &mut locks,
            &mut dst,
            &7u32.to_le_bytes(),
            &8u32.to_le_bytes(),
            Ordering::SeqCst,
            Ordering::Relaxed,
        );
        assert_eq!(failed, Err(100u32.to_le_bytes().to_vec()));
        assert_eq!(dst.read(), 100u32.to_le_bytes().to_vec());
    }
}

#[test]
fn addition_and_subtraction_wrap_around() {
    for caps in platforms() {
        let mut locks = SpinLockTable::new();
        let mut dst = aligned(2);
        ops::atomic_store(&caps, &mut locks, &mut dst, &0xfffeu16.to_le_bytes(), Ordering::SeqCst);
        let prior = ops::atomic_add(&caps, &mut locks, &mut dst, &[5, 0], Ordering::SeqCst);
        assert_eq!(prior, vec![0xfe, 0xff]);
        assert_eq!(dst.read(), vec![3, 0]);
        let prior = ops::atomic_sub(&caps, &mut locks, &mut dst, &[4, 0], Ordering::SeqCst);
        assert_eq!(prior, vec![3, 0]);
        assert_eq!(dst.read(), vec![0xff, 0xff]);
    }
}

#[test]
fn addition_and_subtraction_agree_with_the_integers() {
    let values: Vec<u64> = vec![0, 1, 255, 256, 0xdead_beef_0bad_f00d, u64::MAX - 1, u64::MAX];
    for caps in platforms() {
        for a in &values {
            for b in &values {
                let mut locks = SpinLockTable::new();
                let mut dst = Location::new(0x800, 8, a.to_le_bytes().to_vec()).unwrap();
                let prior =
                    ops::atomic_add(&caps, &mut locks, &mut dst, &b.to_le_bytes(), Ordering::AcqRel);
                assert_eq!(prior, a.to_le_bytes().to_vec());
                assert_eq!(dst.read(), a.wrapping_add(*b).to_le_bytes().to_vec());
                let prior =
                    ops::atomic_sub(&caps, &mut locks, &mut dst, &a.to_le_bytes(), Ordering::AcqRel);
                assert_eq!(prior, a.wrapping_add(*b).to_le_bytes().to_vec());
                assert_eq!(dst.read(), b.to_le_bytes().to_vec());
            }
        }
    }
}

#[test]
fn additions_one_after_another_lose_nothing() {
    for caps in platforms() {
        let threads = 4u32;
        let each = 1000u32;
        let mut locks = SpinLockTable::new();
        let mut dst = aligned(4);
        for _round in 0..each {
            for _thread in 0..threads {
                ops::atomic_add(&caps, &mut locks, &mut dst, &1u32.to_le_bytes(), Ordering::SeqCst);
            }
        }
        assert_eq!(dst.read(), (threads * each).to_le_bytes().to_vec());
    }
}

#[test]
fn repeated_additions_wrap_around_at_the_width() {
    for caps in platforms() {
        let mut locks = SpinLockTable::new();
        let mut dst = aligned(1);
        add_repeatedly(&caps, &mut locks, &mut dst, &[1], 1000);
        assert_eq!(dst.read(), vec![(1000 % 256) as u8]);
        let mut wide = aligned(2);
        add_repeatedly(&caps, &mut locks, &mut wide, &[1, 0], 1000);
        assert_eq!(wide.read(), 1000u16.to_le_bytes().to_vec());
        add_repeatedly(&caps, &mut locks, &mut wide, &[3, 0], 0);
        assert_eq!(wide.read(), 1000u16.to_le_bytes().to_vec());
    }
}

#[test]
fn bitwise_operations_return_the_prior_pattern() {
    for caps in platforms() {
        let mut locks = SpinLockTable::new();
        let mut dst = Location::new(0x10, 4, vec![0x0f, 0xf0, 0xaa, 0x55]).unwrap();
        let mask = [0x3c, 0x3c, 0xff, 0x00];
        let prior = ops::atomic_and(&caps, &mut locks, &mut dst, &mask, Ordering::Relaxed);
        assert_eq!(prior, vec![0x0f, 0xf0, 0xaa, 0x55]);
        assert_eq!(dst.read(), vec![0x0c, 0x30, 0xaa, 0x00]);
        let prior = ops::atomic_or(&caps, &mut locks, &mut dst, &mask, Ordering::Relaxed);
        assert_eq!(prior, vec![0x0c, 0x30, 0xaa, 0x00]);
        assert_eq!(dst.read(), vec![0x3c, 0x3c, 0xff, 0x00]);
        let prior = ops::atomic_xor(&caps, &mut locks, &mut dst, &[0xff; 4], Ordering::Relaxed);
        assert_eq!(prior, vec![0x3c, 0x3c, 0xff, 0x00]);
        assert_eq!(dst.read(), vec![0xc3, 0xc3, 0x00, 0xff]);
    }
}

#[test]
fn zero_bits_change_nothing_under_or_and_xor_and_one_bits_nothing_under_and() {
    for caps in platforms() {
        for size in [1, 2, 4, 8, 24] {
            let mut locks = SpinLockTable::new();
            let mut dst = aligned(size);
            let value = sample(size);
            ops::atomic_store(&caps, &mut locks, &mut dst, &value, Ordering::SeqCst);
            let zeros = vec![0u8; size];
            let ones = vec![0xffu8; size];
            assert_eq!(ops::atomic_or(&caps, &mut locks, &mut dst, &zeros, Ordering::SeqCst), value);
            assert_eq!(ops::atomic_load(&caps, &mut locks, &dst, Ordering::SeqCst), value);
            assert_eq!(ops::atomic_xor(&caps, &mut locks, &mut dst, &zeros, Ordering::SeqCst), value);
            assert_eq!(ops::atomic_load(&caps, &mut locks, &dst, Ordering::SeqCst), value);
            assert_eq!(ops::atomic_and(&caps, &mut locks, &mut dst, &ones, Ordering::SeqCst), value);
            assert_eq!(ops::atomic_load(&caps, &mut locks, &dst, Ordering::SeqCst), value);
        }
    }
}

#[test]
fn a_minimum_or_maximum_with_the_current_value_changes_nothing() {
    for caps in platforms() {
        for size in [1, 2, 4, 8, 16] {
            let mut locks = SpinLockTable::new();
            let mut dst = aligned(size);
            let value = sample(size);
            ops::atomic_store(&caps, &mut locks, &mut dst, &value, Ordering::SeqCst);
            assert_eq!(ops::atomic_max(&caps, &mut locks, &mut dst, &value, Ordering::SeqCst), value);
            assert_eq!(dst.read(), value);
            assert_eq!(ops::atomic_min(&caps, &mut locks, &mut dst, &value, Ordering::SeqCst), value);
            assert_eq!(dst.read(), value);
            assert_eq!(ops::atomic_umax(&caps, &mut locks, &mut dst, &value, Ordering::SeqCst), value);
            assert_eq!(dst.read(), value);
            assert_eq!(ops::atomic_umin(&caps, &mut locks, &mut dst, &value, Ordering::SeqCst), value);
            assert_eq!(dst.read(), value);
        }
    }
}

#[test]
fn minimum_and_maximum_read_the_pattern_signed_or_unsigned() {
    for caps in platforms() {
        let mut locks = SpinLockTable::new();
        let minus_one = (-1i32).to_le_bytes();
        let seven = 7i32.to_le_bytes();
        let mut dst = Location::new(0x10, 4, seven.to_vec()).unwrap();
        assert_eq!(ops::atomic_min(&caps, &mut locks, &mut dst, &minus_one, Ordering::SeqCst), seven);
        assert_eq!(dst.read(), minus_one);
        assert_eq!(ops::atomic_max(&caps, &mut locks, &mut dst, &seven, Ordering::SeqCst), minus_one);
        assert_eq!(dst.read(), seven);
        assert_eq!(ops::atomic_umax(&caps, &mut locks, &mut dst, &minus_one, Ordering::SeqCst), seven);
        assert_eq!(dst.read(), minus_one);
        assert_eq!(ops::atomic_umin(&caps, &mut locks, &mut dst, &seven, Ordering::SeqCst), minus_one);
        assert_eq!(dst.read(), seven);
        assert_eq!(ops::atomic_umin(&caps, &mut locks, &mut dst, &minus_one, Ordering::SeqCst), seven);
        assert_eq!(dst.read(), seven);
    }
}

#[test]
fn minimum_and_maximum_agree_with_the_integers() {
    let values: Vec<i16> = vec![i16::MIN, -300, -1, 0, 1, 255, 256, i16::MAX];
    for caps in platforms() {
        for a in &values {
            for b in &values {
                let mut locks = SpinLockTable::new();
                let mut dst = Location::new(0x10, 2, a.to_le_bytes().to_vec()).unwrap();
                ops::atomic_min(&caps, &mut locks, &mut dst, &b.to_le_bytes(), Ordering::Relaxed);
                assert_eq!(dst.read(), a.min(b).to_le_bytes().to_vec());
                dst.write(&a.to_le_bytes());
                ops::atomic_max(&caps, &mut locks, &mut dst, &b.to_le_bytes(), Ordering::Relaxed);
                assert_eq!(dst.read(), a.max(b).to_le_bytes().to_vec());
                let (ua, ub) = (*a as u16, *b as u16);
                dst.write(&a.to_le_bytes());
                ops::atomic_umin(&caps, &mut locks, &mut dst, &b.to_le_bytes(), Ordering::Relaxed);
                assert_eq!(dst.read(), ua.min(ub).to_le_bytes().to_vec());
                dst.write(&a.to_le_bytes());
                ops::atomic_umax(&caps, &mut locks, &mut dst, &b.to_le_bytes(), Ordering::Relaxed);
                assert_eq!(dst.read(), ua.max(ub).to_le_bytes().to_vec());
            }
        }
    }
}

#[test]
fn a_native_operation_touches_no_lock() {
    let caps = Capabilities::all();
    let mut locks = SpinLockTable::new();
    let mut dst = aligned(4);
    ops::atomic_store(&caps, &mut locks, &mut dst, &[1, 2, 3, 4], Ordering::SeqCst);
    ops::atomic_add(&caps, &mut locks, &mut dst, &[1, 0, 0, 0], Ordering::SeqCst);
    ops::atomic_load(&caps, &mut locks, &dst, Ordering::SeqCst);
    for i in 0..64 {
        assert_eq!(locks.cell(i).last_acquire(), None);
        assert_eq!(locks.cell(i).last_release(), None);
    }
}

#[test]
fn an_emulated_operation_takes_and_releases_the_lock_of_its_address() {
    let caps = Capabilities::none();
    let mut locks = SpinLockTable::new();
    let mut dst = aligned(4);
    let index = lock_for_addr(dst.addr());
    ops::atomic_store(&caps, &mut locks, &mut dst, &[1, 2, 3, 4], Ordering::Release);
    for i in 0..64 {
        assert!(!locks.cell(i).locked());
        if i == index {
            assert_eq!(locks.cell(i).last_acquire(), Some(Ordering::Acquire));
            assert_eq!(locks.cell(i).last_release(), Some(Ordering::Release));
        } else {
            assert_eq!(locks.cell(i).last_acquire(), None);
            assert_eq!(locks.cell(i).last_release(), None);
        }
    }
    ops::atomic_load(&caps, &mut locks, &dst, Ordering::SeqCst);
    assert_eq!(locks.cell(index).last_acquire(), Some(Ordering::SeqCst));
    assert_eq!(locks.cell(index).last_release(), Some(Ordering::SeqCst));
}

#[test]
fn a_value_without_native_minimum_is_emulated_for_it_alone() {
    let mut caps = Capabilities::all();
    caps.has_fetch_min = false;
    let mut locks = SpinLockTable::new();
    let mut dst = aligned(4);
    let index = lock_for_addr(dst.addr());
    ops::atomic_add(&caps, &mut locks, &mut dst, &[9, 0, 0, 0], Ordering::SeqCst);
    assert_eq!(locks.cell(index).last_acquire(), None);
    let prior = ops::atomic_umin(&caps, &mut locks, &mut dst, &[4, 0, 0, 0], Ordering::SeqCst);
    assert_eq!(prior, vec![9, 0, 0, 0]);
    assert_eq!(dst.read(), vec![4, 0, 0, 0]);
    assert_eq!(locks.cell(index).last_acquire(), Some(Ordering::SeqCst));
}
