//! SMP bring-up protocol scenarios.

use rydia::cpu::Cpu;
use rydia::smp::{CoreState, SmpBringUp};
use rydia::spin::{SpinLoopWait, Spinlock};

/// Four simulated cores attempting registration in a scrambled order:
/// the token admits them strictly as 1, 2, 3 with no skips or repeats.
#[test]
fn token_admits_cores_in_strict_order() {
    let k = 4;
    let mut smp = SmpBringUp::new(k);
    smp.wake_secondaries();

    let attempts = [3usize, 2, 3, 1, 1, 3, 2, 2, 3];
    let mut admitted: Vec<usize> = Vec::new();
    for &cpuid in attempts.iter() {
        if smp.try_register(cpuid) {
            admitted.push(cpuid);
        }
    }
    assert_eq!(admitted, vec![1, 2, 3]);
    assert!(smp.all_registered());
    assert_eq!(smp.online_cores(), k);
}

#[test]
fn a_core_cannot_register_twice() {
    let mut smp = SmpBringUp::new(3);
    smp.wake_secondaries();
    assert!(smp.try_register(1));
    assert!(!smp.try_register(1), "the token has moved past core 1");
    assert!(!smp.try_register(0), "the primary core never registers");
    assert!(!smp.try_register(3), "no such core");
}

#[test]
fn full_bring_up_reaches_ready() {
    let k = 4;
    let mut smp = SmpBringUp::new(k);
    smp.wake_secondaries();
    for cpuid in 1..k {
        assert!(smp.can_register(cpuid));
        assert!(smp.try_register(cpuid));
    }
    assert!(smp.all_registered());
    smp.release_start_barrier();
    assert!(!smp.all_ready());
    for cpuid in 1..k {
        smp.mark_ready(cpuid);
    }
    assert!(smp.all_ready());
}

#[test]
fn core_states_move_through_the_protocol() {
    let mut smp = SmpBringUp::new(2);
    smp.wake_secondaries();
    assert!(smp.try_register(1));
    smp.release_start_barrier();
    smp.mark_ready(1);
    assert!(smp.all_ready());
    let _ = CoreState::ResetSpin;
}

#[test]
fn spinlock_guards_a_critical_section() {
    let mut lock = Spinlock::new();
    assert!(lock.try_lock(), "a fresh lock is free");
    assert!(!lock.try_lock(), "a held lock refuses a second taker");
    lock.force_unlock();
    let mut counter = 0u64;
    let r = lock.synchronized(|| {
        counter += 1;
        counter
    });
    assert_eq!(r, 1);
    assert!(lock.try_lock(), "synchronized released on exit");
}

#[test]
fn spin_loop_wait_is_inert() {
    let mut w = SpinLoopWait::new();
    w.wait();
    w.reset();
    w.wait();
}

#[test]
fn interlocked_bit_operations_report_the_old_bit() {
    let mut word = 0b1010usize;
    assert!(Cpu::interlocked_test_and_set(&mut word, 1));
    assert_eq!(word, 0b1010, "setting a set bit changes nothing");
    assert!(!Cpu::interlocked_test_and_set(&mut word, 0));
    assert_eq!(word, 0b1011, "the bit is set, the rest untouched");
    assert!(Cpu::interlocked_test_and_clear(&mut word, 1));
    assert_eq!(word, 0b1001, "the bit is cleared, the rest untouched");
    assert!(!Cpu::interlocked_test_and_clear(&mut word, 2));
    assert_eq!(word, 0b1001, "clearing an unset bit changes nothing");
}
