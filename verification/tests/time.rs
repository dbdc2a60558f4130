use proka_kernel::time::{pit_ticks_for, spin_done, SleepPlan, Tsc};

#[test]
fn pit_ticks() {
    assert_eq!(pit_ticks_for(50_000), 59_659);
    assert_eq!(pit_ticks_for(10_000), 11_931);
}

#[test]
fn calibration() {
    let t = Tsc::calibrated(100_000_000, 59_659);
    assert_eq!(t.frequency(), 100_000_000u64 * 1_193_182 / 59_659);
    assert_eq!(Tsc::calibrated(5, 0).frequency(), 0);
    assert_eq!(Tsc::uncalibrated().frequency(), 0);
}

#[test]
fn uptime_and_sleep() {
    let t = Tsc::calibrated(1_193_182_000, 1_193_182);
    assert_eq!(t.frequency(), 1_193_182_000);
    assert_eq!(t.uptime_ms(2_386_364_000), 2000);
    assert_eq!(t.uptime_us(1_193_182), 1000);
    assert_eq!(t.sleep_us(1000), SleepPlan::Spin(1_193_182));
    let u = Tsc::uncalibrated();
    assert_eq!(u.uptime_ms(123), 0);
    assert_eq!(u.uptime_us(123), 0);
    assert_eq!(u.sleep_us(77), SleepPlan::Pit(77));
    assert!(spin_done(10, 20, 10));
    assert!(!spin_done(10, 19, 10));
}
