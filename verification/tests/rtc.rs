use proka_kernel::rtc::{
    add_days_to_date, datetime_to_unix_timestamp, days_in_month, is_leap_year, seconds_to_hms,
    DateTime, Rtc, RtcRegisters,
};

#[test]
fn test_bcd_to_binary() {
    assert_eq!(Rtc::bcd_to_binary(0x00), 0);
    assert_eq!(Rtc::bcd_to_binary(0x01), 1);
    assert_eq!(Rtc::bcd_to_binary(0x10), 10);
    assert_eq!(Rtc::bcd_to_binary(0x99), 99);
    assert_eq!(Rtc::bcd_to_binary(0x59), 59);
    assert_eq!(Rtc::bcd_to_binary(0x23), 23);
}

#[test]
fn test_is_leap_year() {
    assert!(is_leap_year(2000));
    assert!(is_leap_year(2024));
    assert!(is_leap_year(2020));
    assert!(!is_leap_year(1900));
    assert!(!is_leap_year(2023));
    assert!(!is_leap_year(2021));
}

#[test]
fn test_datetime_to_unix_timestamp() {
    let epoch = DateTime::new_utc(1970, 1, 1, 0, 0, 0, 4);
    assert_eq!(datetime_to_unix_timestamp(&epoch), 0);

    let y2k = DateTime::new_utc(2000, 1, 1, 0, 0, 0, 6);
    assert_eq!(datetime_to_unix_timestamp(&y2k), 946684800);
}

#[test]
fn test_datetime_to_iso8601() {
    let dt = DateTime::with_timezone(2024, 6, 15, 14, 30, 45, 6, 8);
    assert_eq!(dt.to_iso8601(), "2024-06-15 14:30:45+08:00");

    let dt_utc = DateTime::new_utc(2024, 6, 15, 14, 30, 45, 6);
    assert_eq!(dt_utc.to_iso8601(), "2024-06-15 14:30:45+00:00");

    let dt_negative = DateTime::with_timezone(2024, 6, 15, 14, 30, 45, 6, -5);
    assert_eq!(dt_negative.to_iso8601(), "2024-06-15 14:30:45-05:00");
}

#[test]
fn test_to_utc() {
    let local = DateTime::with_timezone(2024, 6, 15, 14, 30, 0, 6, 8);
    let utc = local.to_utc();
    assert_eq!(utc.hour, 6);
    assert_eq!(utc.timezone_offset, 0);

    let local = DateTime::with_timezone(2024, 6, 15, 2, 30, 0, 6, 8);
    let utc = local.to_utc();
    assert_eq!(utc.hour, 18);
    assert_eq!(utc.day, 14);

    let local = DateTime::with_timezone(2024, 6, 15, 14, 30, 0, 6, -5);
    let utc = local.to_utc();
    assert_eq!(utc.hour, 19);
}

#[test]
fn test_to_timezone() {
    let utc = DateTime::new_utc(2024, 6, 15, 14, 0, 0, 6);

    let local = utc.to_timezone(8);
    assert_eq!(local.hour, 22);

    let eastern = utc.to_timezone(-5);
    assert_eq!(eastern.hour, 9);
}

#[test]
fn test_add_days_to_date() {
    let (y, m, d, w) = add_days_to_date(2024, 6, 15, 6, 5);
    assert_eq!((y, m, d), (2024, 6, 20));
    assert_eq!(w, 4);

    let (y, m, d, _w) = add_days_to_date(2024, 6, 15, 6, -10);
    assert_eq!((y, m, d), (2024, 6, 5));

    let (y, m, d, _) = add_days_to_date(2024, 6, 15, 6, 20);
    assert_eq!((y, m, d), (2024, 7, 5));

    let (y, m, d, _) = add_days_to_date(2024, 1, 5, 1, -10);
    assert_eq!((y, m, d), (2023, 12, 26));
}

#[test]
fn february_length_follows_leap_years() {
    assert_eq!(days_in_month(2024, 2), 29);
    assert_eq!(days_in_month(2023, 2), 28);
    assert_eq!(days_in_month(2023, 12), 31);
    assert_eq!(days_in_month(2023, 4), 30);
}

#[test]
fn seconds_split_into_hours_minutes_seconds() {
    assert_eq!(seconds_to_hms(3725), (1, 2, 5));
    assert_eq!(seconds_to_hms(86399), (23, 59, 59));
}

#[test]
fn zone_round_trip_keeps_the_moment() {
    let dt = DateTime::with_timezone(2024, 12, 31, 23, 0, 0, 2, 8);
    let utc = dt.to_utc();
    assert_eq!(datetime_to_unix_timestamp(&utc) + 8 * 3600, datetime_to_unix_timestamp(&dt));
    assert_eq!((utc.year, utc.month, utc.day, utc.hour), (2024, 12, 31, 15));
    let back = utc.to_timezone(8);
    assert_eq!(back, dt);
    assert_eq!(dt.to_naive_iso8601(), "2024-12-31 23:00:00");
}

#[test]
fn registers_decode_in_binary_12_hour_mode_and_bcd() {
    let rtc = Rtc { has_century_register: true };
    let regs = RtcRegisters {
        second: 45,
        minute: 30,
        hour: 0x82,
        day: 15,
        month: 6,
        year: 24,
        weekday: 7,
        century: 20,
    };
    let dt = rtc.datetime_from_registers(regs, false, true);
    assert_eq!((dt.year, dt.month, dt.day), (2024, 6, 15));
    assert_eq!((dt.hour, dt.minute, dt.second), (14, 30, 45));
    assert_eq!(dt.timezone_offset, 0);

    let bcd = RtcRegisters {
        second: 0x59,
        minute: 0x08,
        hour: 0x23,
        day: 0x31,
        month: 0x12,
        year: 0x99,
        weekday: 0x05,
        century: 0,
    };
    let dt = Rtc { has_century_register: false }.datetime_from_registers(bcd, true, false);
    assert_eq!((dt.year, dt.month, dt.day), (1999, 12, 31));
    assert_eq!((dt.hour, dt.minute, dt.second), (23, 8, 59));
}

#[test]
fn bcd_12_hour_afternoon_reads_as_24_hour() {
    let rtc = Rtc { has_century_register: true };
    let regs = RtcRegisters {
        second: 0x00,
        minute: 0x30,
        hour: 0x81,
        day: 0x15,
        month: 0x06,
        year: 0x24,
        weekday: 0x07,
        century: 0x20,
    };
    let dt = rtc.datetime_from_registers(regs, true, true);
    assert_eq!((dt.year, dt.month, dt.day, dt.hour, dt.minute, dt.second), (2024, 6, 15, 13, 30, 0));
    let noon = RtcRegisters { hour: 0x92, ..regs };
    assert_eq!(rtc.datetime_from_registers(noon, true, true).hour, 12);
    let midnight = RtcRegisters { hour: 0x12, ..regs };
    assert_eq!(rtc.datetime_from_registers(midnight, true, true).hour, 0);
    let dt = DateTime::new_utc(2024, 6, 15, 21, 5, 0, 7);
    let w = rtc.registers_for_datetime(&dt, true, true);
    assert_eq!(w.hour, 0x89);
    let back = RtcRegisters {
        second: w.second,
        minute: w.minute,
        hour: w.hour,
        day: w.day,
        month: w.month,
        year: w.year,
        weekday: w.weekday,
        century: w.century.unwrap(),
    };
    assert_eq!(rtc.datetime_from_registers(back, true, true).hour, 21);
}
