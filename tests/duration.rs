use suntime::duration::{format_duration_hms, format_duration_ms};

#[test]
fn minutes_and_seconds() {
    assert_eq!(format_duration_ms(0), "0:00");
    assert_eq!(format_duration_ms(59), "0:59");
    assert_eq!(format_duration_ms(61), "1:01");
    assert_eq!(format_duration_ms(3725), "62:05");
    assert_eq!(format_duration_ms(-61), "-1:01");
    assert_eq!(format_duration_ms(-5), "-0:05");
    assert_eq!(format_duration_ms(i64::MIN), "-153722867280912930:08");
}

#[test]
fn hours_minutes_and_seconds() {
    assert_eq!(format_duration_hms(0), "0:00:00");
    assert_eq!(format_duration_hms(3725), "1:02:05");
    assert_eq!(format_duration_hms(86_399), "23:59:59");
    assert_eq!(format_duration_hms(43_210), "12:00:10");
    assert_eq!(format_duration_hms(-5), "-0:00:05");
    assert_eq!(format_duration_hms(-3725), "--1:02:05");
}
