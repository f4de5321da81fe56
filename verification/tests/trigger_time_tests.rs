use trigger_countdown::settings::{deserialize_trigger_time, serialize_trigger_time};
use trigger_countdown::time_of_day::TimeOfDay;

#[test]
fn trigger_time_formats_zero_padded() {
    assert_eq!(serialize_trigger_time(TimeOfDay::new(8, 5)), b"08:05".to_vec());
    assert_eq!(serialize_trigger_time(TimeOfDay::new(0, 0)), b"00:00".to_vec());
    assert_eq!(serialize_trigger_time(TimeOfDay::new(23, 59)), b"23:59".to_vec());
    assert_eq!(serialize_trigger_time(TimeOfDay::new(17, 0)), b"17:00".to_vec());
}

#[test]
fn trigger_time_parses_exactly_hh_mm() {
    assert_eq!(deserialize_trigger_time(b"08:30"), Some(TimeOfDay::new(8, 30)));
    assert_eq!(deserialize_trigger_time(b"23:59"), Some(TimeOfDay::new(23, 59)));
    assert_eq!(deserialize_trigger_time(b"00:00"), Some(TimeOfDay::new(0, 0)));
    assert_eq!(deserialize_trigger_time(b"24:00"), None);
    assert_eq!(deserialize_trigger_time(b"12:60"), None);
    assert_eq!(deserialize_trigger_time(b"9:30"), None);
    assert_eq!(deserialize_trigger_time(b"09:3"), None);
    assert_eq!(deserialize_trigger_time(b"09-30"), None);
    assert_eq!(deserialize_trigger_time(b"09:30 "), None);
    assert_eq!(deserialize_trigger_time(b""), None);
}

#[test]
fn trigger_time_round_trips() {
    for hour in 0..24u8 {
        for minute in 0..60u8 {
            let t = TimeOfDay::new(hour, minute);
            let text = serialize_trigger_time(t);
            assert_eq!(deserialize_trigger_time(&text), Some(t));
        }
    }
}
