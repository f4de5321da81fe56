use trigger_countdown::settings::{AppSettings, SettingsError};
use trigger_countdown::time_of_day::TimeOfDay;

fn pretty_text(a: &AppSettings) -> String {
    String::from_utf8(a.to_json_pretty()).unwrap()
}

#[test]
fn check_generated_file_settings_are_correct() {
    let mut settings = AppSettings::default();
    settings.trigger_time = TimeOfDay::new(18, 0);
    let result_json_string = pretty_text(&settings);

    let expected_json = "{\n  \"trigger_time\": \"18:00\",\n  \"countdown_seconds\": 10,\n  \"allow_snooze\": false\n}";

    assert_eq!(expected_json, result_json_string);
}

#[test]
fn check_settings_file_exist_or_create_default() {
    let mut changed_settings = AppSettings::default();
    changed_settings.countdown_seconds = 100;
    changed_settings.trigger_time = TimeOfDay::new(18, 0);

    // With no stored text, the store synthesizes defaults and asks for them
    // to be persisted.
    let (default_settings, to_write) = AppSettings::load_or_create_settings(None).unwrap();
    let written = to_write.expect("a first load must persist the defaults");
    let expected_settings = AppSettings::default();

    assert_eq!(expected_settings, default_settings);
    assert_eq!(pretty_text(&expected_settings), String::from_utf8(written.clone()).unwrap());

    // A second load over the very text written the first time returns the
    // same settings and persists nothing further.
    let (reloaded, to_write_again) = AppSettings::load_or_create_settings(Some(&written)).unwrap();
    assert_eq!(expected_settings, reloaded);
    assert!(to_write_again.is_none());

    // Store changed settings, then read them back.
    let changed_text = changed_settings.to_json_pretty();
    let (loaded_settings, none_written) =
        AppSettings::load_or_create_settings(Some(&changed_text)).unwrap();

    assert_eq!(changed_settings, loaded_settings);
    assert!(none_written.is_none());
}

#[test]
fn settings_round_trip() {
    let settings = AppSettings {
        trigger_time: TimeOfDay::new(8, 30),
        countdown_seconds: 15,
        allow_snooze: true,
    };
    let text = settings.to_json_pretty();
    assert_eq!(
        String::from_utf8(text.clone()).unwrap(),
        "{\n  \"trigger_time\": \"08:30\",\n  \"countdown_seconds\": 15,\n  \"allow_snooze\": true\n}"
    );
    let parsed = AppSettings::from_json(&text).unwrap();
    assert_eq!(settings, parsed);
}

#[test]
fn corrupt_settings_are_rejected() {
    let cases: [&[u8]; 6] = [
        b"",
        b"{}",
        b"{\n  \"trigger_time\": \"25:00\",\n  \"countdown_seconds\": 10,\n  \"allow_snooze\": false\n}",
        b"{\n  \"trigger_time\": \"08:30\",\n  \"countdown_seconds\": 007,\n  \"allow_snooze\": false\n}",
        b"{\n  \"trigger_time\": \"08:30\",\n  \"countdown_seconds\": 10,\n  \"allow_snooze\": maybe\n}",
        b"{\n  \"trigger_time\": \"08:30\",\n  \"countdown_seconds\": 10,\n  \"allow_snooze\": false\n} ",
    ];
    for text in cases {
        assert_eq!(
            AppSettings::from_json(text),
            Err(SettingsError::SettingsCorrupt),
            "accepted: {:?}",
            String::from_utf8_lossy(text)
        );
        let owned = text.to_vec();
        assert_eq!(
            AppSettings::load_or_create_settings(Some(&owned)),
            Err(SettingsError::SettingsCorrupt)
        );
    }
}

#[test]
fn countdown_value_bounds() {
    let mut settings = AppSettings::default();
    settings.countdown_seconds = u32::MAX;
    let text = settings.to_json_pretty();
    assert_eq!(AppSettings::from_json(&text).unwrap(), settings);

    // One more than u32::MAX must be rejected.
    let over: &[u8] =
        b"{\n  \"trigger_time\": \"17:00\",\n  \"countdown_seconds\": 4294967296,\n  \"allow_snooze\": false\n}";
    assert_eq!(AppSettings::from_json(over), Err(SettingsError::SettingsCorrupt));

    settings.countdown_seconds = 0;
    let zero_text = settings.to_json_pretty();
    assert_eq!(AppSettings::from_json(&zero_text).unwrap(), settings);
}
