use ragequiet::autostart::{
    acquire_single_instance, autostart_enabled, quoted_command, run_value, set_autostart, to_wide,
    AutostartError, MutexAttempt, RegistryCalls,
};

#[test]
fn quotes_a_plain_path() {
    assert_eq!(
        quoted_command(r"C:\Program Files\ragequiet\ragequiet.exe"),
        "\"C:\\Program Files\\ragequiet\\ragequiet.exe\""
    );
}

#[test]
fn quotes_a_path_with_spaces_as_one_token() {
    let quoted = quoted_command(r"C:\Users\a b\ragequiet.exe");
    assert!(quoted.starts_with('"') && quoted.ends_with('"'));
    assert_eq!(quoted.matches('"').count(), 2, "must be exactly one quoted token: {quoted}");
}

#[test]
fn quotes_a_simple_no_space_path() {
    assert_eq!(quoted_command(r"C:\ragequiet.exe"), "\"C:\\ragequiet.exe\"");
}

#[test]
fn wide_strings_are_utf16_with_a_nul() {
    for text in ["ragequiet", "", "Ünïcode é", "🎤 mic \u{10000} \u{ffff} \u{10ffff}"] {
        let mut expected: Vec<u16> = text.encode_utf16().collect();
        expected.push(0);
        assert_eq!(to_wide(text), expected, "{text}");
    }
}

#[test]
fn run_value_is_the_little_endian_bytes_of_the_quoted_path() {
    let bytes = run_value(r"C:\a b.exe");
    let mut expected: Vec<u8> = Vec::new();
    for unit in "\"C:\\a b.exe\"".encode_utf16().chain(std::iter::once(0)) {
        expected.extend_from_slice(&unit.to_le_bytes());
    }
    assert_eq!(bytes, expected);
}

#[test]
fn only_an_existing_mutex_blocks_startup() {
    assert!(acquire_single_instance(None));
    assert!(acquire_single_instance(Some(MutexAttempt { created: true, last_error: 0 })));
    assert!(acquire_single_instance(Some(MutexAttempt { created: false, last_error: 183 })));
    assert!(!acquire_single_instance(Some(MutexAttempt { created: true, last_error: 183 })));
}

#[test]
fn registry_statuses_become_outcomes() {
    let calls = |open: u32, change: u32| Some(RegistryCalls { open, change });
    assert_eq!(set_autostart(true, None), Ok(()));
    assert_eq!(set_autostart(true, calls(0, 0)), Ok(()));
    assert_eq!(set_autostart(true, calls(5, 0)), Err(AutostartError::CreateKey(5)));
    assert_eq!(set_autostart(true, calls(0, 2)), Err(AutostartError::SetValue(2)));
    assert_eq!(set_autostart(false, calls(0, 0)), Ok(()));
    assert_eq!(set_autostart(false, calls(0, 2)), Ok(()), "a missing value is not an error");
    assert_eq!(set_autostart(false, calls(0, 5)), Err(AutostartError::DeleteValue(5)));
    assert_eq!(AutostartError::DeleteValue(5).call(), "RegDeleteValueW");
    assert_eq!(AutostartError::CreateKey(5).call(), "RegCreateKeyExW");
    assert_eq!(AutostartError::SetValue(5).call(), "RegSetValueExW");
}

#[test]
fn any_read_error_reads_as_not_enabled() {
    assert!(autostart_enabled(Some(0)));
    assert!(!autostart_enabled(Some(2)));
    assert!(!autostart_enabled(None));
}
