use star_control::autostart::{
    decide_mutation, decode_run_value, expected_command, status, AutostartError, AutostartMutation, AutostartState,
};

#[test]
fn expected_command_is_quoted_and_background_only() {
    let executable = r"\\?\C:\Program Files\Star-Control\star-controller.exe";
    let command = expected_command(Some(executable)).unwrap();
    assert!(command.starts_with('"'));
    assert!(command.ends_with("\" --background"));
    assert_eq!(decide_mutation(None, &command, true), AutostartMutation::SetOwned);
    assert_eq!(decide_mutation(Some(&command), &command, true), AutostartMutation::Noop);
    assert_eq!(decide_mutation(Some(&command), &command, false), AutostartMutation::DeleteOwned);
    assert_eq!(decide_mutation(Some("foreign command"), &command, true), AutostartMutation::Conflict);
    assert_eq!(decide_mutation(Some("foreign command"), &command, false), AutostartMutation::Conflict);
}

#[test]
fn expected_command_wraps_the_canonical_path() {
    assert_eq!(
        expected_command(Some(r"\\?\C:\Star-Control\star-controller.exe")).unwrap(),
        "\"\\\\?\\C:\\Star-Control\\star-controller.exe\" --background"
    );
    assert_eq!(expected_command(None), Err(AutostartError::Registry));
}

#[test]
fn status_reports_missing_owned_and_conflicting_values() {
    let expected = "\"C:\\Star-Control\\star-controller.exe\" --background";
    assert_eq!(status(None, expected), AutostartState::Missing);
    assert_eq!(status(Some(expected), expected), AutostartState::Owned);
    assert_eq!(status(Some("other.exe"), expected), AutostartState::Conflict);
    assert_eq!(decide_mutation(None, expected, false), AutostartMutation::Noop);
}

fn utf16_bytes(text: &str) -> Vec<u8> {
    text.encode_utf16().flat_map(|w| w.to_le_bytes()).collect()
}

#[test]
fn run_values_decode_from_utf16_up_to_the_first_nul() {
    let mut raw = utf16_bytes("\"C:\\Star\" --background");
    raw.extend_from_slice(&[0, 0, 0x41, 0]);
    assert_eq!(decode_run_value(true, &raw).unwrap(), "\"C:\\Star\" --background");
    assert_eq!(decode_run_value(true, &utf16_bytes("명령 😀")).unwrap(), "명령 😀");
    assert_eq!(decode_run_value(true, &[]).unwrap(), "");
    assert_eq!(decode_run_value(false, &utf16_bytes("x")), Err(AutostartError::Registry));
    assert_eq!(decode_run_value(true, &[0x41]), Err(AutostartError::Registry));
    assert_eq!(decode_run_value(true, &[0x00, 0xD8, 0x41, 0x00]), Err(AutostartError::Registry));
}
