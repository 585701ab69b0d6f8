use star_control::shell::{command_segments, recursive_delete_or_move_is_unverified};

const CWD: &str = "C:\\work\\repo";

#[test]
fn joined_commands_are_screened_segment_by_segment() {
    let safe = "Remove-Item -Recurse -LiteralPath C:\\work\\repo\\target";
    let unsafe_rm = "rm -rf /";
    let plain = "git status";
    assert!(!recursive_delete_or_move_is_unverified(safe, CWD));
    assert!(recursive_delete_or_move_is_unverified(unsafe_rm, CWD));
    assert!(!recursive_delete_or_move_is_unverified(plain, CWD));
    for (a, b) in [(safe, unsafe_rm), (unsafe_rm, plain), (plain, safe), (plain, plain)] {
        let joined = format!("{a}; {b}");
        assert_eq!(
            recursive_delete_or_move_is_unverified(&joined, CWD),
            recursive_delete_or_move_is_unverified(a, CWD) || recursive_delete_or_move_is_unverified(b, CWD)
        );
        let mut expected = command_segments(a);
        expected.extend(command_segments(b));
        assert_eq!(command_segments(&joined), expected);
    }
}

#[test]
fn commands_without_delete_or_move_are_never_screened() {
    assert!(!recursive_delete_or_move_is_unverified("cargo build -r; echo rm -rf /", CWD));
    assert!(!recursive_delete_or_move_is_unverified("ls -R /", CWD));
}
