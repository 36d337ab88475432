use hazmat::prompt::{
    confirms_danger, new_password_step, password_step, signal_name, Command, PasswordStep,
};

#[test]
fn only_capital_yes_confirms() {
    assert!(confirms_danger("YES"));
    assert!(confirms_danger("YES\n"));
    assert!(confirms_danger(" \t YES \r\n"));
    assert!(confirms_danger("\u{2003}YES\u{3000}\u{85}"));
    assert!(!confirms_danger("yes\n"));
    assert!(!confirms_danger("YES!\n"));
    assert!(!confirms_danger("Y ES\n"));
    assert!(!confirms_danger("\u{200b}YES"));
    assert!(!confirms_danger("\n"));
    assert!(!confirms_danger(""));
}

#[test]
fn white_space_agrees_with_std() {
    for n in 0..0x3100u32 {
        if let Some(c) = char::from_u32(n) {
            let line = format!("{c}YES{c}");
            assert_eq!(confirms_danger(&line), line.trim() == "YES", "{n:#x}");
        }
    }
}

#[test]
fn new_passwords_are_repeated() {
    assert_eq!(new_password_step("", None), PasswordStep::AskAgain);
    assert_eq!(new_password_step("", Some("")), PasswordStep::AskAgain);
    assert_eq!(new_password_step("a", None), PasswordStep::AskConfirmation);
    assert_eq!(new_password_step("pässwörd", Some("pässwörd")), PasswordStep::Accept);
    assert_eq!(new_password_step("abc", Some("abd")), PasswordStep::Mismatch);
    assert_eq!(new_password_step("abc", Some("abcd")), PasswordStep::Mismatch);
    assert_eq!(new_password_step("abc", Some("")), PasswordStep::Mismatch);
}

#[test]
fn empty_passwords_are_asked_for_again() {
    assert_eq!(password_step(""), PasswordStep::AskAgain);
    assert_eq!(password_step(" "), PasswordStep::Accept);
}

#[test]
fn signals_are_named() {
    assert_eq!(signal_name(15), "SIGTERM");
    assert_eq!(signal_name(2), "SIGINT");
    assert_eq!(signal_name(1), "1");
    assert_eq!(signal_name(-7), "-7");
    assert_eq!(signal_name(i32::MIN), "-2147483648");
}

#[test]
fn destructive_commands_are_confirmed() {
    assert!(Command::Format.is_destructive());
    assert!(Command::Sanitize.is_destructive());
    assert!(!Command::Open.is_destructive());
}
