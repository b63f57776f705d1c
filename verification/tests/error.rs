use dexios::error::Error;

const ALL: [Error; 7] = [
    Error::InvalidFormat,
    Error::AuthenticationFailure,
    Error::WrongPassword,
    Error::MaxSlots,
    Error::LastSlot,
    Error::IoFailure,
    Error::UserAborted,
];

#[test]
fn a_declined_prompt_ends_with_0_and_any_other_error_with_1() {
    assert_eq!(Error::UserAborted.exit_code(), 0);
    assert_eq!(Error::InvalidFormat.exit_code(), 1);
    assert_eq!(Error::AuthenticationFailure.exit_code(), 1);
    assert_eq!(Error::WrongPassword.exit_code(), 1);
    assert_eq!(Error::MaxSlots.exit_code(), 1);
    assert_eq!(Error::LastSlot.exit_code(), 1);
    assert_eq!(Error::IoFailure.exit_code(), 1);
}

#[test]
fn every_error_has_a_message_of_its_own() {
    assert_eq!(Error::WrongPassword.message(), "no keyslot opens with this key");
    assert_eq!(Error::UserAborted.message(), "aborted");
    for (i, a) in ALL.iter().enumerate() {
        assert!(!a.message().is_empty());
        for b in &ALL[i + 1..] {
            assert_ne!(a.message(), b.message());
            assert_ne!(a, b);
        }
    }
}
