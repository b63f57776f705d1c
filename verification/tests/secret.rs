use dexios::secret::{autogenerate, choose_source, SecretSource, GENERATED_SECRET_LEN};

#[test]
fn a_keyfile_comes_before_everything_else() {
    let path = Some("key.bin".to_string());
    assert_eq!(
        choose_source(path.clone(), false, false),
        SecretSource::Keyfile("key.bin".to_string())
    );
    assert_eq!(
        choose_source(path.clone(), true, true),
        SecretSource::Keyfile("key.bin".to_string())
    );
}

#[test]
fn the_environment_comes_before_generation() {
    assert_eq!(choose_source(None, true, false), SecretSource::Environment);
    assert_eq!(choose_source(None, true, true), SecretSource::Environment);
    assert_eq!(choose_source(None, false, true), SecretSource::Autogenerate);
}

#[test]
fn the_passphrase_is_what_is_left() {
    assert_eq!(choose_source(None, false, false), SecretSource::Passphrase);
}

#[test]
fn a_generated_secret_is_128_random_bytes() {
    let a = autogenerate();
    let b = autogenerate();
    assert_eq!(GENERATED_SECRET_LEN, 128);
    assert_eq!(a.len(), 128);
    assert_eq!(b.len(), 128);
    assert_ne!(a, b);
    assert_ne!(a, vec![0u8; 128]);
}
