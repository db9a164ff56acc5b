use robine::secret_store::{
    delete_outcome, get_outcome, put_outcome, valid_name, MacOsKeychainSecretStore, MemorySecretStore, SecretError,
    SecretStore,
};

#[test]
fn memory_store_never_persists_between_instances() {
    let mut store = MemorySecretStore::default();
    store.put("hue:bridge-a", "secret").unwrap();
    assert_eq!(store.get("hue:bridge-a").unwrap().as_deref(), Some("secret"));
    store.delete("hue:bridge-a").unwrap();
    assert_eq!(store.get("hue:bridge-a").unwrap(), None);
}

#[test]
fn memory_store_replaces_and_keeps_other_names() {
    let mut store = MemorySecretStore::new();
    store.put("a", "1").unwrap();
    store.put("b", "2").unwrap();
    store.put("a", "3").unwrap();
    assert_eq!(store.get("a").unwrap().as_deref(), Some("3"));
    assert_eq!(store.get("b").unwrap().as_deref(), Some("2"));
    store.delete("missing").unwrap();
    assert_eq!(store.get("b").unwrap().as_deref(), Some("2"));
    assert_eq!(MemorySecretStore::new().get("a").unwrap(), None);
}

#[test]
fn secret_names_must_be_visible_and_free_of_nul() {
    assert_eq!(valid_name("  "), Err(SecretError::InvalidName));
    assert_eq!(valid_name("a\0b"), Err(SecretError::InvalidName));
    assert_eq!(valid_name("hue:bridge"), Ok(()));
    let mut store = MemorySecretStore::new();
    assert_eq!(store.put(" ", "x"), Err(SecretError::InvalidName));
    assert_eq!(store.get(""), Err(SecretError::InvalidName));
    assert_eq!(SecretError::InvalidName.message(), "secret name is invalid");
    assert_eq!(
        SecretError::Platform("down".into()).message(),
        "the operating-system secret store failed: down"
    );
}

#[test]
fn keychain_commands_and_outcomes() {
    assert!(MacOsKeychainSecretStore::new("").is_err());
    let keychain = MacOsKeychainSecretStore::new("robine").unwrap();
    assert_eq!(keychain.service(), "robine");
    assert_eq!(
        keychain.put_arguments("hue", "s3cret").unwrap(),
        vec!["add-generic-password", "-U", "-a", "hue", "-s", "robine", "-w", "s3cret"]
    );
    assert_eq!(
        keychain.get_arguments("hue").unwrap(),
        vec!["find-generic-password", "-a", "hue", "-s", "robine", "-w"]
    );
    assert_eq!(keychain.delete_arguments("hue").unwrap(), vec!["delete-generic-password", "-a", "hue", "-s", "robine"]);
    assert_eq!(put_outcome(true), Ok(()));
    assert_eq!(
        put_outcome(false),
        Err(SecretError::Platform("could not save secret in macOS Keychain".into()))
    );
    assert_eq!(get_outcome(true, Some(0), "value \n"), Ok(Some("value".into())));
    assert_eq!(get_outcome(false, Some(44), ""), Ok(None));
    assert_eq!(
        get_outcome(false, Some(1), ""),
        Err(SecretError::Platform("could not read secret from macOS Keychain".into()))
    );
    assert_eq!(delete_outcome(false, Some(44)), Ok(()));
    assert!(delete_outcome(false, None).is_err());
}
