use rdpterm::auth::PasswordAuthenticator;

fn authenticator(username: Option<&str>, password: Option<&str>) -> PasswordAuthenticator {
    PasswordAuthenticator {
        username: username.map(|s| s.to_string()),
        password: password.map(|s| s.to_string()),
    }
}

#[test]
fn any_credentials_are_accepted_by_default() {
    assert!(PasswordAuthenticator::from_credentials(None, None).is_none());
    let open = authenticator(None, None);
    assert!(open.authenticate("test", "test"));
    assert!(open.authenticate("", ""));
}

#[test]
fn both_credentials_must_match() {
    let auth =
        PasswordAuthenticator::from_credentials(Some("admin".to_string()), Some("secret".to_string()))
            .unwrap();
    assert!(auth.authenticate("admin", "secret"));
    assert!(!auth.authenticate("admin", "Secret"));
    assert!(!auth.authenticate("root", "secret"));
    assert!(!auth.authenticate("", ""));
    assert!(!auth.authenticate("admin ", "secret"));
}

#[test]
fn one_credential_leaves_the_other_free() {
    let user = authenticator(Some("admin"), None);
    assert!(user.authenticate("admin", "anything"));
    assert!(!user.authenticate("root", "anything"));
    let password = PasswordAuthenticator::from_credentials(None, Some("secret".to_string())).unwrap();
    assert!(password.authenticate("anyone", "secret"));
    assert!(!password.authenticate("anyone", ""));
}

#[test]
fn an_empty_credential_is_still_expected() {
    let auth = authenticator(Some(""), Some("pässwörd"));
    assert!(auth.authenticate("", "pässwörd"));
    assert!(!auth.authenticate("x", "pässwörd"));
    assert!(!auth.authenticate("", "password"));
}
