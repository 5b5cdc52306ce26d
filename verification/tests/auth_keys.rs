use collie::auth::{
    authorize, claims_valid, create, create_key_pair, exists_key, generate_key, Claims, Error,
    KeyStorage, KeyToCreate,
};

const CHARSET: &str = "abcdefghijklmnopqrstuvwxyzABCDEFGHIJKLMNOPQRSTUVWXYZ0123456789!@#$%^&*_-";

#[test]
fn generated_keys_are_64_charset_characters() {
    let key = generate_key();
    assert_eq!(key.chars().count(), 64);
    assert!(key.chars().all(|c| CHARSET.contains(c)));
}

#[test]
fn created_pairs_are_stored_and_found() {
    let mut ks = KeyStorage::new();
    let (access, secret) = create_key_pair(&mut ks, Some("laptop"));
    assert_eq!(access.chars().count(), 64);
    assert_eq!(secret.chars().count(), 64);
    assert_eq!(exists_key(&ks, &access, &secret, 0), Ok(true));
    assert_eq!(exists_key(&ks, &access, "wrong", 0), Ok(false));
    assert_eq!(exists_key(&ks, "wrong", &secret, 0), Ok(false));
}

#[test]
fn stored_keys_respect_expiry() {
    let mut ks = KeyStorage::new();
    create(
        &mut ks,
        &KeyToCreate {
            access: "a-key".to_string(),
            secret: "s-key".to_string(),
            description: None,
            expired_at: Some(100),
        },
    )
    .unwrap();
    assert_eq!(exists_key(&ks, "a-key", "s-key", 50), Ok(true));
    assert_eq!(exists_key(&ks, "a-key", "s-key", 100), Ok(false));
    assert_eq!(exists_key(&ks, "a-key", "s-key", 150), Ok(false));
}

#[test]
fn duplicate_access_parts_are_refused() {
    let mut ks = KeyStorage::new();
    let arg = KeyToCreate {
        access: "same".to_string(),
        secret: "one".to_string(),
        description: None,
        expired_at: None,
    };
    assert_eq!(create(&mut ks, &arg), Ok(1));
    let again = KeyToCreate {
        access: "same".to_string(),
        secret: "two".to_string(),
        description: None,
        expired_at: None,
    };
    assert_eq!(create(&mut ks, &again), Err(Error::StorageFailure));
}

#[test]
fn authorize_issues_hour_long_claims_for_known_pairs() {
    let mut ks = KeyStorage::new();
    let (access, secret) = create_key_pair(&mut ks, None);
    let claims = authorize(&ks, &access, &secret, 5000).unwrap();
    assert_eq!(claims.iat, 5000);
    assert_eq!(claims.exp, 5000 + 3600);
    assert_eq!(authorize(&ks, &access, "nope", 5000), Err(Error::Unauthorized));
}

#[test]
fn claims_are_valid_until_their_expiry() {
    let c = Claims { iat: 100, exp: 200 };
    assert!(claims_valid(&c, 150));
    assert!(!claims_valid(&c, 200));
    assert!(!claims_valid(&c, 300));
}
