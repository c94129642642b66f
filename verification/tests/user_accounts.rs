use webserver::types::CreateUserRequest;
use webserver::users::create_user;
use webserver::users::UserDatabase;

#[test]
fn password_is_stored_only_as_bcrypt_hash() {
    let request = CreateUserRequest {
        username: "alice".to_string(),
        password: "hunter2".to_string(),
    };
    let record = create_user(request).expect("hashing must succeed");
    assert_eq!(record.username, "alice");
    assert_eq!(record.password_hash.len(), 60);
    assert!(record.password_hash.starts_with("$2"));
    assert_ne!(record.password_hash, "hunter2");
    // The stored hash verifies against the original password and
    // against nothing else.
    assert!(bcrypt::verify("hunter2", &record.password_hash).unwrap());
    assert!(!bcrypt::verify("wrong", &record.password_hash).unwrap());
}

#[test]
fn hashes_are_salted() {
    let a = create_user(CreateUserRequest {
        username: "a".to_string(),
        password: "same".to_string(),
    })
    .unwrap();
    let b = create_user(CreateUserRequest {
        username: "b".to_string(),
        password: "same".to_string(),
    })
    .unwrap();
    assert_ne!(a.password_hash, b.password_hash);
}

#[test]
fn login_compares_the_credential_column_verbatim() {
    let mut db = UserDatabase::new();
    let record = create_user(CreateUserRequest {
        username: "alice".to_string(),
        password: "hunter2".to_string(),
    })
    .unwrap();
    let hash = record.password_hash.clone();
    db.create_user(record.username, record.password_hash).unwrap();

    // The login query matches the stored column against what the caller
    // supplies, verbatim: the hash itself matches, the clear password
    // does not.
    let found = db
        .get_user_for_login("alice".to_string(), hash.clone())
        .expect("hash matches the column");
    assert_eq!(found.username, "alice");
    assert_eq!(found.id, 1);
    assert!(db.get_user_for_login("alice".to_string(), "hunter2".to_string()).is_none());
    assert!(db.get_user_for_login("bob".to_string(), hash).is_none());
}

#[test]
fn duplicate_usernames_are_refused() {
    let mut db = UserDatabase::new();
    db.create_user("alice".to_string(), "h1".to_string()).unwrap();
    // The username column is unique: a second insert under the same
    // username fails and leaves the table as it was.
    assert!(db.create_user("alice".to_string(), "h2".to_string()).is_err());
    assert_eq!(db.users.len(), 1);
    assert_eq!(db.users[0].password_hash, "h1");
    // A different username still goes through and gets the next id.
    db.create_user("bob".to_string(), "h3".to_string()).unwrap();
    assert_eq!(db.users.len(), 2);
    assert_eq!(db.users[1].id, 2);
}
