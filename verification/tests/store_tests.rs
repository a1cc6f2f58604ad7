//! Primary store lifecycle: insertion, lookup, login, capacity and the
//! maintenance sweep.

use userdb::errors::DbError;
use userdb::record::{OwnedBy, UserStruct, create_user};
use userdb::store::{
    INACTIVITY_THRESHOLD, MAX_USERS, add_user, find_user_by_username, find_user_by_username_mut,
    init_database, try_add_user, update_database_daily, user_login,
};
use userdb::text::decode_field;

#[test]
fn init_database_is_empty() {
    let db = init_database();
    assert_eq!(db.count, 0);
    assert_eq!(db.capacity, MAX_USERS);
    assert!(db.users.iter().all(|s| s.is_none()));
}

#[test]
fn create_user_encodes_fields() {
    let u = create_user("erin", "erin@example.com", 7, "pw");
    assert_eq!(decode_field(&u.username), b"erin".to_vec());
    assert_eq!(decode_field(&u.email), b"erin@example.com".to_vec());
    assert_eq!(decode_field(&u.password), b"pw".to_vec());
    assert_eq!(decode_field(&u.session_token).len(), 0);
    assert_eq!(u.inactivity_count, 0);
    assert!(u.is_active);
    assert_eq!(u.owned_by, OwnedBy::Primary);
}

#[test]
fn add_assigns_sequential_ids() {
    let mut db = init_database();
    add_user(&mut db, create_user("u1", "u1@example.com", 0, "p1"));
    add_user(&mut db, create_user("u2", "u2@example.com", 99, "p2"));
    assert_eq!(db.count, 2);
    assert_eq!(find_user_by_username(&db, "u1").unwrap().user_id, 1);
    assert_eq!(find_user_by_username(&db, "u2").unwrap().user_id, 2);
}

#[test]
fn capacity_overflow_is_silent_no_op() {
    let mut db = init_database();
    for i in 0..MAX_USERS {
        let name = format!("user{}", i);
        add_user(&mut db, create_user(&name, "e@example.com", 0, "pw"));
    }
    assert_eq!(db.count, MAX_USERS);
    add_user(&mut db, create_user("overflow_user", "e@example.com", 0, "pw"));
    assert_eq!(db.count, MAX_USERS);
    assert!(find_user_by_username(&db, "overflow_user").is_none());
}

#[test]
fn try_add_user_surfaces_capacity() {
    let mut db = init_database();
    assert_eq!(try_add_user(&mut db, create_user("first", "e@example.com", 0, "pw")), Ok(1));
    for i in 1..MAX_USERS {
        let name = format!("user{}", i);
        add_user(&mut db, create_user(&name, "e@example.com", 0, "pw"));
    }
    assert_eq!(
        try_add_user(&mut db, create_user("late", "e@example.com", 0, "pw")),
        Err(DbError::CapacityExceeded)
    );
    assert_eq!(db.count, MAX_USERS);
}

#[test]
fn find_misses_unknown_user() {
    let mut db = init_database();
    add_user(&mut db, create_user("dave", "d@example.com", 0, "pw"));
    assert!(find_user_by_username(&db, "nobody").is_none());
    assert!(find_user_by_username_mut(&db, "nobody").is_none());
}

#[test]
fn login_resets_inactivity() {
    let mut db = init_database();
    add_user(&mut db, create_user("dave", "d@example.com", 0, "pw"));
    let i = find_user_by_username_mut(&db, "dave").unwrap();
    db.users[i].as_mut().unwrap().inactivity_count = 4;
    user_login(&mut db, "dave");
    assert_eq!(db.users[i].as_ref().unwrap().inactivity_count, 0);
}

#[test]
fn login_unknown_user_is_no_op() {
    let mut db = init_database();
    add_user(&mut db, create_user("dave", "d@example.com", 0, "pw"));
    user_login(&mut db, "nobody");
    assert_eq!(db.count, 1);
    assert_eq!(find_user_by_username(&db, "dave").unwrap().inactivity_count, 0);
}

#[test]
fn sweep_increments_or_evicts_exclusively() {
    let mut db = init_database();
    add_user(&mut db, create_user("stay", "s@example.com", 0, "pw"));
    add_user(&mut db, create_user("go", "g@example.com", 0, "pw"));
    let gi = find_user_by_username_mut(&db, "go").unwrap();
    db.users[gi].as_mut().unwrap().is_active = false;
    db.users[gi].as_mut().unwrap().inactivity_count = INACTIVITY_THRESHOLD + 1;
    update_database_daily(&mut db);
    assert!(db.users[gi].is_none());
    assert_eq!(find_user_by_username(&db, "stay").unwrap().inactivity_count, 1);
    assert_eq!(db.count, 2);
}

#[test]
fn inactive_record_evicted_after_threshold_sweeps() {
    let mut db = init_database();
    add_user(&mut db, create_user("idle", "i@example.com", 0, "pw"));
    let i = find_user_by_username_mut(&db, "idle").unwrap();
    db.users[i].as_mut().unwrap().is_active = false;
    for _ in 0..6 {
        update_database_daily(&mut db);
    }
    assert_eq!(find_user_by_username(&db, "idle").unwrap().inactivity_count, 6);
    update_database_daily(&mut db);
    assert!(find_user_by_username(&db, "idle").is_none());
    assert!(db.users[i].is_none());
    update_database_daily(&mut db);
    assert!(db.users[i].is_none());
}

#[test]
fn evicted_hole_is_not_searched() {
    let mut db = init_database();
    add_user(&mut db, create_user("gone", "g@example.com", 0, "pw"));
    add_user(&mut db, create_user("kept", "k@example.com", 0, "pw"));
    let gi = find_user_by_username_mut(&db, "gone").unwrap();
    db.users[gi].as_mut().unwrap().is_active = false;
    db.users[gi].as_mut().unwrap().inactivity_count = INACTIVITY_THRESHOLD + 1;
    update_database_daily(&mut db);
    assert!(find_user_by_username(&db, "gone").is_none());
    assert!(find_user_by_username(&db, "kept").is_some());
}

#[test]
fn truncated_long_username_is_found_by_prefix() {
    let mut db = init_database();
    let long = "a".repeat(60);
    add_user(&mut db, create_user(&long, "l@example.com", 0, "pw"));
    assert!(find_user_by_username(&db, &long).is_none());
    let trunc: String = long.chars().take(49).collect();
    assert!(find_user_by_username(&db, &trunc).is_some());
}

#[test]
fn default_record_is_empty() {
    let u = UserStruct::default();
    assert_eq!(u.user_id, 0);
    assert!(!u.is_active);
    assert_eq!(u.inactivity_count, 0);
    assert_eq!(decode_field(&u.username).len(), 0);
    assert_eq!(decode_field(&u.session_token).len(), 0);
}

#[test]
fn first_match_wins_on_duplicate_names() {
    let mut db = init_database();
    add_user(&mut db, create_user("dup", "one@example.com", 0, "pw1"));
    add_user(&mut db, create_user("dup", "two@example.com", 0, "pw2"));
    let u = find_user_by_username(&db, "dup").unwrap();
    assert_eq!(u.user_id, 1);
}
