//! The whole system: routing, login across backends, reconciliation,
//! sessions and the daily cycle.

use userdb::errors::DbError;
use userdb::external::ExternalStore;
use userdb::store::{MAX_USERS, find_user_by_username_mut};
use userdb::sync::{PRESSURE_LIMIT, Route, route_new_user};
use userdb::system::EnhancedStudentDatabase;
use userdb::text::decode_field;

#[test]
fn routing_policy_limits() {
    assert_eq!(route_new_user(0, 100, PRESSURE_LIMIT + 1), Route::External);
    assert_eq!(route_new_user(0, 100, PRESSURE_LIMIT), Route::Primary);
    assert_eq!(route_new_user(100, 100, 0), Route::External);
    assert_eq!(route_new_user(99, 100, 0), Route::Primary);
}

#[test]
fn sixth_signup_routes_external() {
    let mut db = EnhancedStudentDatabase::new();
    for i in 1..=6 {
        db.enqueue_user(&format!("u{}", i), "e@example.com", "pw").unwrap();
    }
    db.sync_database();
    assert!(db.external.find_by_username("u6").is_some());
    assert!(db.find_user_by_name(&db.rust_db, "u6").is_none());
    for i in 1..=5 {
        assert!(db.find_user_by_name(&db.rust_db, &format!("u{}", i)).is_some());
    }
    assert_eq!(db.rust_db.count, 5);
    assert_eq!(db.external.dir.count, 1);
}

#[test]
fn seven_signups_route_sixth_and_onward_external() {
    let mut db = EnhancedStudentDatabase::new();
    for i in 1..=7 {
        db.enqueue_user(&format!("v{}", i), "e@example.com", "pw").unwrap();
    }
    db.sync_database();
    assert!(db.external.find_by_username("v6").is_some());
    assert!(db.external.find_by_username("v7").is_some());
    assert_eq!(db.rust_db.count, 5);
    assert_eq!(db.external.dir.count, 2);
}

#[test]
fn login_success_activates_record() {
    let mut db = EnhancedStudentDatabase::new();
    db.enqueue_user("alice", "alice@example.com", "secret").unwrap();
    db.sync_database();
    let i = find_user_by_username_mut(&db.rust_db, "alice").unwrap();
    db.rust_db.users[i].as_mut().unwrap().inactivity_count = 3;
    db.rust_db.users[i].as_mut().unwrap().is_active = false;
    let token = db.login_user("alice", "secret").unwrap();
    let u = db.rust_db.users[i].as_ref().unwrap();
    assert_eq!(u.inactivity_count, 0);
    assert!(u.is_active);
    assert_eq!(decode_field(&u.session_token), token);
    assert_eq!(db.validate_session(&token).unwrap(), u.user_id);
}

#[test]
fn wrong_password_fails_and_leaves_record() {
    let mut db = EnhancedStudentDatabase::new();
    db.enqueue_user("alice", "alice@example.com", "secret").unwrap();
    db.sync_database();
    let i = find_user_by_username_mut(&db.rust_db, "alice").unwrap();
    db.rust_db.users[i].as_mut().unwrap().inactivity_count = 2;
    let r = db.login_user("alice", "wrong_password");
    assert_eq!(r, Err(DbError::IncorrectPassword));
    let u = db.rust_db.users[i].as_ref().unwrap();
    assert_eq!(u.inactivity_count, 2);
    assert_eq!(decode_field(&u.session_token).len(), 0);
}

#[test]
fn login_unknown_user_not_found() {
    let mut db = EnhancedStudentDatabase::new();
    assert_eq!(db.login_user("ghost", "x"), Err(DbError::UserNotFound));
    assert_eq!(db.user_references.len(), 0);
}

#[test]
fn join_makes_external_user_discoverable() {
    let mut db = EnhancedStudentDatabase::new();
    db.enqueue_user("alice", "a@example.com", "pa").unwrap();
    db.sync_database();
    db.external.create_and_add("bob", "b@example.com", 0, "pb").unwrap();
    assert!(!db.user_discoverable("bob"));
    db.join_databases();
    assert!(db.user_discoverable("bob"));
    assert!(db.external.has_reference("alice"));
    assert!(db.find_user_by_name(&db.rust_db, "bob").is_none());
    let t = db.login_user("bob", "pb").unwrap();
    assert_eq!(db.validate_session(&t).unwrap(), 1);
    let r = db.login_user("alice", "not_her_password");
    assert_eq!(r, Err(DbError::IncorrectPassword));
    let i = find_user_by_username_mut(&db.rust_db, "alice").unwrap();
    assert_eq!(db.rust_db.users[i].as_ref().unwrap().inactivity_count, 0);
}

#[test]
fn join_is_idempotent() {
    let mut db = EnhancedStudentDatabase::new();
    db.enqueue_user("alice", "a@example.com", "pa").unwrap();
    db.sync_database();
    db.external.create_and_add("bob", "b@example.com", 0, "pb").unwrap();
    db.join_databases();
    let primary_count = db.rust_db.count;
    let refs = db.user_references.len();
    let adopted = db.external.adopted.len();
    db.join_databases();
    assert_eq!(db.rust_db.count, primary_count);
    assert_eq!(db.user_references.len(), refs);
    assert_eq!(db.external.adopted.len(), adopted);
}

#[test]
fn external_store_full_refuses_creation() {
    let mut ext = ExternalStore::new();
    for i in 0..MAX_USERS {
        ext.create_and_add(&format!("e{}", i), "e@example.com", 0, "pw").unwrap();
    }
    assert_eq!(
        ext.create_and_add("late", "e@example.com", 0, "pw"),
        Err(DbError::CreationFailed)
    );
}

#[test]
fn external_create_session_through_reference() {
    let mut ext = ExternalStore::new();
    ext.create_and_add("bob", "b@example.com", 0, "pb").unwrap();
    let refs = ext.list_references();
    assert_eq!(refs.len(), 1);
    assert_eq!(refs[0].username, b"bob".to_vec());
    assert_eq!(refs[0].user_id, 1);
    let t = ext.create_session(&refs[0]).unwrap();
    assert_eq!(ext.validate_session(&t).unwrap(), 1);
    let u = ext.find_by_username("bob").unwrap();
    assert_eq!(decode_field(&u.session_token), t);
    let missing = userdb::external::UserReference { username: b"nobody".to_vec(), user_id: 9 };
    assert_eq!(ext.create_session(&missing), Err(DbError::UserNotFound));
}

#[test]
fn invalid_session_rejected() {
    let db = EnhancedStudentDatabase::new();
    assert_eq!(db.validate_session(&b"TK0"[..]), Err(DbError::InvalidSession));
}

#[test]
fn external_hit_caches_reference_even_on_bad_password() {
    let mut db = EnhancedStudentDatabase::new();
    db.external.create_and_add("bob", "b@example.com", 0, "pb").unwrap();
    assert_eq!(db.login_user("bob", "no"), Err(DbError::IncorrectPassword));
    assert_eq!(db.user_references.len(), 1);
    assert_eq!(db.user_references[0].username, b"bob".to_vec());
    assert_eq!(db.user_references[0].user_id, 1);
}

#[test]
fn session_tokens_are_distinct() {
    let mut db = EnhancedStudentDatabase::new();
    db.enqueue_user("alice", "a@example.com", "pa").unwrap();
    db.sync_database();
    let t1 = db.login_user("alice", "pa").unwrap();
    let t2 = db.login_user("alice", "pa").unwrap();
    assert_ne!(t1, t2);
    assert_eq!(db.validate_session(&t1).unwrap(), 1);
    assert_eq!(db.validate_session(&t2).unwrap(), 1);
}

#[test]
fn validate_active_user_session_counts() {
    let mut db = EnhancedStudentDatabase::new();
    db.enqueue_user("alice", "a@example.com", "pa").unwrap();
    db.enqueue_user("carol", "c@example.com", "pc").unwrap();
    db.sync_database();
    assert_eq!(db.validate_active_user_session(), 0);
    db.login_user("alice", "pa").unwrap();
    assert_eq!(db.validate_active_user_session(), 1);
}

#[test]
fn increase_day_drains_and_sweeps() {
    let mut db = EnhancedStudentDatabase::new();
    db.enqueue_user("carol", "c@example.com", "pw").unwrap();
    db.increase_day();
    assert_eq!(db.day_counter, 1);
    assert_eq!(db.pending_requests.len(), 0);
    let u = db.find_user_by_name(&db.rust_db, "carol").unwrap();
    assert_eq!(u.inactivity_count, 1);
}

#[test]
fn increase_day_sweeps_external_store_too() {
    let mut db = EnhancedStudentDatabase::new();
    db.external.create_and_add("bob", "b@example.com", 0, "pb").unwrap();
    db.increase_day();
    let u = db.external.find_by_username("bob").unwrap();
    assert_eq!(u.inactivity_count, 1);
}
