//! The driver-facing surface: one handle that owns the primary store, the
//! external store adapter, the reference cache, the token table and the
//! signup queue, and coordinates routing, login, reconciliation and the
//! daily maintenance cycle.

use vstd::prelude::*;
use crate::errors::DbError;
use crate::external::{UserReference, ExternalStore, RefView, contains_ref};
use crate::record::{UserStruct, create_user};
use crate::session::{SessionManager, SessionView, lookup, token_bytes, token_ok};
use crate::store::{
    UserDatabase, add_user, find_user_by_name_bytes, find_user_by_username, first_match,
    init_database, lemma_first_match_characterization, login_spec, update_database_daily,
    user_login,
};
use crate::sync::{
    ReqView, Route, adopt_from, drain, inact_bounded, lemma_drain_bounded, pull_from, refs_nodup,
    route_new_user, signup_step,
};
use crate::text::{MAX_SESSION_TOKEN_LEN, bytes_eq, decode_field, encode_field};

verus! {

use vstd::string::StringSliceAdditionalSpecFns;

/// A queued user-creation request.
pub struct UserInfoT {
    pub username: String,
    pub email: String,
    pub password: String,
}

impl DeepView for UserInfoT {
    type V = ReqView;

    open spec fn deep_view(&self) -> ReqView {
        ReqView {
            username: vstd::utf8::encode_utf8(self.username@),
            email: vstd::utf8::encode_utf8(self.email@),
            password: vstd::utf8::encode_utf8(self.password@),
        }
    }
}

/// The whole directory system: both backends, the primary-side cache of
/// external references, the primary token table, the signup queue and
/// the period counter.
pub struct EnhancedStudentDatabase {
    pub rust_db: UserDatabase,
    pub external: ExternalStore,
    pub user_references: Vec<UserReference>,
    pub sessions: SessionManager,
    pub pending_requests: Vec<UserInfoT>,
    pub day_counter: u32,
}

impl EnhancedStudentDatabase {
    /// The system invariant: both stores and the token table are
    /// well-formed, and the reference cache names each user at most
    /// once.
    pub open spec fn wf(self) -> bool {
        &&& self.rust_db.wf()
        &&& self.external.wf()
        &&& self.sessions.wf()
        &&& refs_nodup(self.user_references.deep_view())
    }

    /// A fresh system: two empty stores, no references, no sessions, no
    /// queued signups, day zero.
    pub fn new() -> (s: EnhancedStudentDatabase)
        ensures
            s.wf(),
            s.rust_db@.count == 0,
            s.external.dir@.count == 0,
            s.user_references.deep_view() == Seq::<RefView>::empty(),
            s.sessions@.entries == Seq::<SessionView>::empty(),
            s.sessions@.next_serial == 0,
            s.external.sessions@.entries == Seq::<SessionView>::empty(),
            s.external.sessions@.next_serial == 0,
            s.external.adopted.deep_view() == Seq::<Seq<u8>>::empty(),
            s.pending_requests.deep_view() == Seq::<ReqView>::empty(),
            s.day_counter == 0,
    {
        let s = EnhancedStudentDatabase {
            rust_db: init_database(),
            external: ExternalStore::new(),
            user_references: Vec::new(),
            sessions: SessionManager::new(),
            pending_requests: Vec::new(),
            day_counter: 0,
        };
        proof {
            assert(s.user_references.deep_view() =~= Seq::<RefView>::empty());
            assert(s.pending_requests.deep_view() =~= Seq::<ReqView>::empty());
        }
        s
    }

    /// Queue a user-creation request; the next drain routes and applies
    /// it.
    pub fn enqueue_user(&mut self, username: &str, email: &str, password: &str) -> (r: Result<
        (),
        DbError,
    >)
        ensures
            r is Ok,
            final(self).pending_requests.deep_view() == old(self).pending_requests.deep_view()
                .push(
                ReqView {
                    username: username.spec_bytes(),
                    email: email.spec_bytes(),
                    password: password.spec_bytes(),
                },
            ),
            final(self).rust_db == old(self).rust_db,
            final(self).external == old(self).external,
            final(self).user_references == old(self).user_references,
            final(self).sessions == old(self).sessions,
            final(self).day_counter == old(self).day_counter,
    {
        let req = UserInfoT {
            username: username.to_owned(),
            email: email.to_owned(),
            password: password.to_owned(),
        };
        self.pending_requests.push(req);
        proof {
            assert(self.pending_requests.deep_view() =~~= old(self).pending_requests.deep_view()
                .push(
                ReqView {
                    username: username.spec_bytes(),
                    email: email.spec_bytes(),
                    password: password.spec_bytes(),
                },
            ));
        }
        Ok(())
    }

    /// Reset the inactivity of the primary record with the given
    /// username, as a login does. A missing user is a no-op.
    pub fn activate_user(&mut self, user_name: &str)
        requires
            old(self).wf(),
        ensures
            final(self).wf(),
            final(self).rust_db@ == login_spec(old(self).rust_db@, user_name.spec_bytes()),
            final(self).external == old(self).external,
            final(self).user_references == old(self).user_references,
            final(self).sessions == old(self).sessions,
            final(self).pending_requests == old(self).pending_requests,
            final(self).day_counter == old(self).day_counter,
    {
        user_login(&mut self.rust_db, user_name);
    }

    /// Look a username up in the given directory, first live match wins.
    pub fn find_user_by_name<'a>(&self, db: &'a UserDatabase, username: &str) -> (r: Option<
        &'a UserStruct,
    >)
        requires
            db.wf(),
        ensures
            r matches Some(u) ==> {
                &&& first_match(db@.users, db@.count, username.spec_bytes()) matches Some(i)
                &&& db@.users[i] == Some(u@)
            },
            r is None ==> first_match(db@.users, db@.count, username.spec_bytes()) is None,
    {
        find_user_by_username(db, username)
    }

    /// Apply one signup under the routing policy: under pressure, or with
    /// the primary store full, the external store receives the user;
    /// otherwise the primary store does. Only an external refusal (its
    /// store full) surfaces as an error.
    pub fn add_user_with_sync(
        &mut self,
        username: &str,
        email: &str,
        password: &str,
        pending_count: usize,
    ) -> (r: Result<(), DbError>)
        requires
            old(self).wf(),
        ensures
            final(self).wf(),
            ({
                let q = ReqView {
                    username: username.spec_bytes(),
                    email: email.spec_bytes(),
                    password: password.spec_bytes(),
                };
                let step = signup_step(
                    old(self).rust_db@,
                    old(self).external.dir@,
                    q,
                    pending_count as int,
                );
                &&& final(self).rust_db@ == step.0
                &&& final(self).external.dir@ == step.1
            }),
            final(self).external.adopted == old(self).external.adopted,
            final(self).external.sessions == old(self).external.sessions,
            final(self).user_references == old(self).user_references,
            final(self).sessions == old(self).sessions,
            final(self).pending_requests == old(self).pending_requests,
            final(self).day_counter == old(self).day_counter,
            r == if crate::sync::route_spec(
                old(self).rust_db@.count,
                old(self).rust_db@.capacity,
                pending_count as int,
            ) is External && old(self).external.dir@.count >= old(self).external.dir@.capacity {
                Err::<(), DbError>(DbError::CreationFailed)
            } else {
                Ok::<(), DbError>(())
            },
    {
        let route = route_new_user(self.rust_db.count, self.rust_db.capacity, pending_count);
        match route {
            Route::External => {
                match self.external.create_and_add(username, email, 0, password) {
                    Ok(_) => Ok(()),
                    Err(e) => Err(e),
                }
            },
            Route::Primary => {
                let user = create_user(username, email, 0, password);
                add_user(&mut self.rust_db, user);
                Ok(())
            },
        }
    }

    /// Drain the signup queue, most recently queued first, routing each
    /// request with the pending pressure of that moment.
    pub fn sync_database(&mut self)
        requires
            old(self).wf(),
        ensures
            final(self).wf(),
            final(self).pending_requests.deep_view() == Seq::<ReqView>::empty(),
            ({
                let d = drain(
                    old(self).rust_db@,
                    old(self).external.dir@,
                    old(self).pending_requests.deep_view(),
                );
                &&& final(self).rust_db@ == d.0
                &&& final(self).external.dir@ == d.1
            }),
            final(self).external.adopted == old(self).external.adopted,
            final(self).external.sessions == old(self).external.sessions,
            final(self).user_references == old(self).user_references,
            final(self).sessions == old(self).sessions,
            final(self).day_counter == old(self).day_counter,
    {
        while self.pending_requests.len() > 0
            invariant
                self.wf(),
                drain(
                    self.rust_db@,
                    self.external.dir@,
                    self.pending_requests.deep_view(),
                ) == drain(
                    old(self).rust_db@,
                    old(self).external.dir@,
                    old(self).pending_requests.deep_view(),
                ),
                self.external.adopted == old(self).external.adopted,
                self.external.sessions == old(self).external.sessions,
                self.user_references == old(self).user_references,
                self.sessions == old(self).sessions,
                self.day_counter == old(self).day_counter,
            decreases self.pending_requests.len(),
        {
            let ghost pre_dirs = (self.rust_db@, self.external.dir@);
            let ghost pre_pending = self.pending_requests.deep_view();
            let pressure = self.pending_requests.len();
            let req = self.pending_requests.pop().unwrap();
            proof {
                assert(self.pending_requests.deep_view() =~~= pre_pending.drop_last());
                assert(req.deep_view() == pre_pending.last());
            }
            let _ = self.add_user_with_sync(
                req.username.as_str(),
                req.email.as_str(),
                req.password.as_str(),
                pressure,
            );
            proof {
                let step = signup_step(
                    pre_dirs.0,
                    pre_dirs.1,
                    pre_pending.last(),
                    pre_pending.len() as int,
                );
                assert(self.rust_db@ == step.0 && self.external.dir@ == step.1);
                assert(drain(pre_dirs.0, pre_dirs.1, pre_pending) == drain(
                    step.0,
                    step.1,
                    pre_pending.drop_last(),
                ));
            }
        }
        proof {
            assert(self.pending_requests.deep_view() =~= Seq::<ReqView>::empty());
        }
    }

    /// Authenticate a user and open a session. The primary store is
    /// searched first; on a primary hit the password is compared and, on
    /// success, a token is issued from the primary table, stored in the
    /// record, and the record is marked active with zero inactivity. A
    /// primary miss falls through to the external store: a hit there is
    /// cached as a reference (even when the password then fails), and a
    /// successful login issues the token through the external store.
    /// A user found nowhere fails with a not-found error; a password
    /// mismatch fails with an incorrect-password error and leaves the
    /// matched record exactly as it was.
    pub fn login_user(&mut self, user_name: &str, password: &str) -> (r: Result<Vec<u8>, DbError>)
        requires
            old(self).wf(),
            old(self).sessions@.next_serial < u32::MAX,
            old(self).external.sessions@.next_serial < u32::MAX,
        ensures
            final(self).wf(),
            final(self).pending_requests == old(self).pending_requests,
            final(self).day_counter == old(self).day_counter,
            ({
                let name = user_name.spec_bytes();
                let pw = password.spec_bytes();
                let pm = first_match(old(self).rust_db@.users, old(self).rust_db@.count, name);
                match pm {
                    Some(i) => {
                        let u = old(self).rust_db@.users[i]->0;
                        &&& final(self).external == old(self).external
                        &&& final(self).user_references == old(self).user_references
                        &&& if u.password == pw {
                            &&& r matches Ok(t)
                            &&& t@ == token_bytes(old(self).sessions@.next_serial as nat)
                            &&& token_ok(t@)
                            &&& final(self).rust_db@ == crate::external::activate_spec(
                                old(self).rust_db@,
                                i,
                                t@,
                            )
                            &&& final(self).sessions@.entries == old(self).sessions@.entries.push(
                                SessionView { token: t@, user_id: u.user_id },
                            )
                            &&& final(self).sessions@.next_serial == old(
                                self,
                            ).sessions@.next_serial + 1
                        } else {
                            &&& r == Err::<Vec<u8>, DbError>(DbError::IncorrectPassword)
                            &&& final(self).rust_db == old(self).rust_db
                            &&& final(self).sessions == old(self).sessions
                        }
                    },
                    None => {
                        let em = first_match(
                            old(self).external.dir@.users,
                            old(self).external.dir@.count,
                            name,
                        );
                        &&& final(self).rust_db == old(self).rust_db
                        &&& final(self).sessions == old(self).sessions
                        &&& match em {
                            None => {
                                &&& r == Err::<Vec<u8>, DbError>(DbError::UserNotFound)
                                &&& final(self).external == old(self).external
                                &&& final(self).user_references == old(self).user_references
                            },
                            Some(k) => {
                                let v = old(self).external.dir@.users[k]->0;
                                let cached = contains_ref(
                                    old(self).user_references.deep_view(),
                                    name,
                                );
                                &&& final(self).user_references.deep_view() == if cached {
                                    old(self).user_references.deep_view()
                                } else {
                                    old(self).user_references.deep_view().push(
                                        RefView { username: name, user_id: v.user_id },
                                    )
                                }
                                &&& final(self).external.adopted == old(self).external.adopted
                                &&& if v.password == pw {
                                    &&& r matches Ok(t)
                                    &&& t@ == token_bytes(
                                        old(self).external.sessions@.next_serial as nat,
                                    )
                                    &&& token_ok(t@)
                                    &&& final(self).external.dir@
                                        == crate::external::activate_spec(
                                        old(self).external.dir@,
                                        k,
                                        t@,
                                    )
                                    &&& final(self).external.sessions@.entries == old(
                                        self,
                                    ).external.sessions@.entries.push(
                                        SessionView { token: t@, user_id: v.user_id },
                                    )
                                    &&& final(self).external.sessions@.next_serial == old(
                                        self,
                                    ).external.sessions@.next_serial + 1
                                } else {
                                    &&& r == Err::<Vec<u8>, DbError>(DbError::IncorrectPassword)
                                    &&& final(self).external.dir == old(self).external.dir
                                    &&& final(self).external.sessions == old(
                                        self,
                                    ).external.sessions
                                }
                            },
                        }
                    },
                }
            }),
    {
        let name_bytes = user_name.as_bytes();
        match find_user_by_name_bytes(&self.rust_db, name_bytes) {
            Some(i) => {
                proof {
                    lemma_first_match_characterization(
                        self.rust_db@.users,
                        self.rust_db@.count,
                        user_name.spec_bytes(),
                        0,
                    );
                    assert(self.rust_db@.users[i as int] == self.rust_db.users@[
                        i as int
                    ].deep_view());
                }
                let (pw_ok, id) = match &self.rust_db.users[i] {
                    Some(u) => (crate::text::str_cmp(u.password.as_slice(), password), u.user_id),
                    None => {
                        proof {
                            assert(false);
                        }
                        (false, 0)
                    },
                };
                if !pw_ok {
                    return Err(DbError::IncorrectPassword);
                }
                let token = self.sessions.create_session(id);
                let stored = encode_field(token.as_slice(), MAX_SESSION_TOKEN_LEN);
                proof {
                    crate::text::lemma_encoded_terminated(token@, MAX_SESSION_TOKEN_LEN as int);
                    crate::text::lemma_decode_encode_roundtrip(token@, MAX_SESSION_TOKEN_LEN as int);
                }
                match &mut self.rust_db.users[i] {
                    Some(u) => {
                        u.inactivity_count = 0;
                        u.is_active = true;
                        u.session_token = stored;
                    },
                    None => {},
                }
                proof {
                    assert(self.rust_db@.users =~= crate::external::activate_spec(
                        old(self).rust_db@,
                        i as int,
                        token@,
                    ).users);
                    assert(self.rust_db@ =~= crate::external::activate_spec(
                        old(self).rust_db@,
                        i as int,
                        token@,
                    ));
                }
                Ok(token)
            },
            None => {
                let cached = crate::external::contains_ref_exec(&self.user_references, name_bytes);
                match find_user_by_name_bytes(&self.external.dir, name_bytes) {
                    None => Err(DbError::UserNotFound),
                    Some(k) => {
                        proof {
                            lemma_first_match_characterization(
                                self.external.dir@.users,
                                self.external.dir@.count,
                                user_name.spec_bytes(),
                                0,
                            );
                            assert(self.external.dir@.users[k as int] == self.external.dir.users@[
                                k as int
                            ].deep_view());
                        }
                        let (ext_pw, ext_id) = match &self.external.dir.users[k] {
                            Some(u) => (decode_field(u.password.as_slice()), u.user_id),
                            None => {
                                proof {
                                    assert(false);
                                }
                                (Vec::new(), 0)
                            },
                        };
                        if !cached {
                            let uname = vstd::slice::slice_to_vec(name_bytes);
                            self.user_references.push(
                                UserReference { username: uname, user_id: ext_id },
                            );
                            proof {
                                assert(self.user_references.deep_view() =~~= old(
                                    self,
                                ).user_references.deep_view().push(
                                    RefView {
                                        username: user_name.spec_bytes(),
                                        user_id: ext_id as int,
                                    },
                                ));
                            }
                        }
                        if !bytes_eq(ext_pw.as_slice(), password.as_bytes()) {
                            return Err(DbError::IncorrectPassword);
                        }
                        match self.external.login_user(name_bytes) {
                            Ok(t) => Ok(t),
                            Err(e) => Err(e),
                        }
                    },
                }
            },
        }
    }

    /// Reconcile the two stores. Every primary-owned record is handed to
    /// the external store as a reference, the primary store retaining
    /// ownership; every external-owned record not discoverable from the
    /// primary side is cached as a primary-held reference. No record is
    /// copied and no ownership moves, so the primary store's slots and
    /// count are left exactly as they were.
    pub fn join_databases(&mut self)
        requires
            old(self).wf(),
        ensures
            final(self).wf(),
            final(self).rust_db == old(self).rust_db,
            final(self).external.dir == old(self).external.dir,
            final(self).external.sessions == old(self).external.sessions,
            final(self).sessions == old(self).sessions,
            final(self).pending_requests == old(self).pending_requests,
            final(self).day_counter == old(self).day_counter,
            final(self).external.adopted.deep_view() == adopt_from(
                old(self).external.adopted.deep_view(),
                old(self).rust_db@.users,
                old(self).rust_db@.count,
                0,
            ),
            final(self).user_references.deep_view() == pull_from(
                old(self).user_references.deep_view(),
                crate::external::refs_upto(
                    old(self).external.dir@.users,
                    old(self).external.dir@.count,
                ),
                old(self).rust_db@,
                0,
            ),
    {
        let count = self.rust_db.count;
        let mut i: usize = 0;
        while i < count
            invariant
                self.wf(),
                i <= count,
                count == self.rust_db.count,
                self.rust_db == old(self).rust_db,
                self.external.dir == old(self).external.dir,
                self.external.sessions == old(self).external.sessions,
                self.sessions == old(self).sessions,
                self.user_references == old(self).user_references,
                self.pending_requests == old(self).pending_requests,
                self.day_counter == old(self).day_counter,
                adopt_from(
                    self.external.adopted.deep_view(),
                    self.rust_db@.users,
                    count as int,
                    i as int,
                ) == adopt_from(
                    old(self).external.adopted.deep_view(),
                    old(self).rust_db@.users,
                    count as int,
                    0,
                ),
            decreases count - i,
        {
            let ghost pre = self.external.adopted.deep_view();
            proof {
                assert(self.rust_db@.users[i as int] == self.rust_db.users@[i as int].deep_view());
            }
            match &self.rust_db.users[i] {
                Some(u) => {
                    self.external.adopt_reference(u);
                },
                None => {},
            }
            proof {
                assert(adopt_from(
                    self.external.adopted.deep_view(),
                    self.rust_db@.users,
                    count as int,
                    i + 1,
                ) == adopt_from(pre, self.rust_db@.users, count as int, i as int));
            }
            i = i + 1;
        }
        let refs_list = self.external.list_references();
        let ghost list = refs_list.deep_view();
        let mut j: usize = 0;
        while j < refs_list.len()
            invariant
                self.wf(),
                j <= refs_list@.len(),
                list == refs_list.deep_view(),
                self.rust_db == old(self).rust_db,
                self.external.dir == old(self).external.dir,
                self.external.sessions == old(self).external.sessions,
                self.sessions == old(self).sessions,
                self.pending_requests == old(self).pending_requests,
                self.day_counter == old(self).day_counter,
                self.external.adopted.deep_view() == adopt_from(
                    old(self).external.adopted.deep_view(),
                    old(self).rust_db@.users,
                    old(self).rust_db@.count,
                    0,
                ),
                pull_from(
                    self.user_references.deep_view(),
                    list,
                    self.rust_db@,
                    j as int,
                ) == pull_from(
                    old(self).user_references.deep_view(),
                    list,
                    old(self).rust_db@,
                    0,
                ),
            decreases refs_list@.len() - j,
        {
            let ghost pre = self.user_references.deep_view();
            proof {
                assert(list[j as int] == refs_list@[j as int].deep_view());
            }
            let in_primary = find_user_by_name_bytes(
                &self.rust_db,
                refs_list[j].username.as_slice(),
            );
            let already = crate::external::contains_ref_exec(
                &self.user_references,
                refs_list[j].username.as_slice(),
            );
            let absent = match in_primary {
                Some(_) => false,
                None => true,
            };
            if absent && !already {
                let uname = vstd::slice::slice_to_vec(refs_list[j].username.as_slice());
                let uid = refs_list[j].user_id;
                self.user_references.push(UserReference { username: uname, user_id: uid });
                proof {
                    assert(self.user_references.deep_view() =~~= pre.push(list[j as int]));
                }
            }
            proof {
                assert(pull_from(
                    self.user_references.deep_view(),
                    list,
                    self.rust_db@,
                    j + 1,
                ) == pull_from(pre, list, self.rust_db@, j as int));
            }
            j = j + 1;
        }
    }

    /// Whether a username is discoverable from the primary side: held by
    /// a live primary slot, or reachable through a primary-held
    /// reference to the external store.
    pub fn user_discoverable(&self, username: &str) -> (r: bool)
        requires
            self.wf(),
        ensures
            r == (first_match(self.rust_db@.users, self.rust_db@.count, username.spec_bytes())
                is Some || contains_ref(self.user_references.deep_view(), username.spec_bytes())),
    {
        match find_user_by_name_bytes(&self.rust_db, username.as_bytes()) {
            Some(_) => true,
            None => crate::external::contains_ref_exec(&self.user_references, username.as_bytes()),
        }
    }

    /// Resolve a token to the record id it is bound to, trying the
    /// primary token table first and the external store's table second.
    pub fn validate_session(&self, token: &[u8]) -> (r: Result<i32, DbError>)
        requires
            self.wf(),
        ensures
            match lookup(self.sessions@.entries, token@) {
                Some(id) => r matches Ok(x) && x as int == id,
                None => match lookup(self.external.sessions@.entries, token@) {
                    Some(id) => r matches Ok(x) && x as int == id,
                    None => r == Err::<i32, DbError>(DbError::InvalidSession),
                },
            },
    {
        match self.sessions.validate_session(token) {
            Ok(id) => Ok(id),
            Err(_) => self.external.validate_session(token),
        }
    }

    /// Check the sessions of the active primary records against the
    /// primary token table, best-effort: failures are counted out, never
    /// fatal. Returns how many active records hold a valid session.
    pub fn validate_active_user_session(&self) -> (n: usize)
        requires
            self.wf(),
        ensures
            n as int == valid_sessions_upto(
                self.rust_db@.users,
                self.sessions@.entries,
                self.rust_db@.count,
            ),
    {
        let mut n: usize = 0;
        let mut i: usize = 0;
        while i < self.rust_db.count
            invariant
                self.wf(),
                i <= self.rust_db@.count,
                n <= i,
                n as int == valid_sessions_upto(
                    self.rust_db@.users,
                    self.sessions@.entries,
                    i as int,
                ),
            decreases self.rust_db@.count - i,
        {
            proof {
                assert(self.rust_db@.users[i as int] == self.rust_db.users@[i as int].deep_view());
            }
            match &self.rust_db.users[i] {
                Some(u) => {
                    if u.is_active {
                        let tok = decode_field(u.session_token.as_slice());
                        if tok.len() > 0 {
                            match self.sessions.validate_session(tok.as_slice()) {
                                Ok(_) => {
                                    n = n + 1;
                                },
                                Err(_) => {},
                            }
                        }
                    }
                },
                None => {},
            }
            i = i + 1;
        }
        n
    }

    /// Advance one period: drain the queued signups under the routing
    /// policy, advance the period counter, validate the active sessions
    /// (before the sweep, so a just-logged-in user is not penalized),
    /// then run the maintenance sweep over the primary store and the
    /// external store, in that order.
    pub fn increase_day(&mut self)
        requires
            old(self).wf(),
            old(self).day_counter < u32::MAX,
            inact_bounded(old(self).rust_db@.users, old(self).rust_db@.count),
            inact_bounded(old(self).external.dir@.users, old(self).external.dir@.count),
        ensures
            final(self).wf(),
            final(self).day_counter == old(self).day_counter + 1,
            final(self).pending_requests.deep_view() == Seq::<ReqView>::empty(),
            ({
                let d = drain(
                    old(self).rust_db@,
                    old(self).external.dir@,
                    old(self).pending_requests.deep_view(),
                );
                &&& final(self).rust_db@.users == crate::store::sweep(d.0.users, d.0.count)
                &&& final(self).rust_db@.count == d.0.count
                &&& final(self).rust_db@.capacity == d.0.capacity
                &&& final(self).external.dir@.users == crate::store::sweep(d.1.users, d.1.count)
                &&& final(self).external.dir@.count == d.1.count
                &&& final(self).external.dir@.capacity == d.1.capacity
            }),
            final(self).sessions == old(self).sessions,
            final(self).external.sessions == old(self).external.sessions,
            final(self).external.adopted == old(self).external.adopted,
            final(self).user_references == old(self).user_references,
    {
        proof {
            lemma_drain_bounded(
                old(self).rust_db@,
                old(self).external.dir@,
                old(self).pending_requests.deep_view(),
            );
        }
        self.sync_database();
        self.day_counter = self.day_counter + 1;
        let _ = self.validate_active_user_session();
        update_database_daily(&mut self.rust_db);
        self.external.daily_maintenance();
    }
}

/// Whether a slot holds an active record whose stored token resolves in
/// the given token table.
pub open spec fn slot_session_valid(s: Option<crate::record::UserView>, entries: Seq<SessionView>) -> bool {
    s matches Some(u) && u.is_active && u.session_token.len() > 0 && lookup(
        entries,
        u.session_token,
    ) is Some
}

/// How many of the first `i` slots hold an active record with a valid
/// session.
pub open spec fn valid_sessions_upto(
    users: Seq<Option<crate::record::UserView>>,
    entries: Seq<SessionView>,
    i: int,
) -> int
    decreases i,
{
    if i <= 0 {
        0
    } else {
        valid_sessions_upto(users, entries, i - 1) + if slot_session_valid(
            users[i - 1],
            entries,
        ) {
            1int
        } else {
            0int
        }
    }
}

} // verus!
