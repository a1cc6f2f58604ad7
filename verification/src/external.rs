//! The external store adapter: the capability set the core depends on for
//! the second, independently owned backend. The backend here is an
//! in-process directory of its own; records it owns are tagged
//! `OwnedBy::External`, and records adopted from the primary store are
//! held as non-owning references that only serve lookups.

use vstd::prelude::*;
use crate::errors::DbError;
use crate::record::{OwnedBy, UserStruct, UserView, made_user, new_record};
use crate::session::{SessionManager, SessionView, lookup, token_bytes, token_ok};
use crate::store::{
    DirView, UserDatabase, add_spec, find_user_by_name_bytes, first_match, init_database,
    lemma_first_match_characterization, update_database_daily,
};
use crate::text::{MAX_SESSION_TOKEN_LEN, bytes_eq, decode_field, encode_field};

verus! {

use vstd::string::StringSliceAdditionalSpecFns;

/// A non-owning handle to a record: the username it answers to and the id
/// it carries in its owning store. Observing it is always safe; freeing
/// through it is never permitted.
pub struct UserReference {
    pub username: Vec<u8>,
    pub user_id: i32,
}

/// The mathematical content of a record reference.
pub struct RefView {
    pub username: Seq<u8>,
    pub user_id: int,
}

impl DeepView for UserReference {
    type V = RefView;

    open spec fn deep_view(&self) -> RefView {
        RefView { username: self.username@, user_id: self.user_id as int }
    }
}

/// Whether a list of adopted names holds the given name.
pub open spec fn contains_name(names: Seq<Seq<u8>>, name: Seq<u8>) -> bool {
    exists|i: int| 0 <= i < names.len() && names[i] == name
}

/// Whether a list of references holds one for the given name.
pub open spec fn contains_ref(refs: Seq<RefView>, name: Seq<u8>) -> bool {
    exists|i: int| 0 <= i < refs.len() && (#[trigger] refs[i]).username == name
}

/// Adopting a name a second time is a no-op: the list gains the name only
/// when it is missing.
pub open spec fn adopt_one(names: Seq<Seq<u8>>, name: Seq<u8>) -> Seq<Seq<u8>> {
    if contains_name(names, name) {
        names
    } else {
        names.push(name)
    }
}

/// The references to the records a directory owns, in slot order.
pub open spec fn refs_upto(users: Seq<Option<UserView>>, i: int) -> Seq<RefView>
    decreases i,
{
    if i <= 0 {
        seq![]
    } else {
        refs_upto(users, i - 1) + match users[i - 1] {
            Some(u) => seq![RefView { username: u.username, user_id: u.user_id }],
            None => seq![],
        }
    }
}

/// What storing a fresh token does to a directory: that slot's record
/// keeps its state but for the stored token.
pub open spec fn store_token_spec(d: DirView, i: int, token: Seq<u8>) -> DirView {
    DirView {
        users: d.users.update(i, Some(UserView { session_token: token, ..d.users[i]->0 })),
        ..d
    }
}

/// What activating a record with a fresh token does to a directory: that
/// slot's record becomes active with no inactivity and the token stored.
pub open spec fn activate_spec(d: DirView, i: int, token: Seq<u8>) -> DirView {
    DirView {
        users: d.users.update(
            i,
            Some(
                UserView {
                    inactivity_count: 0,
                    is_active: true,
                    session_token: token,
                    ..d.users[i]->0
                },
            ),
        ),
        ..d
    }
}

/// The external store: its own fixed-capacity directory, the names
/// adopted from the primary store, and its token table.
pub struct ExternalStore {
    pub dir: UserDatabase,
    pub adopted: Vec<Vec<u8>>,
    pub sessions: SessionManager,
}

impl ExternalStore {
    /// The store invariant: its directory and token table are
    /// well-formed.
    pub open spec fn wf(self) -> bool {
        &&& self.dir.wf()
        &&& self.sessions.wf()
    }

    /// An empty external store.
    pub fn new() -> (s: ExternalStore)
        ensures
            s.wf(),
            s.dir@.count == 0,
            s.dir@.capacity == crate::store::MAX_USERS,
            s.adopted.deep_view() == Seq::<Seq<u8>>::empty(),
            s.sessions@.entries == Seq::<SessionView>::empty(),
            s.sessions@.next_serial == 0,
    {
        let s = ExternalStore {
            dir: init_database(),
            adopted: Vec::new(),
            sessions: SessionManager::new(),
        };
        proof {
            assert(s.adopted.deep_view() =~= Seq::<Seq<u8>>::empty());
        }
        s
    }

    /// Create a record owned by this store and insert it, returning the
    /// assigned id; a full store refuses with a creation failure.
    pub fn create_and_add(
        &mut self,
        username: &str,
        email: &str,
        user_id: i32,
        password: &str,
    ) -> (r: Result<i32, DbError>)
        requires
            old(self).wf(),
            user_id >= 0,
        ensures
            final(self).wf(),
            final(self).adopted == old(self).adopted,
            final(self).sessions == old(self).sessions,
            final(self).dir@ == add_spec(
                old(self).dir@,
                made_user(
                    username.spec_bytes(),
                    email.spec_bytes(),
                    password.spec_bytes(),
                    user_id as int,
                    OwnedBy::External,
                ),
            ),
            r == if old(self).dir@.count >= old(self).dir@.capacity {
                Err::<i32, DbError>(DbError::CreationFailed)
            } else {
                Ok::<i32, DbError>((old(self).dir@.count + 1) as i32)
            },
    {
        if self.dir.count >= self.dir.capacity {
            return Err(DbError::CreationFailed);
        }
        let id = (self.dir.count + 1) as i32;
        let user = new_record(username, email, user_id, password, OwnedBy::External);
        crate::store::add_user(&mut self.dir, user);
        Ok(id)
    }

    /// Look a username up among the records this store owns.
    pub fn find_by_username<'a>(&'a self, username: &str) -> (r: Option<&'a UserStruct>)
        requires
            self.wf(),
        ensures
            r matches Some(u) ==> {
                &&& first_match(self.dir@.users, self.dir@.count, username.spec_bytes())
                    matches Some(i)
                &&& self.dir@.users[i] == Some(u@)
                &&& u.wf()
            },
            r is None ==> first_match(self.dir@.users, self.dir@.count, username.spec_bytes())
                is None,
    {
        crate::store::find_user_by_username(&self.dir, username)
    }

    /// Borrowed handles to every record this store owns, in slot order.
    /// Ownership never transfers with them.
    pub fn list_references(&self) -> (r: Vec<UserReference>)
        requires
            self.wf(),
        ensures
            r.deep_view() == refs_upto(self.dir@.users, self.dir@.count),
    {
        let mut out: Vec<UserReference> = Vec::new();
        let mut i: usize = 0;
        while i < self.dir.count
            invariant
                self.wf(),
                i <= self.dir@.count,
                out.deep_view() == refs_upto(self.dir@.users, i as int),
            decreases self.dir@.count - i,
        {
            proof {
                assert(self.dir@.users[i as int] == self.dir.users@[i as int].deep_view());
            }
            match &self.dir.users[i] {
                Some(u) => {
                    let name = decode_field(u.username.as_slice());
                    out.push(UserReference { username: name, user_id: u.user_id });
                },
                None => {},
            }
            proof {
                assert(out.deep_view() =~= refs_upto(self.dir@.users, i + 1));
            }
            i = i + 1;
        }
        out
    }

    /// Register a primary-owned record as a reference this store may use
    /// for lookups, without claiming ownership. Adopting a record already
    /// adopted is a no-op.
    pub fn adopt_reference(&mut self, user: &UserStruct)
        requires
            old(self).wf(),
        ensures
            final(self).wf(),
            final(self).dir == old(self).dir,
            final(self).sessions == old(self).sessions,
            final(self).adopted.deep_view() == adopt_one(
                old(self).adopted.deep_view(),
                user@.username,
            ),
    {
        let name = decode_field(user.username.as_slice());
        if !contains_name_exec(&self.adopted, name.as_slice()) {
            self.adopted.push(name);
            proof {
                assert(self.adopted.deep_view() =~~= old(self).adopted.deep_view().push(
                    user@.username,
                ));
            }
        }
    }

    /// Whether this store holds an adopted reference for the username.
    pub fn has_reference(&self, username: &str) -> (r: bool)
        ensures
            r == contains_name(self.adopted.deep_view(), username.spec_bytes()),
    {
        let name = username.as_bytes();
        contains_name_exec(&self.adopted, name)
    }

    /// The password text of the record a reference points at, or a
    /// not-found error when no owned record answers to its username.
    pub fn get_password(&self, handle: &UserReference) -> (r: Result<Vec<u8>, DbError>)
        requires
            self.wf(),
        ensures
            match first_match(self.dir@.users, self.dir@.count, handle.username@) {
                Some(i) => r matches Ok(p) && p@ == self.dir@.users[i]->0.password,
                None => r == Err::<Vec<u8>, DbError>(DbError::UserNotFound),
            },
    {
        match find_user_by_name_bytes(&self.dir, self.username_slice(handle)) {
            Some(i) => {
                proof {
                    lemma_first_match_characterization(
                        self.dir@.users,
                        self.dir@.count,
                        handle.username@,
                        0,
                    );
                    assert(self.dir@.users[i as int] == self.dir.users@[i as int].deep_view());
                }
                match &self.dir.users[i] {
                    Some(u) => Ok(decode_field(u.password.as_slice())),
                    None => Err(DbError::UserNotFound),
                }
            },
            None => Err(DbError::UserNotFound),
        }
    }

    /// The username bytes a reference answers to.
    fn username_slice<'a>(&self, handle: &'a UserReference) -> (r: &'a [u8])
        ensures
            r@ == handle.username@,
    {
        handle.username.as_slice()
    }

    /// Issue a session token bound to the record a reference points at,
    /// and store it in that record's token field. Fails with a not-found
    /// error when no owned record answers to the reference's username.
    pub fn create_session(&mut self, handle: &UserReference) -> (r: Result<Vec<u8>, DbError>)
        requires
            old(self).wf(),
            old(self).sessions@.next_serial < u32::MAX,
        ensures
            final(self).wf(),
            final(self).adopted == old(self).adopted,
            match first_match(old(self).dir@.users, old(self).dir@.count, handle.username@) {
                Some(i) => {
                    &&& r matches Ok(t)
                    &&& t@ == token_bytes(old(self).sessions@.next_serial as nat)
                    &&& token_ok(t@)
                    &&& final(self).dir@ == store_token_spec(old(self).dir@, i, t@)
                    &&& final(self).sessions@.entries == old(self).sessions@.entries.push(
                        SessionView { token: t@, user_id: old(self).dir@.users[i]->0.user_id },
                    )
                    &&& final(self).sessions@.next_serial == old(self).sessions@.next_serial + 1
                    &&& lookup(final(self).sessions@.entries, t@) == Some(
                        old(self).dir@.users[i]->0.user_id,
                    )
                },
                None => {
                    &&& r == Err::<Vec<u8>, DbError>(DbError::UserNotFound)
                    &&& final(self).dir == old(self).dir
                    &&& final(self).sessions == old(self).sessions
                },
            },
    {
        match find_user_by_name_bytes(&self.dir, self.username_slice(handle)) {
            Some(i) => {
                proof {
                    lemma_first_match_characterization(
                        self.dir@.users,
                        self.dir@.count,
                        handle.username@,
                        0,
                    );
                    assert(self.dir@.users[i as int] == self.dir.users@[i as int].deep_view());
                }
                let id = match &self.dir.users[i] {
                    Some(u) => u.user_id,
                    None => 0,
                };
                let token = self.sessions.create_session(id);
                let stored = encode_field(token.as_slice(), MAX_SESSION_TOKEN_LEN);
                proof {
                    crate::text::lemma_encoded_terminated(token@, MAX_SESSION_TOKEN_LEN as int);
                    crate::text::lemma_decode_encode_roundtrip(
                        token@,
                        MAX_SESSION_TOKEN_LEN as int,
                    );
                }
                match &mut self.dir.users[i] {
                    Some(u) => {
                        u.session_token = stored;
                    },
                    None => {},
                }
                proof {
                    assert(self.dir@.users =~= store_token_spec(old(self).dir@, i as int, token@)
                        .users);
                    assert(self.dir@ =~= store_token_spec(old(self).dir@, i as int, token@));
                }
                Ok(token)
            },
            None => Err(DbError::UserNotFound),
        }
    }

    /// Log the record with the given username in: mark it active with
    /// zero inactivity, issue a token through this store's table, store
    /// the token in the record, and return it. Fails with a not-found
    /// error when no owned record answers to the name.
    pub fn login_user(&mut self, name: &[u8]) -> (r: Result<Vec<u8>, DbError>)
        requires
            old(self).wf(),
            old(self).sessions@.next_serial < u32::MAX,
        ensures
            final(self).wf(),
            final(self).adopted == old(self).adopted,
            match first_match(old(self).dir@.users, old(self).dir@.count, name@) {
                Some(i) => {
                    &&& r matches Ok(t)
                    &&& t@ == token_bytes(old(self).sessions@.next_serial as nat)
                    &&& token_ok(t@)
                    &&& final(self).dir@ == activate_spec(old(self).dir@, i, t@)
                    &&& final(self).sessions@.entries == old(self).sessions@.entries.push(
                        SessionView {
                            token: t@,
                            user_id: old(self).dir@.users[i]->0.user_id,
                        },
                    )
                    &&& final(self).sessions@.next_serial == old(self).sessions@.next_serial + 1
                    &&& lookup(final(self).sessions@.entries, t@) == Some(
                        old(self).dir@.users[i]->0.user_id,
                    )
                },
                None => {
                    &&& r == Err::<Vec<u8>, DbError>(DbError::UserNotFound)
                    &&& final(self).dir == old(self).dir
                    &&& final(self).sessions == old(self).sessions
                },
            },
    {
        match find_user_by_name_bytes(&self.dir, name) {
            Some(i) => {
                proof {
                    lemma_first_match_characterization(self.dir@.users, self.dir@.count, name@, 0);
                    assert(self.dir@.users[i as int] == self.dir.users@[i as int].deep_view());
                }
                let id = match &self.dir.users[i] {
                    Some(u) => u.user_id,
                    None => 0,
                };
                let token = self.sessions.create_session(id);
                let stored = encode_field(token.as_slice(), MAX_SESSION_TOKEN_LEN);
                proof {
                    crate::text::lemma_encoded_terminated(token@, MAX_SESSION_TOKEN_LEN as int);
                    crate::text::lemma_decode_encode_roundtrip(
                        token@,
                        MAX_SESSION_TOKEN_LEN as int,
                    );
                }
                let ghost pre = self.dir@.users;
                match &mut self.dir.users[i] {
                    Some(u) => {
                        u.inactivity_count = 0;
                        u.is_active = true;
                        u.session_token = stored;
                    },
                    None => {},
                }
                proof {
                    assert(self.dir@.users =~= activate_spec(old(self).dir@, i as int, token@)
                        .users);
                    assert(self.dir@ =~= activate_spec(old(self).dir@, i as int, token@));
                }
                Ok(token)
            },
            None => Err(DbError::UserNotFound),
        }
    }

    /// Resolve a token this store issued back to a record id.
    pub fn validate_session(&self, token: &[u8]) -> (r: Result<i32, DbError>)
        requires
            self.wf(),
        ensures
            match lookup(self.sessions@.entries, token@) {
                Some(id) => r matches Ok(x) && x as int == id,
                None => r == Err::<i32, DbError>(DbError::InvalidSession),
            },
    {
        self.sessions.validate_session(token)
    }

    /// Run one maintenance cycle over the records this store owns,
    /// mirroring the primary store's sweep semantics.
    pub fn daily_maintenance(&mut self)
        requires
            old(self).wf(),
            forall|i: int|
                0 <= i < old(self).dir@.count ==> ((#[trigger] old(self).dir@.users[i])
                    matches Some(u) ==> u.inactivity_count < i32::MAX),
        ensures
            final(self).wf(),
            final(self).adopted == old(self).adopted,
            final(self).sessions == old(self).sessions,
            final(self).dir@.users == crate::store::sweep(
                old(self).dir@.users,
                old(self).dir@.count,
            ),
            final(self).dir@.count == old(self).dir@.count,
            final(self).dir@.capacity == old(self).dir@.capacity,
    {
        update_database_daily(&mut self.dir);
    }
}

/// Whether a list of references holds one answering to the given name.
pub fn contains_ref_exec(refs: &Vec<UserReference>, name: &[u8]) -> (r: bool)
    ensures
        r == contains_ref(refs.deep_view(), name@),
{
    let mut i: usize = 0;
    while i < refs.len()
        invariant
            i <= refs@.len(),
            forall|j: int| 0 <= j < i ==> (#[trigger] refs.deep_view()[j]).username != name@,
        decreases refs@.len() - i,
    {
        if bytes_eq(refs[i].username.as_slice(), name) {
            proof {
                assert(refs.deep_view()[i as int].username == name@);
            }
            return true;
        }
        proof {
            assert(refs.deep_view()[i as int] == refs@[i as int].deep_view());
        }
        i = i + 1;
    }
    false
}

/// Whether a list of byte strings holds the given bytes.
fn contains_name_exec(names: &Vec<Vec<u8>>, name: &[u8]) -> (r: bool)
    ensures
        r == contains_name(names.deep_view(), name@),
{
    let mut i: usize = 0;
    while i < names.len()
        invariant
            i <= names@.len(),
            forall|j: int| 0 <= j < i ==> names.deep_view()[j] != name@,
        decreases names@.len() - i,
    {
        if bytes_eq(names[i].as_slice(), name) {
            proof {
                assert(names.deep_view()[i as int] == name@);
            }
            return true;
        }
        proof {
            assert(names.deep_view()[i as int] == names@[i as int]@);
        }
        i = i + 1;
    }
    false
}

} // verus!
