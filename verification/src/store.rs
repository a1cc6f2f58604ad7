//! The primary store: a fixed-capacity, array-backed user directory with
//! create, add, find, login and eviction-sweep operations.

use vstd::prelude::*;
use crate::errors::DbError;
use crate::record::{UserStruct, UserView};
use crate::text::decoded;

verus! {

use vstd::string::StringSliceAdditionalSpecFns;

/// The fixed capacity of a user directory.
pub const MAX_USERS: usize = 100;

/// How many consecutive maintenance cycles an inactive record survives
/// before the sweep evicts it.
pub const INACTIVITY_THRESHOLD: i32 = 5;

/// The mathematical content of a directory: its slots, live count, and
/// capacity.
#[verifier::ext_equal]
pub struct DirView {
    pub users: Seq<Option<UserView>>,
    pub count: int,
    pub capacity: int,
}

/// A fixed-capacity directory of optional user records. Records occupy
/// slots `[0, count)`; eviction may leave holes there.
#[derive(Debug)]
pub struct UserDatabase {
    pub users: Vec<Option<UserStruct>>,
    pub count: usize,
    pub capacity: usize,
}

impl View for UserDatabase {
    type V = DirView;

    open spec fn view(&self) -> DirView {
        DirView { users: self.users.deep_view(), count: self.count as int, capacity: self.capacity as int }
    }
}

impl UserDatabase {
    /// The directory invariant: the slot array has exactly the fixed
    /// capacity, the live region is `[0, count)`, every slot beyond it is
    /// empty, and each occupied slot holds a well-formed record whose id
    /// is its slot position plus one.
    pub open spec fn wf(self) -> bool {
        &&& self.users@.len() == self.capacity
        &&& self.capacity == MAX_USERS
        &&& self.count <= self.capacity
        &&& forall|i: int|
            self.count <= i < self.capacity ==> self.users@[i] is None
        &&& forall|i: int|
            0 <= i < self.count ==> ((#[trigger] self.users@[i]) matches Some(u) ==> u.wf()
                && u.user_id == i + 1)
    }
}

/// Whether a slot holds a record with the given username.
pub open spec fn slot_matches(s: Option<UserView>, name: Seq<u8>) -> bool {
    s matches Some(u) && u.username == name
}

/// The first slot in `[i, count)` whose record has the given username.
pub open spec fn first_match_from(
    users: Seq<Option<UserView>>,
    count: int,
    name: Seq<u8>,
    i: int,
) -> Option<int>
    decreases count - i,
{
    if i < 0 || i >= count {
        None
    } else if slot_matches(users[i], name) {
        Some(i)
    } else {
        first_match_from(users, count, name, i + 1)
    }
}

/// The first slot in the live region whose record has the given username.
pub open spec fn first_match(users: Seq<Option<UserView>>, count: int, name: Seq<u8>) -> Option<
    int,
> {
    first_match_from(users, count, name, 0)
}

/// Scanning over non-matching slots does not change the first match.
pub proof fn lemma_first_match_skip(
    users: Seq<Option<UserView>>,
    count: int,
    name: Seq<u8>,
    i: int,
    k: int,
)
    requires
        0 <= i <= k <= count,
        forall|j: int| i <= j < k ==> !slot_matches(#[trigger] users[j], name),
    ensures
        first_match_from(users, count, name, i) == first_match_from(users, count, name, k),
    decreases k - i,
{
    if i < k {
        lemma_first_match_skip(users, count, name, i + 1, k);
    }
}

/// When no slot before `i` matches and slot `i` does, `i` is the first
/// match.
pub proof fn lemma_first_match_at(users: Seq<Option<UserView>>, count: int, name: Seq<u8>, i: int)
    requires
        0 <= i < count,
        forall|j: int| 0 <= j < i ==> !slot_matches(#[trigger] users[j], name),
        slot_matches(users[i], name),
    ensures
        first_match(users, count, name) == Some(i),
{
    lemma_first_match_skip(users, count, name, 0, i);
}

/// When no live slot matches, there is no first match.
pub proof fn lemma_first_match_none(users: Seq<Option<UserView>>, count: int, name: Seq<u8>)
    requires
        count >= 0,
        forall|j: int| 0 <= j < count ==> !slot_matches(#[trigger] users[j], name),
    ensures
        first_match(users, count, name) is None,
{
    lemma_first_match_skip(users, count, name, 0, count);
}

/// A first match lies in the live region, matches, and nothing before it
/// does.
pub proof fn lemma_first_match_characterization(
    users: Seq<Option<UserView>>,
    count: int,
    name: Seq<u8>,
    i: int,
)
    requires
        first_match_from(users, count, name, i) is Some,
        0 <= i,
    ensures
        ({
            let m = first_match_from(users, count, name, i)->0;
            &&& i <= m < count
            &&& slot_matches(users[m], name)
            &&& forall|j: int| i <= j < m ==> !slot_matches(#[trigger] users[j], name)
        }),
    decreases count - i,
{
    if i < count && !slot_matches(users[i], name) {
        lemma_first_match_characterization(users, count, name, i + 1);
    }
}

/// What adding a record does: nothing when the directory is full;
/// otherwise the record takes the next slot with id `count + 1` and the
/// count grows by one. Existing records are never reordered.
pub open spec fn add_spec(d: DirView, u: UserView) -> DirView {
    if d.count >= d.capacity {
        d
    } else {
        DirView {
            users: d.users.update(d.count, Some(UserView { user_id: d.count + 1, ..u })),
            count: d.count + 1,
            capacity: d.capacity,
        }
    }
}

/// Adding never grows the count beyond the capacity, and a full
/// directory is left exactly as it was.
pub proof fn lemma_add_bounded(d: DirView, u: UserView)
    requires
        d.count <= d.capacity,
    ensures
        add_spec(d, u).count <= d.capacity,
        d.count == d.capacity ==> add_spec(d, u) == d,
{
}

/// Inserting into a full directory changes nothing, so a username absent
/// before the attempt is still absent after it.
pub proof fn lemma_full_add_find_unchanged(d: DirView, u: UserView, name: Seq<u8>)
    requires
        d.count >= d.capacity,
    ensures
        first_match(add_spec(d, u).users, add_spec(d, u).count, name) == first_match(
            d.users,
            d.count,
            name,
        ),
{
}

/// Allocate an empty directory of the fixed capacity.
pub fn init_database() -> (db: UserDatabase)
    ensures
        db.wf(),
        db@.count == 0,
        db@.capacity == MAX_USERS,
        forall|i: int| 0 <= i < db@.users.len() ==> db@.users[i] is None,
{
    let mut users: Vec<Option<UserStruct>> = Vec::new();
    while users.len() < MAX_USERS
        invariant
            users@.len() <= MAX_USERS,
            forall|i: int| 0 <= i < users@.len() ==> users@[i] is None,
        decreases MAX_USERS - users.len(),
    {
        users.push(None);
    }
    let db = UserDatabase { users, count: 0, capacity: MAX_USERS };
    proof {
        assert(forall|i: int|
            0 <= i < db@.users.len() ==> db.users@[i] is None && #[trigger] db@.users[i] is None);
    }
    db
}

/// Insert a record, assigning its final id. A full directory makes this a
/// silent no-op.
pub fn add_user(db: &mut UserDatabase, user: UserStruct)
    requires
        old(db).wf(),
        user.wf(),
    ensures
        final(db).wf(),
        final(db)@ == add_spec(old(db)@, user@),
{
    if db.count >= db.capacity {
        return;
    }
    let mut user = user;
    user.user_id = (db.count + 1) as i32;
    let idx = db.count;
    db.users[idx] = Some(user);
    db.count = db.count + 1;
    proof {
        assert(db@.users =~= add_spec(old(db)@, user@).users);
        assert(db@ =~= add_spec(old(db)@, UserView { user_id: old(db)@.count + 1, ..user@ }));
    }
}

/// Insert a record as `add_user` does, but surface capacity exhaustion to
/// callers that care: the assigned id on success, an error when full.
pub fn try_add_user(db: &mut UserDatabase, user: UserStruct) -> (r: Result<i32, DbError>)
    requires
        old(db).wf(),
        user.wf(),
    ensures
        final(db).wf(),
        final(db)@ == add_spec(old(db)@, user@),
        r == if old(db)@.count >= old(db)@.capacity {
            Err::<i32, DbError>(DbError::CapacityExceeded)
        } else {
            Ok::<i32, DbError>((old(db)@.count + 1) as i32)
        },
{
    if db.count >= db.capacity {
        return Err(DbError::CapacityExceeded);
    }
    let id = (db.count + 1) as i32;
    add_user(db, user);
    Ok(id)
}

/// Find the first live slot holding the given username.
pub fn find_user_by_name_bytes(db: &UserDatabase, name: &[u8]) -> (r: Option<usize>)
    requires
        db.wf(),
    ensures
        r matches Some(i) ==> i < db@.count && first_match(db@.users, db@.count, name@) == Some(
            i as int,
        ),
        r is None ==> first_match(db@.users, db@.count, name@) is None,
{
    let mut i: usize = 0;
    while i < db.count
        invariant
            db.wf(),
            i <= db.count,
            forall|j: int| 0 <= j < i ==> !slot_matches(#[trigger] db@.users[j], name@),
        decreases db.count - i,
    {
        match &db.users[i] {
            Some(u) => {
                if crate::text::bytes_eq(crate::text::decode_field(u.username.as_slice()).as_slice(), name) {
                    proof {
                        assert(db@.users[i as int] matches Some(v) && v.username == decoded(
                            u.username@,
                        ));
                        lemma_first_match_at(db@.users, db@.count, name@, i as int);
                    }
                    return Some(i);
                }
                proof {
                    assert(!slot_matches(db@.users[i as int], name@));
                }
            },
            None => {
                proof {
                    assert(!slot_matches(db@.users[i as int], name@));
                }
            },
        }
        i = i + 1;
    }
    proof {
        lemma_first_match_none(db@.users, db@.count, name@);
    }
    None
}

/// Look a username up: a shared reference to the first matching record,
/// scanning slots `[0, count)` in order. Evicted holes are not searched.
pub fn find_user_by_username<'a>(db: &'a UserDatabase, username: &str) -> (r: Option<
    &'a UserStruct,
>)
    requires
        db.wf(),
    ensures
        r matches Some(u) ==> {
            &&& first_match(db@.users, db@.count, username.spec_bytes()) matches Some(i)
            &&& db@.users[i] == Some(u@)
            &&& u.wf()
        },
        r is None ==> first_match(db@.users, db@.count, username.spec_bytes()) is None,
{
    match find_user_by_name_bytes(db, username.as_bytes()) {
        Some(i) => {
            proof {
                lemma_first_match_characterization(
                    db@.users,
                    db@.count,
                    username.spec_bytes(),
                    0,
                );
                assert(db@.users[i as int] == db.users@[i as int].deep_view());
            }
            match &db.users[i] {
                Some(u) => Some(u),
                None => None,
            }
        },
        None => None,
    }
}

/// The same lookup, yielding the slot index as a handle for in-place
/// updates.
pub fn find_user_by_username_mut(db: &UserDatabase, username: &str) -> (r: Option<usize>)
    requires
        db.wf(),
    ensures
        r matches Some(i) ==> first_match(db@.users, db@.count, username.spec_bytes()) == Some(
            i as int,
        ),
        r is None ==> first_match(db@.users, db@.count, username.spec_bytes()) is None,
{
    find_user_by_name_bytes(db, username.as_bytes())
}

/// What a login does to a directory: the first record with the given
/// username has its inactivity reset to zero; a miss changes nothing.
pub open spec fn login_spec(d: DirView, name: Seq<u8>) -> DirView {
    match first_match(d.users, d.count, name) {
        Some(i) => DirView {
            users: d.users.update(
                i,
                Some(UserView { inactivity_count: 0, ..d.users[i]->0 }),
            ),
            ..d
        },
        None => d,
    }
}

/// Reset the inactivity of the record with the given username. A missing
/// user is a no-op, not an error.
pub fn user_login(db: &mut UserDatabase, username: &str)
    requires
        old(db).wf(),
    ensures
        final(db).wf(),
        final(db)@ == login_spec(old(db)@, username.spec_bytes()),
{
    let found = find_user_by_name_bytes(db, username.as_bytes());
    match found {
        Some(i) => {
            proof {
                lemma_first_match_characterization(
                    db@.users,
                    db@.count,
                    username.spec_bytes(),
                    0,
                );
            }
            match &mut db.users[i] {
                Some(u) => {
                    u.inactivity_count = 0;
                },
                None => {},
            }
            proof {
                assert(db@.users =~= login_spec(old(db)@, username.spec_bytes()).users);
                assert(db@ =~= login_spec(old(db)@, username.spec_bytes()));
            }
        },
        None => {
            proof {
                assert(db@ =~= login_spec(old(db)@, username.spec_bytes()));
            }
        },
    }
}

/// What one maintenance cycle does to one occupied slot: an inactive
/// record past the threshold is evicted; every other record has its
/// inactivity incremented. The two outcomes are mutually exclusive.
pub open spec fn sweep_slot(s: Option<UserView>) -> Option<UserView> {
    match s {
        None => None,
        Some(u) => if !u.is_active && u.inactivity_count > INACTIVITY_THRESHOLD as int {
            None
        } else {
            Some(UserView { inactivity_count: u.inactivity_count + 1, ..u })
        },
    }
}

/// What one maintenance cycle does to the slot array: `sweep_slot` on the
/// live region, slots beyond it untouched.
pub open spec fn sweep(users: Seq<Option<UserView>>, count: int) -> Seq<Option<UserView>> {
    Seq::new(users.len(), |i: int| if 0 <= i < count {
        sweep_slot(users[i])
    } else {
        users[i]
    })
}

/// The slot array after `n` consecutive maintenance cycles.
pub open spec fn sweep_n(users: Seq<Option<UserView>>, count: int, n: nat) -> Seq<
    Option<UserView>,
>
    decreases n,
{
    if n == 0 {
        users
    } else {
        sweep(sweep_n(users, count, (n - 1) as nat), count)
    }
}

/// Run one maintenance cycle: for each occupied live slot, evict the
/// record if it is inactive past the threshold, else increment its
/// inactivity. Eviction and increment are mutually exclusive per record.
pub fn update_database_daily(db: &mut UserDatabase)
    requires
        old(db).wf(),
        forall|i: int|
            0 <= i < old(db)@.count ==> ((#[trigger] old(db)@.users[i]) matches Some(u)
                ==> u.inactivity_count < i32::MAX),
    ensures
        final(db).wf(),
        final(db)@.users == sweep(old(db)@.users, old(db)@.count),
        final(db)@.count == old(db)@.count,
        final(db)@.capacity == old(db)@.capacity,
{
    let count = db.count;
    let mut i: usize = 0;
    while i < count
        invariant
            db.wf(),
            db.count == count,
            i <= count,
            db@.capacity == old(db)@.capacity,
            db@.users.len() == old(db)@.users.len(),
            forall|j: int| i <= j < db@.users.len() ==> db@.users[j] == old(db)@.users[j],
            forall|j: int| 0 <= j < i ==> db@.users[j] == sweep_slot(#[trigger] old(db)@.users[j]),
            forall|j: int|
                i <= j < count ==> ((#[trigger] db@.users[j]) matches Some(u)
                    ==> u.inactivity_count < i32::MAX),
        decreases count - i,
    {
        let ghost pre = db@.users;
        proof {
            assert(pre[i as int] == db.users@[i as int].deep_view());
        }
        let mut evict = false;
        match &mut db.users[i] {
            Some(u) => {
                if !u.is_active && u.inactivity_count > INACTIVITY_THRESHOLD {
                    evict = true;
                } else {
                    u.inactivity_count = u.inactivity_count + 1;
                }
            },
            None => {},
        }
        if evict {
            db.users[i] = None;
        }
        proof {
            assert(db@.users =~= pre.update(i as int, sweep_slot(pre[i as int])));
        }
        i = i + 1;
    }
    proof {
        assert(db@.users =~= sweep(old(db)@.users, old(db)@.count));
    }
}

/// A record that stays inactive is evicted by the first sweep whose cycle
/// pushes it past the threshold, exactly once: before that sweep it
/// survives with its inactivity grown by one per cycle, and from that
/// sweep on its slot stays empty.
pub proof fn lemma_inactive_record_evicted(
    users: Seq<Option<UserView>>,
    count: int,
    i: int,
    n: nat,
)
    requires
        0 <= i < count <= users.len(),
        users[i] matches Some(u) && !u.is_active && u.inactivity_count >= 0,
    ensures
        ({
            let u = users[i]->0;
            &&& u.inactivity_count + n <= INACTIVITY_THRESHOLD + 1 ==> sweep_n(users, count, n)[i]
                == Some(UserView { inactivity_count: u.inactivity_count + n, ..u })
            &&& n >= 1 && u.inactivity_count + n > INACTIVITY_THRESHOLD + 1 ==> sweep_n(
                users,
                count,
                n,
            )[i] is None
        }),
    decreases n,
{
    let u = users[i]->0;
    let c = u.inactivity_count;
    let t = INACTIVITY_THRESHOLD as int;
    if n == 0 {
        assert(users[i] == Some(u));
        assert(UserView { inactivity_count: c + 0, ..u } =~= u);
    } else {
        lemma_inactive_record_evicted(users, count, i, (n - 1) as nat);
        lemma_sweep_n_preserves_names(users, count, (n - 1) as nat);
        let prev = sweep_n(users, count, (n - 1) as nat);
        assert(sweep_n(users, count, n)[i] == sweep_slot(prev[i]));
        if c + n <= t + 1 {
            let v = UserView { inactivity_count: c + n - 1, ..u };
            assert(prev[i] == Some(v));
            assert(sweep_slot(prev[i]) == Some(
                UserView { inactivity_count: v.inactivity_count + 1, ..v },
            ));
            assert(UserView { inactivity_count: v.inactivity_count + 1, ..v } =~= UserView {
                inactivity_count: c + n,
                ..u
            });
        } else if c + n - 1 <= t + 1 {
            let v = UserView { inactivity_count: c + n - 1, ..u };
            assert(prev[i] == Some(v));
            assert(v.inactivity_count > t);
            assert(sweep_slot(prev[i]) is None);
        } else if n == 1 {
            assert(prev[i] == Some(u));
            assert(sweep_slot(prev[i]) is None);
        } else {
            assert(prev[i] is None);
        }
    }
}

/// Sweeps never change which username a surviving slot holds.
pub proof fn lemma_sweep_n_preserves_names(
    users: Seq<Option<UserView>>,
    count: int,
    n: nat,
)
    requires
        count <= users.len(),
    ensures
        sweep_n(users, count, n).len() == users.len(),
        forall|j: int|
            0 <= j < users.len() ==> ((#[trigger] sweep_n(users, count, n)[j]) matches Some(v)
                ==> users[j] matches Some(w) && v.username == w.username),
    decreases n,
{
    if n > 0 {
        lemma_sweep_n_preserves_names(users, count, (n - 1) as nat);
    }
}

/// After enough sweeps with a record inactive throughout and no other
/// live slot holding its username, a lookup of that username fails.
pub proof fn lemma_eviction_hides_user(
    users: Seq<Option<UserView>>,
    count: int,
    i: int,
    n: nat,
)
    requires
        n >= 1,
        0 <= i < count <= users.len(),
        users[i] matches Some(u) && !u.is_active && u.inactivity_count >= 0,
        users[i]->0.inactivity_count + n > INACTIVITY_THRESHOLD + 1,
        forall|j: int|
            0 <= j < count && j != i ==> !slot_matches(
                #[trigger] users[j],
                users[i]->0.username,
            ),
    ensures
        first_match(sweep_n(users, count, n), count, users[i]->0.username) is None,
{
    let name = users[i]->0.username;
    let swept = sweep_n(users, count, n);
    lemma_inactive_record_evicted(users, count, i, n);
    lemma_sweep_n_preserves_names(users, count, n);
    assert forall|j: int| 0 <= j < count implies !slot_matches(#[trigger] swept[j], name) by {
        if j != i {
            if swept[j] is Some {
                assert(users[j] matches Some(w) && swept[j]->0.username == w.username);
            }
        }
    }
    lemma_first_match_none(swept, count, name);
}

} // verus!
