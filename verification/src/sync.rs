//! The synchronization engine: the load-based routing policy that decides
//! which backend receives a new user, the drain of the signup queue, and
//! the reconciliation folds that `join` runs over both stores.

use vstd::prelude::*;
use crate::external::{RefView, adopt_one, contains_name, contains_ref};
use crate::record::{OwnedBy, UserView, made_user};
use crate::store::{DirView, add_spec, first_match};

verus! {

/// Pending signups beyond this many route to the external store.
pub const PRESSURE_LIMIT: usize = 5;

/// Which backend receives a new user.
#[derive(Clone, Copy, PartialEq, Eq, Structural, Debug)]
pub enum Route {
    Primary,
    External,
}

/// The admission-control policy: route to the external store when the
/// pending pressure exceeds the limit or the primary store is full;
/// otherwise, and on ties, route to the primary store.
pub open spec fn route_spec(count: int, capacity: int, pending_pressure: int) -> Route {
    if pending_pressure > PRESSURE_LIMIT as int || count >= capacity {
        Route::External
    } else {
        Route::Primary
    }
}

/// Decide where a new user goes, from the primary load and the pending
/// pressure.
pub fn route_new_user(count: usize, capacity: usize, pending_pressure: usize) -> (r: Route)
    ensures
        r == route_spec(count as int, capacity as int, pending_pressure as int),
{
    if pending_pressure > PRESSURE_LIMIT || count >= capacity {
        Route::External
    } else {
        Route::Primary
    }
}

/// One queued signup request, as the bytes of its fields.
pub struct ReqView {
    pub username: Seq<u8>,
    pub email: Seq<u8>,
    pub password: Seq<u8>,
}

/// What applying one queued signup does to the two directories: the
/// routed store gains the record (silently staying as it was when the
/// external store is full; the policy keeps the primary store from
/// overflowing).
pub open spec fn signup_step(p: DirView, e: DirView, q: ReqView, pressure: int) -> (
    DirView,
    DirView,
) {
    if route_spec(p.count, p.capacity, pressure) is External {
        (p, add_spec(e, made_user(q.username, q.email, q.password, 0, OwnedBy::External)))
    } else {
        (add_spec(p, made_user(q.username, q.email, q.password, 0, OwnedBy::Primary)), e)
    }
}

/// Draining the signup queue: the most recently queued request is applied
/// first, with the pending pressure equal to the queue length at that
/// moment, until the queue is empty.
pub open spec fn drain(p: DirView, e: DirView, pending: Seq<ReqView>) -> (DirView, DirView)
    decreases pending.len(),
{
    if pending.len() == 0 {
        (p, e)
    } else {
        let step = signup_step(p, e, pending.last(), pending.len() as int);
        drain(step.0, step.1, pending.drop_last())
    }
}

/// The adoption fold of reconciliation: walk the primary store's live
/// slots in order and hand each record's name to the external store,
/// skipping names already adopted.
pub open spec fn adopt_from(
    names: Seq<Seq<u8>>,
    users: Seq<Option<UserView>>,
    count: int,
    i: int,
) -> Seq<Seq<u8>>
    decreases count - i,
{
    if i < 0 || i >= count {
        names
    } else {
        let names2 = match users[i] {
            Some(u) => adopt_one(names, u.username),
            None => names,
        };
        adopt_from(names2, users, count, i + 1)
    }
}

/// The pull fold of reconciliation: walk the external store's reference
/// list in order and cache, on the primary side, each reference whose
/// username neither the primary store nor the cache already answers to.
pub open spec fn pull_from(refs: Seq<RefView>, list: Seq<RefView>, p: DirView, i: int) -> Seq<
    RefView,
>
    decreases list.len() - i,
{
    if i < 0 || i >= list.len() {
        refs
    } else {
        let refs2 = if first_match(p.users, p.count, list[i].username) is None && !contains_ref(
            refs,
            list[i].username,
        ) {
            refs.push(list[i])
        } else {
            refs
        };
        pull_from(refs2, list, p, i + 1)
    }
}

/// Adoption never forgets a name it already holds.
pub proof fn lemma_adopt_from_mono(
    names: Seq<Seq<u8>>,
    users: Seq<Option<UserView>>,
    count: int,
    i: int,
    n: Seq<u8>,
)
    requires
        contains_name(names, n),
    ensures
        contains_name(adopt_from(names, users, count, i), n),
    decreases count - i,
{
    if 0 <= i < count {
        let names2 = match users[i] {
            Some(u) => adopt_one(names, u.username),
            None => names,
        };
        let w = choose|j: int| 0 <= j < names.len() && names[j] == n;
        assert(names2[w] == n);
        lemma_adopt_from_mono(names2, users, count, i + 1, n);
    }
}

/// After the adoption fold, every live record's name is adopted.
pub proof fn lemma_adopt_from_adds(
    names: Seq<Seq<u8>>,
    users: Seq<Option<UserView>>,
    count: int,
    i: int,
    j: int,
)
    requires
        0 <= i <= j < count,
        users[j] is Some,
    ensures
        contains_name(adopt_from(names, users, count, i), users[j]->0.username),
    decreases count - i,
{
    let names2 = match users[i] {
        Some(u) => adopt_one(names, u.username),
        None => names,
    };
    if i == j {
        let n = users[j]->0.username;
        if contains_name(names, n) {
            lemma_adopt_from_mono(names2, users, count, i + 1, n);
        } else {
            assert(names2 == names.push(n));
            assert(names2[names.len() as int] == n);
            lemma_adopt_from_mono(names2, users, count, i + 1, n);
        }
    } else {
        lemma_adopt_from_adds(names2, users, count, i + 1, j);
    }
}

/// When every live record's name is already adopted, the adoption fold
/// changes nothing.
pub proof fn lemma_adopt_from_noop(
    names: Seq<Seq<u8>>,
    users: Seq<Option<UserView>>,
    count: int,
    i: int,
)
    requires
        forall|j: int|
            i <= j < count ==> ((#[trigger] users[j]) matches Some(u) ==> contains_name(
                names,
                u.username,
            )),
    ensures
        adopt_from(names, users, count, i) == names,
    decreases count - i,
{
    if 0 <= i < count {
        lemma_adopt_from_noop(names, users, count, i + 1);
    }
}

/// Reconciliation's adoption is idempotent: a second run over the same
/// primary store adopts nothing new.
pub proof fn lemma_adopt_idempotent(
    names: Seq<Seq<u8>>,
    users: Seq<Option<UserView>>,
    count: int,
)
    ensures
        adopt_from(adopt_from(names, users, count, 0), users, count, 0) == adopt_from(
            names,
            users,
            count,
            0,
        ),
{
    let full = adopt_from(names, users, count, 0);
    assert forall|j: int|
        0 <= j < count implies ((#[trigger] users[j]) matches Some(u) ==> contains_name(
        full,
        u.username,
    )) by {
        if users[j] is Some {
            lemma_adopt_from_adds(names, users, count, 0, j);
        }
    }
    lemma_adopt_from_noop(full, users, count, 0);
}

/// The pull cache never forgets a name it already holds.
pub proof fn lemma_pull_from_mono(
    refs: Seq<RefView>,
    list: Seq<RefView>,
    p: DirView,
    i: int,
    n: Seq<u8>,
)
    requires
        contains_ref(refs, n),
    ensures
        contains_ref(pull_from(refs, list, p, i), n),
    decreases list.len() - i,
{
    if 0 <= i < list.len() {
        let refs2 = if first_match(p.users, p.count, list[i].username) is None && !contains_ref(
            refs,
            list[i].username,
        ) {
            refs.push(list[i])
        } else {
            refs
        };
        let w = choose|j: int| 0 <= j < refs.len() && (#[trigger] refs[j]).username == n;
        assert(refs2[w].username == n);
        lemma_pull_from_mono(refs2, list, p, i + 1, n);
    }
}

/// After the pull fold, every listed reference is either found in the
/// primary store by name or held in the cache.
pub proof fn lemma_pull_from_covers(
    refs: Seq<RefView>,
    list: Seq<RefView>,
    p: DirView,
    i: int,
    j: int,
)
    requires
        0 <= i <= j < list.len(),
    ensures
        first_match(p.users, p.count, list[j].username) is None ==> contains_ref(
            pull_from(refs, list, p, i),
            list[j].username,
        ),
    decreases list.len() - i,
{
    let refs2 = if first_match(p.users, p.count, list[i].username) is None && !contains_ref(
        refs,
        list[i].username,
    ) {
        refs.push(list[i])
    } else {
        refs
    };
    if i == j {
        let n = list[j].username;
        if first_match(p.users, p.count, n) is None {
            if contains_ref(refs, n) {
                lemma_pull_from_mono(refs2, list, p, i + 1, n);
            } else {
                assert(refs2 == refs.push(list[i]));
                assert(refs2[refs.len() as int].username == n);
                lemma_pull_from_mono(refs2, list, p, i + 1, n);
            }
        }
    } else {
        lemma_pull_from_covers(refs2, list, p, i + 1, j);
    }
}

/// When every listed reference is already found or cached, the pull fold
/// changes nothing.
pub proof fn lemma_pull_from_noop(refs: Seq<RefView>, list: Seq<RefView>, p: DirView, i: int)
    requires
        forall|j: int|
            i <= j < list.len() ==> first_match(p.users, p.count, (#[trigger] list[j]).username)
                is Some || contains_ref(refs, list[j].username),
    ensures
        pull_from(refs, list, p, i) == refs,
    decreases list.len() - i,
{
    if 0 <= i < list.len() {
        lemma_pull_from_noop(refs, list, p, i + 1);
    }
}

/// Reconciliation's pull is idempotent: a second run over the same
/// reference list and the same primary store caches nothing new.
pub proof fn lemma_pull_idempotent(refs: Seq<RefView>, list: Seq<RefView>, p: DirView)
    ensures
        pull_from(pull_from(refs, list, p, 0), list, p, 0) == pull_from(refs, list, p, 0),
{
    let full = pull_from(refs, list, p, 0);
    assert forall|j: int|
        0 <= j < list.len() implies first_match(
        p.users,
        p.count,
        (#[trigger] list[j]).username,
    ) is Some || contains_ref(full, list[j].username) by {
        if first_match(p.users, p.count, list[j].username) is None {
            lemma_pull_from_covers(refs, list, p, 0, j);
        }
    }
    lemma_pull_from_noop(full, list, p, 0);
}

/// Reconciliation is idempotent. It never touches the primary store's
/// slots or count at all (the `join` operation's contract says so), and
/// by these equalities a second run also leaves the adopted names and the
/// cached references exactly as the first run left them.
pub proof fn lemma_join_idempotent(
    names: Seq<Seq<u8>>,
    users: Seq<Option<UserView>>,
    count: int,
    refs: Seq<RefView>,
    list: Seq<RefView>,
    p: DirView,
)
    ensures
        adopt_from(adopt_from(names, users, count, 0), users, count, 0) == adopt_from(
            names,
            users,
            count,
            0,
        ),
        pull_from(pull_from(refs, list, p, 0), list, p, 0) == pull_from(refs, list, p, 0),
{
    lemma_adopt_idempotent(names, users, count);
    lemma_pull_idempotent(refs, list, p);
}

/// No two references answer to the same username: each user is cached at
/// most once.
pub open spec fn refs_nodup(refs: Seq<RefView>) -> bool {
    forall|i: int, j: int|
        0 <= i < j < refs.len() ==> (#[trigger] refs[i]).username != (#[trigger] refs[j]).username
}

/// The pull fold caches each username at most once: it never pushes a
/// name the cache already holds.
pub proof fn lemma_pull_preserves_nodup(refs: Seq<RefView>, list: Seq<RefView>, p: DirView, i: int)
    requires
        refs_nodup(refs),
    ensures
        refs_nodup(pull_from(refs, list, p, i)),
    decreases list.len() - i,
{
    if 0 <= i < list.len() {
        let refs2 = if first_match(p.users, p.count, list[i].username) is None && !contains_ref(
            refs,
            list[i].username,
        ) {
            refs.push(list[i])
        } else {
            refs
        };
        assert forall|a: int, b: int|
            0 <= a < b < refs2.len() implies (#[trigger] refs2[a]).username != (
        #[trigger] refs2[b]).username by {
            if b == refs.len() {
                assert(refs2[a] == refs[a]);
                assert(!contains_ref(refs, refs2[b].username));
            }
        }
        lemma_pull_preserves_nodup(refs2, list, p, i + 1);
    }
}

/// The reference list of a directory names every record it owns.
pub proof fn lemma_refs_upto_lists_all(users: Seq<Option<UserView>>, count: int, i: int)
    requires
        0 <= i < count,
        users[i] is Some,
    ensures
        contains_ref(crate::external::refs_upto(users, count), users[i]->0.username),
    decreases count,
{
    let whole = crate::external::refs_upto(users, count);
    let prefix = crate::external::refs_upto(users, count - 1);
    if i == count - 1 {
        assert(whole[prefix.len() as int].username == users[i]->0.username);
    } else {
        lemma_refs_upto_lists_all(users, count - 1, i);
        let w = choose|j: int|
            0 <= j < prefix.len() && (#[trigger] prefix[j]).username == users[i]->0.username;
        assert(whole[w] == prefix[w]);
    }
}

/// The reconciliation invariant: after the pull fold of `join`, a record
/// owned by the external store is discoverable by username from the
/// primary side — found in the primary store directly, or held in the
/// primary-side reference cache.
pub proof fn lemma_join_discoverable(
    refs: Seq<RefView>,
    users: Seq<Option<UserView>>,
    count: int,
    p: DirView,
    i: int,
)
    requires
        0 <= i < count,
        users[i] is Some,
    ensures
        ({
            let name = users[i]->0.username;
            first_match(p.users, p.count, name) is Some || contains_ref(
                pull_from(refs, crate::external::refs_upto(users, count), p, 0),
                name,
            )
        }),
{
    let name = users[i]->0.username;
    let list = crate::external::refs_upto(users, count);
    lemma_refs_upto_lists_all(users, count, i);
    let j = choose|j: int| 0 <= j < list.len() && (#[trigger] list[j]).username == name;
    if first_match(p.users, p.count, name) is None {
        lemma_pull_from_covers(refs, list, p, 0, j);
    }
}

/// Every record a live slot holds keeps its inactivity below the machine
/// limit.
pub open spec fn inact_bounded(users: Seq<Option<UserView>>, count: int) -> bool {
    forall|i: int|
        0 <= i < count ==> ((#[trigger] users[i]) matches Some(u) ==> u.inactivity_count
            < i32::MAX)
}

/// Inserting a record with bounded inactivity keeps the directory's
/// inactivity bounded and its count within capacity.
pub proof fn lemma_add_spec_bounded(d: DirView, u: UserView)
    requires
        inact_bounded(d.users, d.count),
        0 <= d.count <= d.capacity,
        d.users.len() == d.capacity,
        u.inactivity_count < i32::MAX,
    ensures
        inact_bounded(add_spec(d, u).users, add_spec(d, u).count),
        0 <= add_spec(d, u).count <= d.capacity,
        add_spec(d, u).capacity == d.capacity,
        add_spec(d, u).users.len() == d.capacity,
{
    if d.count < d.capacity {
        let d2 = add_spec(d, u);
        assert forall|i: int|
            0 <= i < d2.count implies ((#[trigger] d2.users[i]) matches Some(v)
            ==> v.inactivity_count < i32::MAX) by {
            if i < d.count {
                assert(d2.users[i] == d.users[i]);
            }
        }
    }
}

/// Draining the signup queue keeps inactivity bounded: a new record
/// starts with no inactivity and existing records are untouched.
pub proof fn lemma_drain_bounded(p: DirView, e: DirView, pending: Seq<ReqView>)
    requires
        inact_bounded(p.users, p.count),
        inact_bounded(e.users, e.count),
        0 <= p.count <= p.capacity,
        0 <= e.count <= e.capacity,
        p.users.len() == p.capacity,
        e.users.len() == e.capacity,
    ensures
        inact_bounded(drain(p, e, pending).0.users, drain(p, e, pending).0.count),
        inact_bounded(drain(p, e, pending).1.users, drain(p, e, pending).1.count),
        0 <= drain(p, e, pending).0.count <= drain(p, e, pending).0.capacity,
        0 <= drain(p, e, pending).1.count <= drain(p, e, pending).1.capacity,
        drain(p, e, pending).0.capacity == p.capacity,
        drain(p, e, pending).1.capacity == e.capacity,
    decreases pending.len(),
{
    if pending.len() > 0 {
        let q = pending.last();
        let step = signup_step(p, e, q, pending.len() as int);
        if route_spec(p.count, p.capacity, pending.len() as int) is External {
            lemma_add_spec_bounded(e, made_user(q.username, q.email, q.password, 0, OwnedBy::External));
        } else {
            lemma_add_spec_bounded(p, made_user(q.username, q.email, q.password, 0, OwnedBy::Primary));
        }
        lemma_drain_bounded(step.0, step.1, pending.drop_last());
    }
}

} // verus!
