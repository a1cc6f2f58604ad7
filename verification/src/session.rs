//! Session tokens: issuance bound to a user record and validation that
//! resolves a token back to the record's id, or fails.

use vstd::prelude::*;
use crate::errors::DbError;
use crate::text::bytes_eq;

verus! {

/// Decimal digits of a number, most significant first, as ASCII bytes.
pub open spec fn dec_rep(n: nat) -> Seq<u8>
    decreases n,
{
    if n < 10 {
        seq![(48 + n) as u8]
    } else {
        dec_rep(n / 10).push((48 + n % 10) as u8)
    }
}

/// Powers of ten.
pub open spec fn pow10(k: nat) -> nat
    decreases k,
{
    if k == 0 {
        1
    } else {
        10 * pow10((k - 1) as nat)
    }
}

/// Decimal digits are ASCII digits: never zero bytes.
pub proof fn lemma_dec_rep_digits(n: nat)
    ensures
        dec_rep(n).len() >= 1,
        forall|j: int| 0 <= j < dec_rep(n).len() ==> 48 <= #[trigger] dec_rep(n)[j] <= 57,
    decreases n,
{
    if n >= 10 {
        lemma_dec_rep_digits(n / 10);
    }
}

/// A number below `pow10(k)` has at most `k` decimal digits.
pub proof fn lemma_dec_rep_len(n: nat, k: nat)
    requires
        k >= 1,
        n < pow10(k),
    ensures
        dec_rep(n).len() <= k,
    decreases n,
{
    if n >= 10 {
        vstd::arithmetic::div_mod::lemma_fundamental_div_mod(n as int, 10);
        if n / 10 >= pow10((k - 1) as nat) {
            assert(n >= 10 * (n / 10));
            assert(false);
        }
        lemma_dec_rep_len(n / 10, (k - 1) as nat);
    }
}

/// The token issued for a serial number: a fixed two-letter prefix and
/// the serial's decimal digits.
pub open spec fn token_bytes(serial: nat) -> Seq<u8> {
    seq![84u8, 75u8] + dec_rep(serial)
}

/// A token that can live in a session-token field: short enough to keep
/// its terminator, with no zero byte to cut it off early.
pub open spec fn token_ok(t: Seq<u8>) -> bool {
    &&& 1 <= t.len() <= 31
    &&& forall|j: int| 0 <= j < t.len() ==> t[j] != 0
}

/// An issued token is well-formed for storage in a record field.
pub proof fn lemma_token_ok(serial: nat)
    requires
        serial < u32::MAX,
    ensures
        token_ok(token_bytes(serial)),
{
    lemma_dec_rep_digits(serial);
    assert(pow10(10) == 10000000000) by {
        reveal_with_fuel(pow10, 11);
    }
    lemma_dec_rep_len(serial, 10);
}

/// Append the decimal digits of a number to a buffer.
fn push_digits(n: u32, out: &mut Vec<u8>)
    ensures
        final(out)@ == old(out)@ + dec_rep(n as nat),
    decreases n,
{
    if n < 10 {
        out.push(48 + n as u8);
        assert(final(out)@ =~= old(out)@ + dec_rep(n as nat));
    } else {
        push_digits(n / 10, out);
        out.push(48 + (n % 10) as u8);
        assert(final(out)@ =~= old(out)@ + dec_rep(n as nat));
    }
}

/// One issued session: the token and the record id it is bound to.
pub struct SessionEntry {
    pub token: Vec<u8>,
    pub user_id: i32,
}

/// The mathematical content of one session.
pub struct SessionView {
    pub token: Seq<u8>,
    pub user_id: int,
}

impl DeepView for SessionEntry {
    type V = SessionView;

    open spec fn deep_view(&self) -> SessionView {
        SessionView { token: self.token@, user_id: self.user_id as int }
    }
}

/// The mathematical content of a token table.
#[verifier::ext_equal]
pub struct SmView {
    pub entries: Seq<SessionView>,
    pub next_serial: int,
}

/// A token table: the sessions issued so far and the serial number the
/// next token is minted from.
pub struct SessionManager {
    pub entries: Vec<SessionEntry>,
    pub next_serial: u32,
}

impl View for SessionManager {
    type V = SmView;

    open spec fn view(&self) -> SmView {
        SmView { entries: self.entries.deep_view(), next_serial: self.next_serial as int }
    }
}

/// The id the most recent session with the given token is bound to.
pub open spec fn lookup(entries: Seq<SessionView>, token: Seq<u8>) -> Option<int>
    decreases entries.len(),
{
    if entries.len() == 0 {
        None
    } else if entries.last().token == token {
        Some(entries.last().user_id)
    } else {
        lookup(entries.drop_last(), token)
    }
}

impl SessionManager {
    /// Every issued token is storable in a record field and bound to a
    /// positive record id.
    pub open spec fn wf(self) -> bool {
        forall|j: int|
            0 <= j < self.entries@.len() ==> token_ok((#[trigger] self.entries@[j]).token@)
                && self.entries@[j].user_id >= 1
    }

    /// An empty token table.
    pub fn new() -> (sm: SessionManager)
        ensures
            sm.wf(),
            sm@.entries == Seq::<SessionView>::empty(),
            sm@.next_serial == 0,
    {
        let sm = SessionManager { entries: Vec::new(), next_serial: 0 };
        proof {
            assert(sm@.entries =~= Seq::<SessionView>::empty());
        }
        sm
    }

    /// Issue a fresh token bound to the given record id. Validating the
    /// token immediately afterwards resolves to that id.
    pub fn create_session(&mut self, user_id: i32) -> (token: Vec<u8>)
        requires
            old(self).wf(),
            old(self)@.next_serial < u32::MAX,
            user_id >= 1,
        ensures
            final(self).wf(),
            token@ == token_bytes(old(self)@.next_serial as nat),
            token_ok(token@),
            final(self)@.entries == old(self)@.entries.push(
                SessionView { token: token@, user_id: user_id as int },
            ),
            final(self)@.next_serial == old(self)@.next_serial + 1,
            lookup(final(self)@.entries, token@) == Some(user_id as int),
    {
        let mut tok: Vec<u8> = Vec::new();
        tok.push(84);
        tok.push(75);
        push_digits(self.next_serial, &mut tok);
        let mut stored: Vec<u8> = Vec::new();
        stored.push(84);
        stored.push(75);
        push_digits(self.next_serial, &mut stored);
        proof {
            assert(tok@ =~= token_bytes(self.next_serial as nat));
            assert(stored@ =~= token_bytes(self.next_serial as nat));
            lemma_token_ok(self.next_serial as nat);
        }
        self.entries.push(SessionEntry { token: stored, user_id });
        self.next_serial = self.next_serial + 1;
        proof {
            assert(self@.entries =~= old(self)@.entries.push(
                SessionView { token: tok@, user_id: user_id as int },
            ));
            assert(self@.entries.last() == SessionView { token: tok@, user_id: user_id as int });
        }
        tok
    }

    /// Resolve a token to the id of the record it is bound to, or fail
    /// with an invalid-session error.
    pub fn validate_session(&self, token: &[u8]) -> (r: Result<i32, DbError>)
        requires
            self.wf(),
        ensures
            match lookup(self@.entries, token@) {
                Some(id) => r matches Ok(x) && x as int == id,
                None => r == Err::<i32, DbError>(DbError::InvalidSession),
            },
    {
        let mut i: usize = self.entries.len();
        proof {
            assert(self@.entries.take(i as int) =~= self@.entries);
        }
        while i > 0
            invariant
                i <= self@.entries.len(),
                self@.entries.len() == self.entries@.len(),
                lookup(self@.entries, token@) == lookup(self@.entries.take(i as int), token@),
            decreases i,
        {
            i = i - 1;
            proof {
                assert(self@.entries[i as int] == self.entries@[i as int].deep_view());
                assert(self@.entries.take(i + 1).last() == self@.entries[i as int]);
                assert(self@.entries.take(i + 1).drop_last() =~= self@.entries.take(i as int));
            }
            if bytes_eq(self.entries[i].token.as_slice(), token) {
                return Ok(self.entries[i].user_id);
            }
        }
        proof {
            assert(self@.entries.take(0) =~= Seq::<SessionView>::empty());
        }
        Err(DbError::InvalidSession)
    }
}

} // verus!
