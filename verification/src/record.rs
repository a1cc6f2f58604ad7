//! The user record: fixed-width text fields, inactivity accounting, and an
//! ownership tag that says which store may free the record.

use vstd::prelude::*;
use crate::text::{
    MAX_EMAIL_LEN, MAX_NAME_LEN, MAX_PASSWORD_LEN, MAX_SESSION_TOKEN_LEN, decoded, encode_field,
    encoded,
};

verus! {

use vstd::string::StringSliceAdditionalSpecFns;

/// Which store owns a record. The owner alone may evict or free it; the
/// other store only observes it through references.
#[derive(Clone, Copy, PartialEq, Eq, Structural, Debug)]
pub enum OwnedBy {
    Primary,
    External,
}

/// The mathematical content of a user record: each text field as the
/// bytes it decodes to.
#[verifier::ext_equal]
pub struct UserView {
    pub username: Seq<u8>,
    pub email: Seq<u8>,
    pub password: Seq<u8>,
    pub user_id: int,
    pub inactivity_count: int,
    pub is_active: bool,
    pub session_token: Seq<u8>,
    pub owned_by: OwnedBy,
}

/// A user record. Text fields are fixed-width, null-terminated buffers.
#[derive(Debug)]
pub struct UserStruct {
    pub password: Vec<u8>,
    pub username: Vec<u8>,
    pub user_id: i32,
    pub email: Vec<u8>,
    pub inactivity_count: i32,
    pub is_active: bool,
    pub session_token: Vec<u8>,
    pub owned_by: OwnedBy,
}

impl View for UserStruct {
    type V = UserView;

    open spec fn view(&self) -> UserView {
        UserView {
            username: decoded(self.username@),
            email: decoded(self.email@),
            password: decoded(self.password@),
            user_id: self.user_id as int,
            inactivity_count: self.inactivity_count as int,
            is_active: self.is_active,
            session_token: decoded(self.session_token@),
            owned_by: self.owned_by,
        }
    }
}

impl DeepView for UserStruct {
    type V = UserView;

    open spec fn deep_view(&self) -> UserView {
        self.view()
    }
}

/// A buffer of the right width whose last byte is a terminator.
pub open spec fn wf_field(s: Seq<u8>, width: int) -> bool {
    s.len() == width && s[width - 1] == 0
}

impl UserStruct {
    /// Every field buffer has its fixed width and is terminated, and the
    /// counters are non-negative.
    pub open spec fn wf(self) -> bool {
        &&& wf_field(self.username@, MAX_NAME_LEN as int)
        &&& wf_field(self.email@, MAX_EMAIL_LEN as int)
        &&& wf_field(self.password@, MAX_PASSWORD_LEN as int)
        &&& wf_field(self.session_token@, MAX_SESSION_TOKEN_LEN as int)
        &&& self.user_id >= 0
        &&& self.inactivity_count >= 0
    }
}

/// The record that encoding the given texts produces: fresh, active, with
/// no session token and no inactivity.
pub open spec fn made_user(
    username: Seq<u8>,
    email: Seq<u8>,
    password: Seq<u8>,
    user_id: int,
    owned_by: OwnedBy,
) -> UserView {
    UserView {
        username: decoded(encoded(username, MAX_NAME_LEN as int)),
        email: decoded(encoded(email, MAX_EMAIL_LEN as int)),
        password: decoded(encoded(password, MAX_PASSWORD_LEN as int)),
        user_id: user_id,
        inactivity_count: 0,
        is_active: true,
        session_token: seq![],
        owned_by: owned_by,
    }
}

/// A record built from texts below the field maxima, none holding a zero
/// byte, carries them unchanged.
pub proof fn lemma_made_user_exact(
    username: Seq<u8>,
    email: Seq<u8>,
    password: Seq<u8>,
    user_id: int,
    owned_by: OwnedBy,
)
    requires
        username.len() < MAX_NAME_LEN,
        email.len() < MAX_EMAIL_LEN,
        password.len() < MAX_PASSWORD_LEN,
        forall|j: int| 0 <= j < username.len() ==> username[j] != 0,
        forall|j: int| 0 <= j < email.len() ==> email[j] != 0,
        forall|j: int| 0 <= j < password.len() ==> password[j] != 0,
    ensures
        made_user(username, email, password, user_id, owned_by).username == username,
        made_user(username, email, password, user_id, owned_by).email == email,
        made_user(username, email, password, user_id, owned_by).password == password,
{
    crate::text::lemma_decode_encode_roundtrip(username, MAX_NAME_LEN as int);
    crate::text::lemma_decode_encode_roundtrip(email, MAX_EMAIL_LEN as int);
    crate::text::lemma_decode_encode_roundtrip(password, MAX_PASSWORD_LEN as int);
}

/// Build a record from the given texts, truncating each to its field
/// width. The id is advisory: the store assigns the final id on insertion.
pub fn new_record(
    username: &str,
    email: &str,
    user_id: i32,
    password: &str,
    owned_by: OwnedBy,
) -> (u: UserStruct)
    requires
        user_id >= 0,
    ensures
        u.wf(),
        u@ == made_user(
            username.spec_bytes(),
            email.spec_bytes(),
            password.spec_bytes(),
            user_id as int,
            owned_by,
        ),
{
    let u = UserStruct {
        password: encode_field(password.as_bytes(), MAX_PASSWORD_LEN),
        username: encode_field(username.as_bytes(), MAX_NAME_LEN),
        user_id,
        email: encode_field(email.as_bytes(), MAX_EMAIL_LEN),
        inactivity_count: 0,
        is_active: true,
        session_token: encode_field(&[], MAX_SESSION_TOKEN_LEN),
        owned_by,
    };
    proof {
        crate::text::lemma_encoded_terminated(username.spec_bytes(), MAX_NAME_LEN as int);
        crate::text::lemma_encoded_terminated(email.spec_bytes(), MAX_EMAIL_LEN as int);
        crate::text::lemma_encoded_terminated(password.spec_bytes(), MAX_PASSWORD_LEN as int);
        crate::text::lemma_encoded_terminated(Seq::<u8>::empty(), MAX_SESSION_TOKEN_LEN as int);
        crate::text::lemma_decode_encode_roundtrip(Seq::<u8>::empty(), MAX_SESSION_TOKEN_LEN as int);
        assert(u.session_token@ == encoded(Seq::<u8>::empty(), MAX_SESSION_TOKEN_LEN as int));
        assert(u@.session_token =~= seq![]);
    }
    u
}

/// Build a record owned by the primary store.
pub fn create_user(username: &str, email: &str, user_id: i32, password: &str) -> (u: UserStruct)
    requires
        user_id >= 0,
    ensures
        u.wf(),
        u@ == made_user(
            username.spec_bytes(),
            email.spec_bytes(),
            password.spec_bytes(),
            user_id as int,
            OwnedBy::Primary,
        ),
{
    new_record(username, email, user_id, password, OwnedBy::Primary)
}

impl Default for UserStruct {
    /// The all-empty record: zeroed fields, id 0, inactive, primary-owned.
    fn default() -> (u: UserStruct)
        ensures
            u.wf(),
            u@.username == Seq::<u8>::empty(),
            u@.email == Seq::<u8>::empty(),
            u@.password == Seq::<u8>::empty(),
            u@.session_token == Seq::<u8>::empty(),
            u@.user_id == 0,
            u@.inactivity_count == 0,
            !u@.is_active,
            u@.owned_by == OwnedBy::Primary,
    {
        let u = UserStruct {
            password: encode_field(&[], MAX_PASSWORD_LEN),
            username: encode_field(&[], MAX_NAME_LEN),
            user_id: 0,
            email: encode_field(&[], MAX_EMAIL_LEN),
            inactivity_count: 0,
            is_active: false,
            session_token: encode_field(&[], MAX_SESSION_TOKEN_LEN),
            owned_by: OwnedBy::Primary,
        };
        proof {
            lemma_empty_field(MAX_NAME_LEN as int);
            lemma_empty_field(MAX_EMAIL_LEN as int);
            lemma_empty_field(MAX_PASSWORD_LEN as int);
            lemma_empty_field(MAX_SESSION_TOKEN_LEN as int);
        }
        u
    }
}

/// Encoding the empty text gives a terminated buffer that decodes empty.
proof fn lemma_empty_field(width: int)
    requires
        width >= 1,
    ensures
        wf_field(encoded(Seq::<u8>::empty(), width), width),
        decoded(encoded(Seq::<u8>::empty(), width)) == Seq::<u8>::empty(),
{
    crate::text::lemma_encoded_terminated(Seq::<u8>::empty(), width);
    crate::text::lemma_decode_encode_roundtrip(Seq::<u8>::empty(), width);
}

} // verus!
