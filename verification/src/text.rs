//! Fixed-width text fields with null-termination semantics.
//!
//! Every text field of a user record occupies a buffer of a fixed width.
//! Encoding copies at most `width - 1` bytes of the source and zero-fills
//! the rest, so the last byte of the buffer is always a terminator.
//! Decoding reads the bytes before the first zero.

use vstd::prelude::*;

verus! {

use vstd::string::StringSliceAdditionalSpecFns;

/// Width of the username field, terminator included.
pub const MAX_NAME_LEN: usize = 50;

/// Width of the email field, terminator included.
pub const MAX_EMAIL_LEN: usize = 50;

/// Width of the password field, terminator included.
pub const MAX_PASSWORD_LEN: usize = 100;

/// Width of the session-token field, terminator included.
pub const MAX_SESSION_TOKEN_LEN: usize = 32;

/// Position of the first zero byte, or the length when no byte is zero.
pub open spec fn null_pos(s: Seq<u8>) -> int
    decreases s.len(),
{
    if s.len() == 0 {
        0
    } else if s[0] == 0 {
        0
    } else {
        1 + null_pos(s.drop_first())
    }
}

/// The text a buffer holds: its bytes before the first zero.
pub open spec fn decoded(s: Seq<u8>) -> Seq<u8> {
    s.take(null_pos(s))
}

/// How many source bytes an encoding of the given width keeps.
pub open spec fn copy_len(src_len: int, width: int) -> int {
    if src_len < width - 1 {
        src_len
    } else {
        width - 1
    }
}

/// The fixed-width encoding of a source text: a prefix of at most
/// `width - 1` bytes, zero-filled to the full width.
pub open spec fn encoded(src: Seq<u8>, width: int) -> Seq<u8>
    recommends
        width >= 1,
{
    src.take(copy_len(src.len() as int, width)) + Seq::new(
        (width - copy_len(src.len() as int, width)) as nat,
        |i: int| 0u8,
    )
}

/// `null_pos` lies in bounds, the bytes before it are non-zero, and the
/// byte at it (when in bounds) is zero.
pub proof fn lemma_null_pos(s: Seq<u8>)
    ensures
        0 <= null_pos(s) <= s.len(),
        forall|j: int| 0 <= j < null_pos(s) ==> s[j] != 0,
        null_pos(s) < s.len() ==> s[null_pos(s)] == 0,
    decreases s.len(),
{
    if s.len() == 0 {
    } else if s[0] == 0 {
    } else {
        lemma_null_pos(s.drop_first());
        assert forall|j: int| 0 <= j < null_pos(s) implies s[j] != 0 by {
            if j > 0 {
                assert(s.drop_first()[j - 1] == s[j]);
            }
        }
        if null_pos(s) < s.len() {
            assert(s.drop_first()[null_pos(s) - 1] == s[null_pos(s)]);
        }
    }
}

/// A position with only non-zero bytes before it and a zero byte (or the
/// end) at it is the first-null position.
pub proof fn lemma_null_pos_unique(s: Seq<u8>, i: int)
    requires
        0 <= i <= s.len(),
        forall|j: int| 0 <= j < i ==> s[j] != 0,
        i < s.len() ==> s[i] == 0,
    ensures
        null_pos(s) == i,
    decreases s.len(),
{
    if s.len() == 0 {
    } else if s[0] == 0 {
    } else {
        assert forall|j: int| 0 <= j < i - 1 implies s.drop_first()[j] != 0 by {
            assert(s.drop_first()[j] == s[j + 1]);
        }
        if i - 1 < s.drop_first().len() {
            assert(s.drop_first()[i - 1] == s[i]);
        }
        lemma_null_pos_unique(s.drop_first(), i - 1);
    }
}

/// An encoding fills the whole width and its last byte is always a
/// terminator, whatever the source length.
pub proof fn lemma_encoded_terminated(src: Seq<u8>, width: int)
    requires
        width >= 1,
    ensures
        encoded(src, width).len() == width,
        encoded(src, width)[width - 1] == 0,
{
}

/// Round trip below the field maximum: a source shorter than the width
/// with no zero bytes decodes from its encoding unchanged.
pub proof fn lemma_decode_encode_roundtrip(src: Seq<u8>, width: int)
    requires
        width >= 1,
        src.len() < width,
        forall|j: int| 0 <= j < src.len() ==> src[j] != 0,
    ensures
        decoded(encoded(src, width)) == src,
{
    let e = encoded(src, width);
    assert(copy_len(src.len() as int, width) == src.len());
    lemma_null_pos_unique(e, src.len() as int);
    assert(decoded(e) =~= src);
}

/// Truncation is lossy but bounded: whatever the source, decoding the
/// encoding yields a prefix of the source no longer than `width - 1`.
pub proof fn lemma_encode_truncates(src: Seq<u8>, width: int)
    requires
        width >= 1,
    ensures
        decoded(encoded(src, width)).len() <= width - 1,
        decoded(encoded(src, width)) == src.take(decoded(encoded(src, width)).len() as int),
{
    let e = encoded(src, width);
    let k = copy_len(src.len() as int, width);
    lemma_null_pos(e);
    let p = null_pos(e);
    if p > width - 1 {
        assert(e[width - 1] != 0);
        assert(false);
    }
    if p > k {
        assert(e[k] != 0);
        assert(false);
    }
    assert(decoded(e) =~= src.take(p));
}

/// Encode a source into a fresh buffer of the given width.
pub fn encode_field(src: &[u8], width: usize) -> (r: Vec<u8>)
    requires
        width >= 1,
    ensures
        r@ == encoded(src@, width as int),
{
    let n = if src.len() < width - 1 {
        src.len()
    } else {
        width - 1
    };
    let mut r: Vec<u8> = Vec::new();
    let mut i: usize = 0;
    while i < n
        invariant
            i <= n,
            n == copy_len(src@.len() as int, width as int),
            n <= src@.len(),
            r@ == src@.take(i as int),
        decreases n - i,
    {
        r.push(src[i]);
        assert(r@ =~= src@.take(i + 1));
        i = i + 1;
    }
    while r.len() < width
        invariant
            n <= r@.len() <= width,
            n == copy_len(src@.len() as int, width as int),
            r@.take(n as int) == src@.take(n as int),
            forall|j: int| n <= j < r@.len() ==> r@[j] == 0,
        decreases width - r.len(),
    {
        r.push(0);
        assert(r@.take(n as int) =~= src@.take(n as int));
    }
    proof {
        assert(r@ =~= encoded(src@, width as int));
    }
    r
}

/// Re-encode a source into an existing buffer, keeping its width.
pub fn copy_string(dest: &mut Vec<u8>, src: &[u8])
    requires
        old(dest).len() >= 1,
    ensures
        final(dest)@ == encoded(src@, old(dest)@.len() as int),
{
    let w = dest.len();
    let r = encode_field(src, w);
    *dest = r;
}

/// Read the text a buffer holds: its bytes before the first zero.
pub fn decode_field(buf: &[u8]) -> (r: Vec<u8>)
    ensures
        r@ == decoded(buf@),
{
    let mut end: usize = 0;
    while end < buf.len() && buf[end] != 0
        invariant
            end <= buf@.len(),
            forall|j: int| 0 <= j < end ==> buf@[j] != 0,
        decreases buf@.len() - end,
    {
        end = end + 1;
    }
    proof {
        lemma_null_pos_unique(buf@, end as int);
    }
    let mut r: Vec<u8> = Vec::new();
    let mut i: usize = 0;
    while i < end
        invariant
            i <= end,
            end <= buf@.len(),
            end == null_pos(buf@),
            r@ == buf@.take(i as int),
        decreases end - i,
    {
        r.push(buf[i]);
        assert(r@ =~= buf@.take(i + 1));
        i = i + 1;
    }
    proof {
        assert(r@ =~= decoded(buf@));
    }
    r
}

/// Byte-for-byte equality of two slices.
pub fn bytes_eq(a: &[u8], b: &[u8]) -> (r: bool)
    ensures
        r == (a@ == b@),
{
    if a.len() != b.len() {
        proof {
            assert(a@ != b@);
        }
        return false;
    }
    let mut i: usize = 0;
    while i < a.len()
        invariant
            i <= a@.len(),
            a@.len() == b@.len(),
            forall|j: int| 0 <= j < i ==> a@[j] == b@[j],
        decreases a@.len() - i,
    {
        if a[i] != b[i] {
            proof {
                assert(a@ != b@);
            }
            return false;
        }
        i = i + 1;
    }
    proof {
        assert(a@ =~= b@);
    }
    true
}

/// Whether a fixed-width field holds exactly the given text.
pub fn str_cmp(a: &[u8], b: &str) -> (r: bool)
    ensures
        r == (decoded(a@) == b.spec_bytes()),
{
    let d = decode_field(a);
    bytes_eq(d.as_slice(), b.as_bytes())
}

/// Relies on `String::from_utf8_lossy`: a valid UTF-8 byte sequence is
/// decoded exactly; invalid sequences are replaced with the replacement
/// character, never an error.
#[verifier::external_body]
fn lossy_utf8(v: &[u8]) -> (r: String)
    ensures
        vstd::utf8::valid_utf8(v@) ==> vstd::utf8::encode_utf8(r@) == v@,
{
    String::from_utf8_lossy(v).into_owned()
}

/// Decode a fixed-width field into owned text, permissively.
pub fn bytes_to_string(bytes: &[u8]) -> (r: String)
    ensures
        vstd::utf8::valid_utf8(decoded(bytes@)) ==> vstd::utf8::encode_utf8(r@) == decoded(bytes@),
{
    let d = decode_field(bytes);
    lossy_utf8(d.as_slice())
}

/// Encode owned text into a session-token field.
pub fn string_to_bytes(s: String) -> (r: Vec<u8>)
    ensures
        r@ == encoded(vstd::utf8::encode_utf8(s@), MAX_SESSION_TOKEN_LEN as int),
{
    encode_field(s.as_str().as_bytes(), MAX_SESSION_TOKEN_LEN)
}

} // verus!
