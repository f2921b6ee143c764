use vstd::prelude::*;

use base64ct::Encoding;

verus! {

/// A UUID, held as its 128 bits read in big-endian order, so that comparing two
/// values compares the UUIDs byte by byte.
pub type Uuid = u128;

/// A local id: a dense, zero-based integer.
pub type Lid = usize;

/// Universe-local id: the position of a UUID in the universe of an installation.
pub type Luid = Lid;

/// Version-local id: the position of a Luid within one version's membership set.
pub type Vlid = Lid;

/// Set-local id: a position within one finite subset of a version.
pub type Slid = Lid;

/// The nil UUID (all bits zero).
pub const NIL_UUID: Uuid = 0;

/// The number that a byte string denotes when read big-endian.
pub open spec fn be_value(b: Seq<u8>) -> nat
    decreases b.len(),
{
    if b.len() == 0 {
        0
    } else {
        be_value(b.drop_last()) * 256 + b.last() as nat
    }
}

/// The version field of a UUID (bits 48 to 51 counted from the most significant bit).
pub open spec fn uuid_version(u: Uuid) -> u128 {
    (u >> 76u128) & 0xfu128
}

/// Errors from reading a UUID out of its text form.
#[derive(Debug, Clone, Copy, PartialEq, Eq, Structural)]
pub enum IdError {
    /// The text is not unpadded URL-safe base64.
    InvalidEncoding,
    /// The decoded bytes are not exactly sixteen.
    InvalidLength,
}

impl IdError {
    /// A human-readable description of the error.
    pub fn message(&self) -> (r: String)
        ensures
            *self == IdError::InvalidEncoding ==> r@ == "invalid base64url encoding of a UUID"@,
            *self == IdError::InvalidLength ==> r@ == "a UUID must be sixteen bytes"@,
    {
        match self {
            IdError::InvalidEncoding => String::from_str("invalid base64url encoding of a UUID"),
            IdError::InvalidLength => String::from_str("a UUID must be sixteen bytes"),
        }
    }

}

/// What `Base64UrlUnpadded::encode_string` makes of a byte string.
pub uninterp spec fn base64url_encoded(b: Seq<u8>) -> Seq<char>;

/// What `Base64UrlUnpadded::decode_vec` makes of a text: the bytes, or `None` where it fails.
pub uninterp spec fn base64url_decoded(s: Seq<char>) -> Option<Seq<u8>>;

#[verifier::external_type_specification]
#[verifier::external_body]
pub struct ExBase64Error(base64ct::Error);

/// Relies on `base64ct::Base64UrlUnpadded::encode_string`: the unpadded URL-safe
/// base64 text of the bytes, four characters for every three bytes, rounded up.
/// It panics only on inputs longer than `usize::MAX / 4`.
#[verifier::external_body]
fn encode_base64url(b: &[u8]) -> (r: String)
    requires
        b@.len() <= usize::MAX / 4,
    ensures
        r@ == base64url_encoded(b@),
        r@.len() == (4 * b@.len()) / 3 + if (4 * b@.len()) % 3 != 0 { 1int } else { 0int },
{
    base64ct::Base64UrlUnpadded::encode_string(b)
}

/// Relies on `base64ct::Base64UrlUnpadded::decode_vec`: it succeeds exactly on
/// canonical unpadded URL-safe base64 text, and then inverts `encode_string`.
#[verifier::external_body]
fn decode_base64url(s: &str) -> (r: Result<Vec<u8>, base64ct::Error>)
    ensures
        r is Ok <==> base64url_decoded(s@) is Some,
        r matches Ok(v) ==> base64url_decoded(s@) == Some(v@),
        forall|b: Seq<u8>| #[trigger] base64url_encoded(b) == s@ ==> r is Ok && r->Ok_0@ == b,
{
    base64ct::Base64UrlUnpadded::decode_vec(s)
}

/// Relies on `uuid::Uuid::now_v7`: a fresh version-7 UUID, time-ordered, with
/// random low bits.
#[verifier::external_body]
pub(crate) fn new_uuid_v7() -> (r: Uuid)
    ensures
        uuid_version(r) == 7,
{
    uuid::Uuid::now_v7().as_u128()
}

/// The sixteen bytes of a UUID, most significant first.
pub open spec fn uuid_bytes(u: Uuid) -> Seq<u8> {
    Seq::new(16, |i: int| ((u >> ((8 * (15 - i)) as u128)) & 0xffu128) as u8)
}

/// The value of the first `k` bytes of the big-endian form of `u`.
spec fn be_prefix(u: u128, k: u128) -> u128 {
    if k == 0 {
        0
    } else {
        u >> (8 * (16 - k))
    }
}

proof fn lemma_prefix_step(u: u128, k: u128)
    requires
        k < 16,
    ensures
        be_prefix(u, (k + 1) as u128) == be_prefix(u, k) * 256 + (be_prefix(u, (k + 1) as u128) & 0xff),
{
    let s: u128 = (8 * (15 - k)) as u128;
    let y: u128 = u >> s;
    assert(y == (y >> 8u128) * 256 + (y & 0xffu128)) by (bit_vector);
    if k == 0 {
        assert((u >> 120u128) >> 8u128 == 0) by (bit_vector);
    } else {
        assert((u >> s) >> 8u128 == u >> (s + 8)) by (bit_vector)
            requires
                s < 120,
        ;
    }
}

proof fn lemma_uuid_bytes_prefix(u: u128, k: u128)
    requires
        k <= 16,
    ensures
        be_value(uuid_bytes(u).subrange(0, k as int)) == be_prefix(u, k),
    decreases k,
{
    let sub = uuid_bytes(u).subrange(0, k as int);
    if k == 0 {
        assert(sub.len() == 0);
    } else {
        let k1 = (k - 1) as u128;
        lemma_uuid_bytes_prefix(u, k1);
        lemma_prefix_step(u, k1);
        assert(sub.drop_last() =~= uuid_bytes(u).subrange(0, k1 as int));
        let y = be_prefix(u, k);
        assert(y == u >> (8 * (15 - k1)) as u128);
        assert(y & 0xffu128 < 256) by (bit_vector);
        assert(sub.last() == (y & 0xffu128) as u8);
    }
}

/// The big-endian bytes of a UUID read back as a number are the UUID.
pub proof fn lemma_uuid_bytes_value(u: u128)
    ensures
        be_value(uuid_bytes(u)) == u,
{
    lemma_uuid_bytes_prefix(u, 16);
    assert(uuid_bytes(u).subrange(0, 16) =~= uuid_bytes(u));
    assert(u >> 0u128 == u) by (bit_vector);
}

/// The sixteen bytes of a UUID, most significant first.
pub fn uuid_to_bytes(u: Uuid) -> (r: Vec<u8>)
    ensures
        r@ == uuid_bytes(u),
        be_value(r@) == u,
{
    let mut r: Vec<u8> = Vec::new();
    let mut k: u128 = 0;
    while k < 16
        invariant
            k <= 16,
            r@.len() == k,
            r@ == uuid_bytes(u).subrange(0, k as int),
            be_value(r@) == be_prefix(u, k),
        decreases 16 - k,
    {
        proof {
            lemma_prefix_step(u, k);
        }
        let y: u128 = u >> (8 * (15 - k));
        assert(y == be_prefix(u, (k + 1) as u128));
        assert(y & 0xffu128 < 256) by (bit_vector);
        let byte: u8 = (y & 0xff) as u8;
        let ghost before = r@;
        r.push(byte);
        assert(r@.drop_last() == before);
        assert(uuid_bytes(u).subrange(0, k + 1) =~= uuid_bytes(u).subrange(0, k as int).push(byte));
        k = k + 1;
    }
    assert(u >> 0u128 == u) by (bit_vector);
    assert(uuid_bytes(u).subrange(0, 16) =~= uuid_bytes(u));
    r
}

/// Reads a UUID from its bytes, most significant first: `None` unless there are
/// exactly sixteen.
pub fn uuid_from_bytes(b: &[u8]) -> (r: Option<Uuid>)
    ensures
        r is Some <==> b@.len() == 16,
        r matches Some(u) ==> be_value(b@) == u,
{
    if b.len() != 16 {
        return None;
    }
    let mut acc: u128 = 0;
    let mut k: usize = 0;
    assert(1u128 << 0u128 == 1) by (bit_vector);
    while k < 16
        invariant
            b@.len() == 16,
            k <= 16,
            acc == be_value(b@.subrange(0, k as int)),
            k < 16 ==> acc < (1u128 << (8 * k) as u128),
        decreases 16 - k,
    {
        let byte: u8 = b[k];
        assert(b@.subrange(0, k + 1).drop_last() == b@.subrange(0, k as int));
        let sh: u128 = (8 * k) as u128;
        assert((acc << 8u128) | (byte as u128) == acc * 256 + (byte as u128)) by (bit_vector)
            requires
                sh <= 120,
                acc < (1u128 << sh),
                (byte as u128) < 256,
        ;
        if k + 1 < 16 {
            assert(acc * 256 + (byte as u128) < (1u128 << (sh + 8))) by (bit_vector)
                requires
                    sh <= 112,
                    acc < (1u128 << sh),
                    (byte as u128) < 256,
            ;
        }
        assert(sh + 8 == (8 * (k + 1)) as u128);
        acc = (acc << 8u128) | (byte as u128);
        k = k + 1;
    }
    assert(b@.subrange(0, 16) == b@);
    Some(acc)
}

/// The unpadded URL-safe base64 text of a UUID's bytes, as used in patch file names.
pub fn uuid_to_base64url(u: Uuid) -> (r: String)
    ensures
        r@ == base64url_encoded(uuid_bytes(u)),
        be_value(uuid_bytes(u)) == u,
        r@.len() == 22,
{
    let bytes = uuid_to_bytes(u);
    encode_base64url(bytes.as_slice())
}

/// Reads a UUID from unpadded URL-safe base64 text.
pub fn uuid_from_base64url(s: &str) -> (r: Result<Uuid, IdError>)
    ensures
        r == uuid_decoding(s@),
        forall|u: Uuid| #[trigger] base64url_encoded(uuid_bytes(u)) == s@ ==> r == Ok::<Uuid, IdError>(u),
        r == Err::<Uuid, IdError>(IdError::InvalidEncoding) <==> base64url_decoded(s@) is None,
        r == Err::<Uuid, IdError>(IdError::InvalidLength) <==> (base64url_decoded(s@) matches Some(b)
            && b.len() != 16),
        r matches Ok(u) ==> (base64url_decoded(s@) matches Some(b) && b.len() == 16 && be_value(b) == u),
{
    let decoded = decode_base64url(s);
    proof {
        assert forall|u: Uuid| #[trigger] base64url_encoded(uuid_bytes(u)) == s@ implies decoded matches Ok(v)
            && v@ == uuid_bytes(u) && be_value(v@) == u by {
            lemma_uuid_bytes_value(u);
        }
    }
    match decoded {
        Err(_) => Err(IdError::InvalidEncoding),
        Ok(bytes) => match uuid_from_bytes(bytes.as_slice()) {
            Some(u) => Ok(u),
            None => Err(IdError::InvalidLength),
        },
    }
}

/// What the base64url text of a UUID decodes to, per the decoder's outcome.
pub open spec fn uuid_decoding(s: Seq<char>) -> Result<Uuid, IdError> {
    match base64url_decoded(s) {
        None => Err(IdError::InvalidEncoding),
        Some(b) => if b.len() == 16 {
            Ok(be_value(b) as Uuid)
        } else {
            Err(IdError::InvalidLength)
        },
    }
}

/// Encoding of a UUID for file names and display.
pub trait AsBase64Url {
    /// The text that `as_base64url` gives.
    spec fn base64url_text(&self) -> Seq<char>;

    fn as_base64url(&self) -> (r: String)
        ensures
            r@ == self.base64url_text(),
    ;
}

impl AsBase64Url for Uuid {
    open spec fn base64url_text(&self) -> Seq<char> {
        base64url_encoded(uuid_bytes(*self))
    }

    fn as_base64url(&self) -> (r: String) {
        uuid_to_base64url(*self)
    }
}

/// Decoding of a UUID from its file-name and display form.
pub trait FromBase64Url: Sized {
    /// The outcome that `from_base64url` gives for a text.
    spec fn base64url_outcome(s: Seq<char>) -> Result<Self, IdError>;

    /// `s` is the text that encodes `x`.
    spec fn encodes(x: Self, s: Seq<char>) -> bool;

    fn from_base64url(s: &str) -> (r: Result<Self, IdError>)
        ensures
            r == Self::base64url_outcome(s@),
            forall|x: Self| #[trigger] Self::encodes(x, s@) ==> r == Ok::<Self, IdError>(x),
    ;
}

impl FromBase64Url for Uuid {
    open spec fn base64url_outcome(s: Seq<char>) -> Result<Uuid, IdError> {
        uuid_decoding(s)
    }

    open spec fn encodes(x: Uuid, s: Seq<char>) -> bool {
        base64url_encoded(uuid_bytes(x)) == s
    }

    fn from_base64url(s: &str) -> (r: Result<Uuid, IdError>) {
        uuid_from_base64url(s)
    }
}

} // verus!
