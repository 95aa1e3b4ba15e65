//! Identifiers of media files: random (version 4) UUIDs.

use uuid::Uuid;
use vstd::arithmetic::power2::pow2;
use vstd::prelude::*;

verus! {

/// `uuid::Error`: why a text is not a UUID.
#[verifier::external_type_specification]
#[verifier::external_body]
pub struct ExUuidError(uuid::Error);

/// The UUID that `Uuid::parse_str` reads from a text, as its 128-bit value,
/// or `None` where it refuses the text.
pub uninterp spec fn uuid_parse(text: Seq<char>) -> Option<u128>;

/// Lower-case hexadecimal digit for `d` (0..16).
pub open spec fn hex_char(d: int) -> char {
    if d < 10 {
        (48 + d) as char
    } else {
        (87 + d) as char
    }
}

/// Hex digit `i` (0 the most significant, 31 the least) of `v`.
pub open spec fn uuid_nibble(v: u128, i: int) -> int {
    (v as int / pow2((4 * (31 - i)) as nat) as int) % 16
}

/// The 32 lower-case hex digits of `v`, most significant first.
pub open spec fn uuid_hex(v: u128) -> Seq<char> {
    Seq::new(32, |i: int| hex_char(uuid_nibble(v, i)))
}

/// The hyphenated text of `v`: its hex digits in groups of 8, 4, 4, 4 and
/// 12, joined by `-`.
pub open spec fn uuid_text(v: u128) -> Seq<char> {
    let h = uuid_hex(v);
    h.subrange(0, 8) + seq!['-'] + h.subrange(8, 12) + seq!['-'] + h.subrange(12, 16) + seq!['-']
        + h.subrange(16, 20) + seq!['-'] + h.subrange(20, 32)
}

/// Whether `v` carries the version-4 and RFC 4122 variant bits.
pub open spec fn is_random_uuid(v: u128) -> bool {
    v & 0xF000_C000_0000_0000_0000u128 == 0x4000_8000_0000_0000_0000u128
}

/// Whether `r` is the value whose hyphenated text `text` is, where it is
/// such a text.
pub open spec fn reads_back(text: Seq<char>, r: Result<u128, uuid::Error>) -> bool {
    forall|v: u128| #[trigger] uuid_text(v) == text ==> r == Ok::<u128, uuid::Error>(v)
}

/// `Uuid::new_v4`: random bits with the version nibble set to 4 and the
/// variant bits to `10`. Which random value comes out is not stated.
#[verifier::external_body]
fn uuid_new_v4() -> (v: u128)
    ensures
        is_random_uuid(v),
{
    Uuid::new_v4().as_u128()
}

/// `Uuid::parse_str`: the value read from `text` (see `uuid_parse`); the
/// hyphenated text of a value, as `Uuid`'s `Display` writes it, is read
/// back as that value.
#[verifier::external_body]
fn uuid_parse_str(text: &str) -> (r: Result<u128, uuid::Error>)
    ensures
        r is Ok <==> uuid_parse(text@) is Some,
        r matches Ok(v) ==> uuid_parse(text@) == Some(v),
        reads_back(text@, r),
{
    match Uuid::parse_str(text) {
        Ok(u) => Ok(u.as_u128()),
        Err(e) => Err(e),
    }
}

/// `Uuid`'s `Display`: the hyphenated lower-case text of the value.
#[verifier::external_body]
fn uuid_to_text(v: u128) -> (s: String)
    ensures
        s@ == uuid_text(v),
{
    Uuid::from_u128(v).to_string()
}

/// Why a text is not a media identifier.
#[derive(Debug)]
pub enum MediaIdError {
    /// The text is not a UUID; the parser's own report.
    InvalidUuid(uuid::Error),
}

/// Unique identifier for a media file: a UUID, held as its 128-bit value.
#[derive(Debug, Clone, Copy, PartialEq, Eq, Hash, Structural)]
pub struct MediaId {
    value: u128,
}

impl View for MediaId {
    type V = u128;

    open spec fn view(&self) -> u128 {
        self.value_spec()
    }
}

impl MediaId {
    /// The UUID's 128-bit value.
    pub closed spec fn value_spec(&self) -> u128 {
        self.value
    }

    /// A fresh random identifier (a version-4 UUID).
    pub fn new() -> (id: Self)
        ensures
            is_random_uuid(id@),
    {
        MediaId { value: uuid_new_v4() }
    }

    /// The identifier that `s` writes as a UUID; the text `to_string` gives
    /// is read back as the same identifier.
    pub fn from_string(s: &str) -> (r: Result<Self, MediaIdError>)
        ensures
            r is Ok <==> uuid_parse(s@) is Some,
            r matches Ok(id) ==> uuid_parse(s@) == Some(id@),
            forall|v: u128| #[trigger] uuid_text(v) == s@ ==> (r matches Ok(id) && id@ == v),
    {
        match uuid_parse_str(s) {
            Ok(value) => Ok(MediaId { value }),
            Err(e) => Err(MediaIdError::InvalidUuid(e)),
        }
    }

    /// The hyphenated lower-case text of the UUID.
    pub fn to_string(&self) -> (s: String)
        ensures
            s@ == uuid_text(self@),
    {
        uuid_to_text(self.value)
    }

    /// The identifier whose UUID has the 128-bit value `value`.
    pub fn from_u128(value: u128) -> (id: Self)
        ensures
            id@ == value,
    {
        MediaId { value }
    }

    /// The UUID's 128-bit value.
    pub fn as_u128(&self) -> (v: u128)
        ensures
            v == self@,
    {
        self.value
    }
}

impl Default for MediaId {
    /// A fresh random identifier, as `MediaId::new` gives.
    fn default() -> (id: Self)
        ensures
            is_random_uuid(id@),
    {
        Self::new()
    }
}

} // verus!
