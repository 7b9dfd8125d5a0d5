//! Identifiers used throughout the protocol.
use core::cmp::Ordering;
use uuid::Uuid;
use vstd::prelude::*;
use vstd::std_specs::cmp::PartialEqSpecImpl;
use vstd::std_specs::cmp::PartialOrdSpecImpl;

use crate::wire::{be128, be128_value, read_be128};

verus! {

/// The identity a client presents when it opens or resumes a session.
#[derive(Clone, Debug, Eq, Hash)]
pub struct ClientId(pub String);

/// Two client ids are equal when they hold the same text.
impl PartialEq for ClientId {
    fn eq(&self, other: &Self) -> (r: bool) {
        self.0 == other.0
    }
}

impl PartialEqSpecImpl for ClientId {
    open spec fn obeys_eq_spec() -> bool {
        true
    }

    open spec fn eq_spec(&self, other: &ClientId) -> bool {
        self.0@ == other.0@
    }
}

impl View for ClientId {
    type V = Seq<char>;

    open spec fn view(&self) -> Seq<char> {
        self.0@
    }
}

impl ClientId {
    pub fn new(value: &str) -> (id: Self)
        ensures
            id@ == value@,
    {
        ClientId(value.to_owned())
    }

    pub fn as_str(&self) -> (s: &str)
        ensures
            s@ == self@,
    {
        self.0.as_str()
    }
}

/// A session identifier: a UUID held as its 128-bit big-endian value.
#[derive(Clone, Copy, Debug, Eq, Hash, PartialEq, Structural)]
pub struct SessionId(pub u128);

impl View for SessionId {
    type V = u128;

    open spec fn view(&self) -> u128 {
        self.0
    }
}

/// Lower-case hexadecimal digit for a value below 16.
pub open spec fn hex_digit(v: u128) -> char {
    if v < 10 {
        (('0' as u32) + v) as char
    } else {
        (('a' as u32) + v - 10) as char
    }
}

/// The `i`-th hexadecimal digit of `x`, most significant first.
pub open spec fn nibble(x: u128, i: int) -> u128 {
    (x >> ((4 * (31 - i)) as u128)) & 0xf
}

/// The hyphenated lower-case text of a UUID with value `x`:
/// 32 hexadecimal digits, most significant first, with a hyphen after the
/// 8th, 12th, 16th and 20th digit.
pub open spec fn uuid_text(x: u128) -> Seq<char> {
    Seq::new(
        36,
        |k: int|
            if k == 8 || k == 13 || k == 18 || k == 23 {
                '-'
            } else {
                let i = if k < 8 {
                    k
                } else if k < 13 {
                    k - 1
                } else if k < 18 {
                    k - 2
                } else if k < 23 {
                    k - 3
                } else {
                    k - 4
                };
                hex_digit(nibble(x, i))
            },
    )
}

/// Draws a fresh version-4 UUID with `uuid::Uuid::new_v4` and returns its
/// value (`Uuid::as_u128`, big-endian).  The value is random: the contract
/// states only the version and variant bits that `new_v4` always sets.
#[verifier::external_body]
fn random_uuid_value() -> (v: u128)
    ensures
        (v >> 76u128) & 0xf == 4,
        (v >> 62u128) & 0x3 == 2,
{
    Uuid::new_v4().as_u128()
}

/// Formats a UUID value with `uuid::Uuid::from_u128` followed by its
/// `Display` impl, which writes the hyphenated lower-case form.
#[verifier::external_body]
fn uuid_to_text(v: u128) -> (s: String)
    ensures
        s@ == uuid_text(v),
{
    Uuid::from_u128(v).to_string()
}

impl SessionId {
    /// A fresh random (version 4) session identifier.
    pub fn new() -> (id: Self)
        ensures
            (id@ >> 76u128) & 0xf == 4,
            (id@ >> 62u128) & 0x3 == 2,
    {
        SessionId(random_uuid_value())
    }

    pub fn from_value(value: u128) -> (id: Self)
        ensures
            id@ == value,
    {
        SessionId(value)
    }

    pub fn get(&self) -> (v: u128)
        ensures
            v == self@,
    {
        self.0
    }

    /// The identifier whose UUID bytes (big-endian) are `bytes`.
    pub fn from_bytes(bytes: [u8; 16]) -> (id: Self)
        ensures
            id@ == be128_value(bytes@),
    {
        let s = bytes.as_slice();
        assert(s@.subrange(0, 16) =~= bytes@);
        SessionId(read_be128(s, 0))
    }

    /// The UUID bytes (big-endian) of this identifier.
    pub fn to_bytes(&self) -> (bytes: [u8; 16])
        ensures
            bytes@ == be128(self@),
    {
        let hi = (self.0 >> 64u128) as u64;
        let lo = self.0 as u64;
        let bytes = [
            (hi >> 56u64) as u8,
            (hi >> 48u64) as u8,
            (hi >> 40u64) as u8,
            (hi >> 32u64) as u8,
            (hi >> 24u64) as u8,
            (hi >> 16u64) as u8,
            (hi >> 8u64) as u8,
            hi as u8,
            (lo >> 56u64) as u8,
            (lo >> 48u64) as u8,
            (lo >> 40u64) as u8,
            (lo >> 32u64) as u8,
            (lo >> 24u64) as u8,
            (lo >> 16u64) as u8,
            (lo >> 8u64) as u8,
            lo as u8,
        ];
        assert(bytes@ =~= be128(self@));
        bytes
    }

    /// The hyphenated lower-case UUID text of this identifier.
    pub fn to_string(&self) -> (s: String)
        ensures
            s@ == uuid_text(self@),
    {
        uuid_to_text(self.0)
    }
}

impl Default for SessionId {
    /// A fresh random session identifier, as `SessionId::new`.
    fn default() -> (id: Self)
        ensures
            (id@ >> 76u128) & 0xf == 4,
            (id@ >> 62u128) & 0x3 == 2,
    {
        SessionId::new()
    }
}

#[derive(Clone, Copy, Debug, Eq, Hash, PartialEq, Structural)]
pub struct StreamId(pub u64);

impl View for StreamId {
    type V = u64;

    open spec fn view(&self) -> u64 {
        self.0
    }
}

impl StreamId {
    pub fn new(value: u64) -> (id: Self)
        ensures
            id@ == value,
    {
        StreamId(value)
    }

    pub fn get(&self) -> (v: u64)
        ensures
            v == self@,
    {
        self.0
    }
}

#[derive(Clone, Copy, Debug, Eq, Hash, PartialEq, Structural)]
pub struct FrameSeq(pub u64);

impl View for FrameSeq {
    type V = u64;

    open spec fn view(&self) -> u64 {
        self.0
    }
}

impl FrameSeq {
    pub fn new(value: u64) -> (s: Self)
        ensures
            s@ == value,
    {
        FrameSeq(value)
    }

    pub fn get(&self) -> (v: u64)
        ensures
            v == self@,
    {
        self.0
    }

    /// The following sequence number.
    pub fn next(self) -> (s: Self)
        requires
            self@ < u64::MAX,
        ensures
            s@ == self@ + 1,
    {
        FrameSeq(self.0 + 1)
    }
}

#[derive(Clone, Copy, Debug, Eq, Hash, PartialEq, Ord, Structural)]
pub struct LeaseEpoch(pub u64);

/// Lease epochs are ordered by their numbers.
impl PartialOrd for LeaseEpoch {
    fn partial_cmp(&self, other: &Self) -> (r: Option<Ordering>) {
        if self.0 < other.0 {
            Some(Ordering::Less)
        } else if self.0 == other.0 {
            Some(Ordering::Equal)
        } else {
            Some(Ordering::Greater)
        }
    }
}

impl PartialOrdSpecImpl for LeaseEpoch {
    open spec fn obeys_partial_cmp_spec() -> bool {
        true
    }

    open spec fn partial_cmp_spec(&self, other: &LeaseEpoch) -> Option<Ordering> {
        if self.0 < other.0 {
            Some(Ordering::Less)
        } else if self.0 == other.0 {
            Some(Ordering::Equal)
        } else {
            Some(Ordering::Greater)
        }
    }
}

impl View for LeaseEpoch {
    type V = u64;

    open spec fn view(&self) -> u64 {
        self.0
    }
}

impl LeaseEpoch {
    pub fn new(value: u64) -> (e: Self)
        ensures
            e@ == value,
    {
        LeaseEpoch(value)
    }

    pub fn get(&self) -> (v: u64)
        ensures
            v == self@,
    {
        self.0
    }
}

} // verus!

verus! {

/// `a` comes strictly before `b` in lexicographic (code point) order; both
/// have the same length.
pub open spec fn text_before(a: Seq<char>, b: Seq<char>) -> bool {
    exists|k: int|
        0 <= k < a.len() && k < b.len() && (forall|j: int| 0 <= j < k ==> a[j] == b[j]) && (
        a[k] as u32) < (b[k] as u32)
}

proof fn lemma_first_differing_nibble(x: u128, y: u128, s: u128)
    by (bit_vector)
    requires
        s <= 120,
        x >> (s + 4) == y >> (s + 4),
        x >> s != y >> s,
        x < y,
    ensures
        (x >> s) & 0xf < (y >> s) & 0xf,
{
}

proof fn lemma_top_nibble(x: u128, y: u128)
    by (bit_vector)
    requires
        x >> 124u128 != y >> 124u128,
        x < y,
    ensures
        (x >> 124u128) & 0xf < (y >> 124u128) & 0xf,
{
}

/// The shift that brings the `i`-th hexadecimal digit (most significant
/// first) of a 128-bit value down to the lowest four bits.
pub open spec fn digit_shift(i: int) -> u128 {
    (4 * (31 - i)) as u128
}

/// Where the `i`-th hexadecimal digit stands in the hyphenated text.
pub open spec fn digit_position(i: int) -> int {
    if i < 8 {
        i
    } else if i < 12 {
        i + 1
    } else if i < 16 {
        i + 2
    } else if i < 20 {
        i + 3
    } else {
        i + 4
    }
}

proof fn lemma_hex_digit_order(v: u128, w: u128)
    requires
        v < w < 16,
    ensures
        (hex_digit(v) as u32) < (hex_digit(w) as u32),
{
}

proof fn lemma_first_difference(x: u128, y: u128, i: int) -> (r: int)
    requires
        0 <= i <= 31,
        x != y,
        forall|j: int| 0 <= j < i ==> #[trigger] (x >> digit_shift(j)) == y >> digit_shift(j),
    ensures
        i <= r <= 31,
        x >> digit_shift(r) != y >> digit_shift(r),
        forall|j: int| 0 <= j < r ==> #[trigger] (x >> digit_shift(j)) == y >> digit_shift(j),
    decreases 32 - i,
{
    if x >> digit_shift(i) != y >> digit_shift(i) {
        i
    } else if i == 31 {
        assert(digit_shift(31) == 0);
        assert(x >> 0u128 == x && y >> 0u128 == y) by (bit_vector);
        i
    } else {
        lemma_first_difference(x, y, i + 1)
    }
}

/// Hyphenated UUID text orders as the UUID values do: a smaller value has
/// a text that comes first in lexicographic order, so ordering identifiers
/// by value and by text agree.
pub proof fn lemma_uuid_text_order(x: u128, y: u128)
    requires
        x < y,
    ensures
        text_before(uuid_text(x), uuid_text(y)),
{
    let r = lemma_first_difference(x, y, 0);
    if r == 0 {
        assert(digit_shift(0) == 124);
        lemma_top_nibble(x, y);
    } else {
        assert(digit_shift(r) + 4 == digit_shift(r - 1));
        assert(x >> digit_shift(r - 1) == y >> digit_shift(r - 1));
        lemma_first_differing_nibble(x, y, digit_shift(r));
    }
    let sh = digit_shift(r);
    assert((y >> sh) & 0xf < 16) by (bit_vector);
    assert(nibble(x, r) < nibble(y, r) < 16);
    lemma_hex_digit_order(nibble(x, r), nibble(y, r));
    let tx = uuid_text(x);
    let ty = uuid_text(y);
    let k = digit_position(r);
    assert(tx[k] == hex_digit(nibble(x, r)));
    assert(ty[k] == hex_digit(nibble(y, r)));
    assert forall|j: int| 0 <= j < k implies tx[j] == ty[j] by {
        if !(j == 8 || j == 13 || j == 18 || j == 23) {
            let d = if j < 8 {
                j
            } else if j < 13 {
                j - 1
            } else if j < 18 {
                j - 2
            } else if j < 23 {
                j - 3
            } else {
                j - 4
            };
            assert(0 <= d < r);
            assert(x >> digit_shift(d) == y >> digit_shift(d));
            assert(nibble(x, d) == nibble(y, d));
        }
    }
}

} // verus!
