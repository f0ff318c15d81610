use vstd::prelude::*;

use crate::error::DomainError;

verus! {

/// `16^19`: hex digit 12 of a UUID (counted from 0, most significant
/// first), its version digit, is `(bits / version_unit()) % 16`.
pub open spec fn version_unit() -> int {
    0x1000_0000_0000_0000_0000
}

/// `4^31`: the two variant bits of a UUID are `(bits / variant_unit()) % 4`.
pub open spec fn variant_unit() -> int {
    0x4000_0000_0000_0000
}

/// The version number that a UUID's 128 bits carry (bits 76 to 79).
pub open spec fn version_num(bits: u128) -> int {
    (bits as int / version_unit()) % 16
}

/// The two variant bits of a UUID (bits 62 and 63).
pub open spec fn variant_bits(bits: u128) -> int {
    (bits as int / variant_unit()) % 4
}

/// The lower-case hex digit for `d`, where `0 <= d < 16`.
pub open spec fn hex_digit(d: int) -> char {
    if d < 10 {
        (48 + d) as char
    } else {
        (87 + d) as char
    }
}

/// Hex digit `i` (counted from the most significant, `0 <= i < 32`) of a
/// 128-bit value.
pub open spec fn nibble(bits: u128, i: int) -> int {
    (bits as int / vstd::arithmetic::power::pow(16, (31 - i) as nat)) % 16
}

/// Which of the 32 hex digits stands at position `j` of the hyphenated text.
pub open spec fn digit_at(j: int) -> int {
    if j < 8 {
        j
    } else if j < 13 {
        j - 1
    } else if j < 18 {
        j - 2
    } else if j < 23 {
        j - 3
    } else {
        j - 4
    }
}

/// Whether position `j` of the hyphenated text holds a hyphen.
pub open spec fn is_hyphen_at(j: int) -> bool {
    j == 8 || j == 13 || j == 18 || j == 23
}

/// The hyphenated lower-case text of a UUID: its 32 hex digits, most
/// significant first, in groups of 8, 4, 4, 4 and 12 joined by `-`.
pub open spec fn hyphenated(bits: u128) -> Seq<char> {
    Seq::new(36, |j: int| if is_hyphen_at(j) { '-' } else { hex_digit(nibble(bits, digit_at(j))) })
}

/// What `uuid::Uuid::parse_str` gives for a text, as the 128-bit value of
/// the UUID it reads, or `None` where it refuses the text.
pub uninterp spec fn uuid_parse(text: Seq<char>) -> Option<u128>;

/// Calls `uuid::Uuid::new_v4` and hands back its 128 bits. The source sets
/// the version digit to 4 and the two variant bits to `0b10`; the other bits
/// come from a random number generator, so nothing else is promised.
#[verifier::external_body]
fn uuid_new_v4() -> (bits: u128)
    ensures
        version_num(bits) == 4,
        variant_bits(bits) == 2,
{
    uuid::Uuid::new_v4().as_u128()
}

/// Calls `uuid::Uuid::from_u128(bits).to_string()`. Its `Display` writes the
/// hyphenated lower-case form, and `parse_str` reads that form back to the
/// same value, as the crate documents.
#[verifier::external_body]
fn uuid_to_string(bits: u128) -> (text: String)
    ensures
        text@ == hyphenated(bits),
        uuid_parse(text@) == Some(bits),
{
    uuid::Uuid::from_u128(bits).to_string()
}

/// Calls `uuid::Uuid::parse_str(text)`, handing back the 128 bits of the
/// UUID read or the crate's error. Which texts it accepts (the simple,
/// hyphenated, braced and URN forms) stands behind the name `uuid_parse`.
#[verifier::external_body]
fn uuid_parse_str(text: &str) -> (r: Result<u128, uuid::Error>)
    ensures
        r is Ok <==> uuid_parse(text@) is Some,
        r matches Ok(bits) ==> uuid_parse(text@) == Some(bits),
{
    match uuid::Uuid::parse_str(text) {
        Ok(u) => Ok(u.as_u128()),
        Err(e) => Err(e),
    }
}

/// The identifier of a conversation: a UUID, held as its 128 bits.
#[derive(Debug, Clone, Copy, PartialEq, Eq, Hash, Structural)]
pub struct ConversationId(u128);

impl ConversationId {
    /// The 128 bits of the identifier.
    pub closed spec fn bits(self) -> u128 {
        self.0
    }

    /// Makes a fresh random identifier: a version 4 UUID.
    pub fn generate() -> (id: Self)
        ensures
            version_num(id.bits()) == 4,
            variant_bits(id.bits()) == 2,
    {
        ConversationId(uuid_new_v4())
    }

    /// The identifier whose UUID has these 128 bits.
    pub fn from_u128(bits: u128) -> (id: Self)
        ensures
            id.bits() == bits,
    {
        ConversationId(bits)
    }

    /// The 128 bits of the identifier's UUID.
    pub fn as_u128(&self) -> (bits: u128)
        ensures
            bits == self.bits(),
    {
        self.0
    }

    /// The identifier's text: the hyphenated lower-case UUID, which `parse`
    /// reads back to the same identifier.
    pub fn into_string(&self) -> (text: String)
        ensures
            text@ == hyphenated(self.bits()),
            text@.len() == 36,
            uuid_parse(text@) == Some(self.bits()),
    {
        uuid_to_string(self.0)
    }

    /// Reads an identifier from a text in any form that the `uuid` crate
    /// accepts; fails with `DomainError::ConversationId` on any other text.
    pub fn parse(value: &str) -> (r: Result<Self, DomainError>)
        ensures
            r is Ok <==> uuid_parse(value@) is Some,
            r matches Ok(id) ==> uuid_parse(value@) == Some(id.bits()),
            r matches Err(e) ==> e is ConversationId,
    {
        Self::from_parse_result(uuid_parse_str(value))
    }

    /// Turns what the UUID parser gave into an identifier, or its error into
    /// `DomainError::ConversationId`.
    pub fn from_parse_result(parsed: Result<u128, uuid::Error>) -> (r: Result<Self, DomainError>)
        ensures
            match parsed {
                Ok(bits) => r matches Ok(id) && id.bits() == bits,
                Err(e) => r == Err::<Self, DomainError>(DomainError::ConversationId(e)),
            },
    {
        match parsed {
            Ok(bits) => Ok(ConversationId(bits)),
            Err(e) => Err(DomainError::ConversationId(e)),
        }
    }
}

/// Two identifiers with the same 128 bits are the same identifier.
pub proof fn lemma_same_bits_same_id(a: ConversationId, b: ConversationId)
    requires
        a.bits() == b.bits(),
    ensures
        a == b,
{
}

} // verus!
