//! Identifiers of operations.

use uuid::Uuid;
use vstd::arithmetic::power2::pow2;
use vstd::prelude::*;

verus! {

/// The bits of a 128-bit identifier that hold its version and its variant.
pub const VERSION_AND_VARIANT_BITS: u128 = 0x0000_0000_0000_f000_c000_0000_0000_0000;

/// What those bits hold in a random identifier: version 4, variant 1.
pub const RANDOM_VERSION_AND_VARIANT: u128 = 0x0000_0000_0000_4000_8000_0000_0000_0000;

/// The lower-case hexadecimal digit for a value below sixteen.
pub open spec fn hex_char(nibble: int) -> char {
    seq!['0', '1', '2', '3', '4', '5', '6', '7', '8', '9', 'a', 'b', 'c', 'd', 'e', 'f'][nibble]
}

/// The `n`-th of the 32 hexadecimal digits of `value`, counted from the most
/// significant.
pub open spec fn nibble_at(value: u128, n: int) -> int {
    (value as int / pow2((4 * (31 - n)) as nat) as int) % 16
}

/// Which of the 32 digits stands at place `i` of the 36 places of the
/// hyphenated form.
pub open spec fn digit_index(i: int) -> int {
    if i < 8 {
        i
    } else if i < 13 {
        i - 1
    } else if i < 18 {
        i - 2
    } else if i < 23 {
        i - 3
    } else {
        i - 4
    }
}

/// The hyphenated form of an identifier: its 32 lower-case hexadecimal
/// digits, most significant first, in groups of 8, 4, 4, 4 and 12 with a
/// hyphen between them.
pub open spec fn hyphenated(value: u128) -> Seq<char> {
    Seq::new(
        36,
        |i: int|
            if i == 8 || i == 13 || i == 18 || i == 23 {
                '-'
            } else {
                hex_char(nibble_at(value, digit_index(i)))
            },
    )
}

/// Draws a random identifier with `Uuid::new_v4`, which fills 128 bits from
/// the system's random source and then sets the version to 4 and the variant
/// to 1.  It panics where the system has no random bytes to give.
#[verifier::external_body]
fn random_uuid() -> (value: u128)
    ensures
        value & VERSION_AND_VARIANT_BITS == RANDOM_VERSION_AND_VARIANT,
{
    Uuid::new_v4().as_u128()
}

/// Writes an identifier as `Uuid` displays it: in the hyphenated lower-case
/// form.
#[verifier::external_body]
fn uuid_text(value: u128) -> (text: String)
    ensures
        text@ == hyphenated(value),
{
    Uuid::from_u128(value).to_string()
}

/// The identifier of one operation of a session.
#[derive(Debug, Clone, Copy, PartialEq, Eq, Structural)]
pub struct OperationId(pub u128);

impl OperationId {
    /// Whether the identifier carries the marks of a random one.
    pub open spec fn is_random(&self) -> bool {
        self.0 & VERSION_AND_VARIANT_BITS == RANDOM_VERSION_AND_VARIANT
    }

    /// The identifier as text.
    pub open spec fn text(&self) -> Seq<char> {
        hyphenated(self.0)
    }

    /// A new random identifier.
    pub fn fresh() -> (id: OperationId)
        ensures
            id.is_random(),
    {
        OperationId(random_uuid())
    }

    /// The identifier as text.
    pub fn to_text(&self) -> (text: String)
        ensures
            text@ == self.text(),
            text@.len() == 36,
    {
        uuid_text(self.0)
    }
}

} // verus!
