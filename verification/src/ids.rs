//! Identifiers of entities and sessions.

use vstd::prelude::*;

verus! {

/// Identifies an entity of the orchestration domain: the 128 bits of a UUID.
#[derive(Clone, Copy, Debug, PartialEq, Eq, Hash, Structural)]
pub struct EntityId {
    pub value: u128,
}

/// Identifies a child process that the supervisor owns.
pub type SessionId = EntityId;

/// The hexadecimal digit of `value` at `place`, counted from the least significant one.
pub open spec fn hex_place(value: nat, place: nat) -> nat
    decreases place,
{
    if place == 0 {
        value % 16
    } else {
        hex_place(value / 16, (place - 1) as nat)
    }
}

/// How many hyphens stand before position `i` of a hyphenated identifier.
pub open spec fn hyphens_before(i: int) -> int {
    if i <= 8 {
        0
    } else if i <= 13 {
        1
    } else if i <= 18 {
        2
    } else if i <= 23 {
        3
    } else {
        4
    }
}

/// The identifier as 32 lower-case hexadecimal digits in groups of 8, 4, 4, 4 and 12, with
/// hyphens between the groups.
pub open spec fn hyphenated(value: u128) -> Seq<char> {
    Seq::new(
        36,
        |i: int|
            if i == 8 || i == 13 || i == 18 || i == 23 {
                '-'
            } else {
                crate::text::digit(
                    hex_place(value as nat, (31 - (i - hyphens_before(i))) as nat) as int,
                )
            },
    )
}

/// The identifier carries version 4 and the RFC variant in its bits, as random ones do.
pub open spec fn is_version_four(value: u128) -> bool {
    hex_place(value as nat, 19) == 4 && 8 <= hex_place(value as nat, 15) <= 11
}

/// Formats the identifier through [`uuid::Uuid`]: `from_u128` takes the 128 bits in big-endian
/// order, and `to_string` writes the hyphenated form in lower case.
#[verifier::external_body]
fn uuid_text(value: u128) -> (r: String)
    ensures
        r@ == hyphenated(value),
{
    uuid::Uuid::from_u128(value).to_string()
}

/// Draws a random identifier through [`uuid::Uuid::new_v4`]. Every outcome carries version 4
/// and the RFC variant in its bits; nothing else is known of it.
#[verifier::external_body]
fn random_uuid() -> (value: u128)
    ensures
        is_version_four(value),
{
    uuid::Uuid::new_v4().as_u128()
}

impl EntityId {
    /// The hyphenated form of the identifier.
    pub fn text(&self) -> (r: String)
        ensures
            r@ == hyphenated(self.value),
    {
        uuid_text(self.value)
    }

    /// A fresh random identifier, of UUID version 4.
    pub fn random() -> (id: EntityId)
        ensures
            is_version_four(id.value),
    {
        EntityId { value: random_uuid() }
    }
}

/// The first `width` hexadecimal places of `a` and `b` are the same.
spec fn same_places(a: nat, b: nat, width: nat) -> bool {
    forall|place: nat| place < width ==> #[trigger] hex_place(a, place) == hex_place(b, place)
}

/// 16 to the power of `n`.
spec fn sixteen_to(n: nat) -> nat
    decreases n,
{
    if n == 0 {
        1
    } else {
        16 * sixteen_to((n - 1) as nat)
    }
}

proof fn lemma_same_places_same_value(a: nat, b: nat, width: nat)
    requires
        a < sixteen_to(width),
        b < sixteen_to(width),
        same_places(a, b, width),
    ensures
        a == b,
    decreases width,
{
    if width > 0 {
        assert(hex_place(a, 0) == hex_place(b, 0));
        assert forall|place: nat| place < width - 1 implies #[trigger] hex_place(a / 16, place)
            == hex_place(b / 16, place) by {
            assert(hex_place(a, (place + 1) as nat) == hex_place(b, (place + 1) as nat));
        }
        lemma_same_places_same_value(a / 16, b / 16, (width - 1) as nat);
    }
}

proof fn lemma_hex_place_is_digit(value: nat, place: nat)
    ensures
        hex_place(value, place) < 16,
    decreases place,
{
    if place > 0 {
        lemma_hex_place_is_digit(value / 16, (place - 1) as nat);
    }
}

/// Different identifiers have different texts.
pub proof fn hyphenated_is_injective(a: u128, b: u128)
    requires
        hyphenated(a) == hyphenated(b),
    ensures
        a == b,
{
    assert forall|place: nat| place < 32 implies #[trigger] hex_place(a as nat, place) == hex_place(
        b as nat,
        place,
    ) by {
        let h = 31 - place;
        let i = h + (if h < 8 {
            0int
        } else if h < 12 {
            1
        } else if h < 16 {
            2
        } else if h < 20 {
            3
        } else {
            4
        });
        lemma_hex_place_is_digit(a as nat, place);
        lemma_hex_place_is_digit(b as nat, place);
        assert(31 - (i - hyphens_before(i)) == place);
        assert(hyphenated(a)[i] == crate::text::digit(hex_place(a as nat, place) as int));
        assert(hyphenated(b)[i] == crate::text::digit(hex_place(b as nat, place) as int));
    }
    assert(sixteen_to(32) == 0x1_0000_0000_0000_0000_0000_0000_0000_0000) by {
        reveal_with_fuel(sixteen_to, 33);
    }
    lemma_same_places_same_value(a as nat, b as nat, 32);
}

proof fn lemma_places_read_back(value: nat, width: nat)
    ensures
        crate::text::number_of(places(value, width), 16) == value as int
            % vstd::arithmetic::power::pow(16, width),
    decreases width,
{
    reveal(vstd::arithmetic::power::pow);
    vstd::arithmetic::power::lemma_pow_positive(16, width);
    if width > 0 {
        let w = (width - 1) as nat;
        lemma_places_read_back(value / 16, w);
        vstd::arithmetic::power::lemma_pow_positive(16, w);
        vstd::arithmetic::div_mod::lemma_mod_breakdown(
            value as int,
            16,
            vstd::arithmetic::power::pow(16, w),
        );
        assert(places(value, width).drop_last() =~= places(value / 16, w));
        assert(places(value, width).last() == crate::text::digit((value % 16) as int));
    }
}

/// The last `width` hexadecimal digits of the value.
spec fn places(value: nat, width: nat) -> Seq<char> {
    Seq::new(
        width,
        |h: int| crate::text::digit(hex_place(value, (width - 1 - h) as nat) as int),
    )
}

/// An identifier's text is groups of 8, 4, 4, 4 and 12 hexadecimal digits with hyphens between
/// them, and the digits read back as the identifier's value.
pub proof fn hyphenated_reads_back(value: u128)
    ensures
        ({
            let text = hyphenated(value);
            let digits = text.take(8) + text.subrange(9, 13) + text.subrange(14, 18)
                + text.subrange(19, 23) + text.subrange(24, 36);
            &&& text.len() == 36
            &&& text[8] == '-' && text[13] == '-' && text[18] == '-' && text[23] == '-'
            &&& crate::text::are_digits(digits, 16)
            &&& crate::text::number_of(digits, 16) == value
        }),
{
    let text = hyphenated(value);
    let digits = text.take(8) + text.subrange(9, 13) + text.subrange(14, 18) + text.subrange(19, 23)
        + text.subrange(24, 36);
    assert(digits =~= places(value as nat, 32));
    lemma_places_read_back(value as nat, 32);
    assert(vstd::arithmetic::power::pow(16, 32) == 0x1_0000_0000_0000_0000_0000_0000_0000_0000)
        by {
        reveal_with_fuel(vstd::arithmetic::power::pow, 33);
    }
    assert forall|i: int| 0 <= i < digits.len() implies ('0' <= #[trigger] digits[i] <= '9' || 'a'
        <= digits[i] <= 'f') && crate::text::digit_value(digits[i]) < 16 by {
        lemma_hex_place_is_digit(value as nat, (31 - i) as nat);
    }
}

proof fn lemma_hex_place_is_quotient(value: nat, place: nat)
    ensures
        hex_place(value, place) == (value as int / vstd::arithmetic::power::pow(16, place)) % 16,
    decreases place,
{
    reveal(vstd::arithmetic::power::pow);
    vstd::arithmetic::power::lemma_pow_positive(16, place);
    if place > 0 {
        let p = (place - 1) as nat;
        lemma_hex_place_is_quotient(value / 16, p);
        vstd::arithmetic::power::lemma_pow_positive(16, p);
        vstd::arithmetic::div_mod::lemma_div_denominator(
            value as int,
            16,
            vstd::arithmetic::power::pow(16, p),
        );
    }
}

/// The version of a random identifier is the digit of worth 16 to the power of 19, which is four,
/// and its variant the digit of worth 16 to the power of 15, which is from eight to eleven.
pub proof fn version_four_is_in_the_digits(value: u128)
    ensures
        is_version_four(value) <==> {
            &&& (value as int / vstd::arithmetic::power::pow(16, 19)) % 16 == 4
            &&& 8 <= (value as int / vstd::arithmetic::power::pow(16, 15)) % 16 <= 11
        },
{
    lemma_hex_place_is_quotient(value as nat, 19);
    lemma_hex_place_is_quotient(value as nat, 15);
}

} // verus!
