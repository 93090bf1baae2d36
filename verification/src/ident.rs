use vstd::prelude::*;

verus! {

/// One hexadecimal digit, in lower case.
pub open spec fn hex_digit(value: int) -> char {
    if value < 10 {
        crate::text::digit(value)
    } else if value == 10 {
        'a'
    } else if value == 11 {
        'b'
    } else if value == 12 {
        'c'
    } else if value == 13 {
        'd'
    } else if value == 14 {
        'e'
    } else {
        'f'
    }
}

/// The last `count` hexadecimal digits of a number, the highest first.
pub open spec fn hex(value: nat, count: nat) -> Seq<char>
    decreases count,
{
    if count == 0 {
        Seq::empty()
    } else {
        hex(value / 16, (count - 1) as nat).push(hex_digit((value % 16) as int))
    }
}

/// A UUID in its hyphenated form: groups of 8, 4, 4, 4 and 12 digits.
pub open spec fn hyphenated(value: u128) -> Seq<char> {
    let digits = hex(value as nat, 32);
    digits.subrange(0, 8) + seq!['-'] + digits.subrange(8, 12) + seq!['-'] + digits.subrange(12, 16)
        + seq!['-'] + digits.subrange(16, 20) + seq!['-'] + digits.subrange(20, 32)
}

/// Is this a random UUID? Its version reads 4 and its variant is the common one.
pub open spec fn is_random(value: u128) -> bool {
    &&& value / 75_557_863_725_914_323_419_136 % 16 == 4
    &&& value / 4_611_686_018_427_387_904 % 4 == 2
}

/// `uuid::Uuid::new_v4`, as the number the UUID is. Claimed of it: the four
/// version bits read 4 and the two variant bits read binary 10; the other bits
/// are random. It panics where the operating system gives no random bytes,
/// which no caller can foresee.
#[verifier::external_body]
fn random_uuid() -> (value: u128)
    ensures
        is_random(value),
{
    uuid::Uuid::new_v4().as_u128()
}

/// `uuid::Uuid`'s display form of a number. Claimed of it: the 32 digits in
/// lower case, in five groups with hyphens between them.
#[verifier::external_body]
fn uuid_display(value: u128) -> (text: String)
    ensures
        text@ == hyphenated(value),
{
    uuid::Uuid::from_u128(value).to_string()
}

/// `uuid::Uuid::simple`'s display form of a number. Claimed of it: the 32
/// digits in lower case and nothing else.
#[verifier::external_body]
fn uuid_simple(value: u128) -> (text: String)
    ensures
        text@ == hex(value as nat, 32),
{
    uuid::Uuid::from_u128(value).simple().to_string()
}

/// A UUID drawn at random.
pub fn fresh_uuid() -> (value: u128)
    ensures
        is_random(value),
{
    random_uuid()
}

/// A UUID in its hyphenated form.
pub fn uuid_text(value: u128) -> (text: String)
    ensures
        text@ == hyphenated(value),
{
    uuid_display(value)
}

/// A UUID as its digits alone.
pub fn uuid_digits(value: u128) -> (text: String)
    ensures
        text@ == hex(value as nat, 32),
{
    uuid_simple(value)
}

/// A number's digits are as many as were asked for.
pub proof fn lemma_hex_len(value: nat, count: nat)
    ensures
        hex(value, count).len() == count,
    decreases count,
{
    if count > 0 {
        lemma_hex_len(value / 16, (count - 1) as nat);
    }
}

/// Two numbers that read the same are the same, as far as the digits go.
proof fn lemma_hex_injective(left: nat, right: nat, count: nat)
    requires
        hex(left, count) == hex(right, count),
        left < hex_bound(count),
        right < hex_bound(count),
    ensures
        left == right,
    decreases count,
{
    if count > 0 {
        let before = (count - 1) as nat;
        lemma_hex_len(left / 16, before);
        lemma_hex_len(right / 16, before);
        assert(hex(left, count).last() == hex_digit((left % 16) as int));
        assert(hex(right, count).last() == hex_digit((right % 16) as int));
        assert(hex(left, count).drop_last() =~= hex(left / 16, before));
        assert(hex(right, count).drop_last() =~= hex(right / 16, before));
        lemma_hex_injective(left / 16, right / 16, before);
    }
}

/// The first number too large for this many digits.
pub open spec fn hex_bound(count: nat) -> nat
    decreases count,
{
    if count == 0 {
        1
    } else {
        16 * hex_bound((count - 1) as nat)
    }
}

/// Two UUIDs that read the same are one UUID, in either form.
pub proof fn law_distinct_uuids_read_distinct(left: u128, right: u128)
    ensures
        hyphenated(left) == hyphenated(right) ==> left == right,
        hex(left as nat, 32) == hex(right as nat, 32) ==> left == right,
{
    let a = hex(left as nat, 32);
    let b = hex(right as nat, 32);
    lemma_hex_len(left as nat, 32);
    lemma_hex_len(right as nat, 32);
    assert(hex_bound(32) == 340_282_366_920_938_463_463_374_607_431_768_211_456) by {
        reveal_with_fuel(hex_bound, 33);
    }
    if hyphenated(left) == hyphenated(right) {
        assert forall|i: int| 0 <= i < 32 implies a[i] == b[i] by {
            let at = if i < 8 {
                i
            } else if i < 12 {
                i + 1
            } else if i < 16 {
                i + 2
            } else if i < 20 {
                i + 3
            } else {
                i + 4
            };
            assert(hyphenated(left)[at] == a[i]);
            assert(hyphenated(right)[at] == b[i]);
        }
        assert(a =~= b);
    }
    if a == b {
        lemma_hex_injective(left as nat, right as nat, 32);
    }
}

} // verus!
