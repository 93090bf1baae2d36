use vstd::prelude::*;
use vstd::string::{StrSliceExecFns, StringExecFns};
use vstd::utf8::{encode_utf8, encode_utf8_decode_utf8};

use crate::ident::{fresh_uuid, hex, is_random, uuid_digits};
use crate::text::joined;

verus! {

/// The header the operator CLI presents. A page in a browser cannot set it
/// without a preflight the daemon never answers, and a forwarded peer cannot
/// read the file it comes from.
pub const OPERATOR_TOKEN_HEADER: &'static str = "x-flanforge-operator-token";

/// The file the credential is kept in.
pub const TOKEN_FILE: &'static str = "operator.token";

/// A file in a directory, as a path: a separator goes between the two unless
/// the directory's path ends in one or is empty.
pub open spec fn path_in(directory: Seq<char>, file: Seq<char>) -> Seq<char> {
    if directory.len() == 0 || directory.last() == '/' {
        directory + file
    } else {
        directory + "/"@ + file
    }
}

/// Where the credential is kept under a state directory.
pub fn operator_token_path(state_dir: &str) -> (path: String)
    ensures
        path@ == path_in(state_dir@, TOKEN_FILE@),
{
    let len: usize = state_dir.unicode_len();
    if len == 0 || state_dir.get_char(len - 1) == '/' {
        return joined(state_dir, TOKEN_FILE);
    }
    let head: String = joined(state_dir, "/");
    joined(head.as_str(), TOKEN_FILE)
}

/// Compares without an early exit, so a wrong credential leaks no position. An
/// empty credential matches nothing.
pub fn is_token_match(presented: &str, expected: &str) -> (is: bool)
    ensures
        is == (presented@ == expected@ && expected@.len() > 0),
{
    proof {
        encode_utf8_decode_utf8(presented@);
        encode_utf8_decode_utf8(expected@);
        if expected@.len() == 0 {
            assert(encode_utf8(expected@) =~= Seq::<u8>::empty());
        } else if encode_utf8(expected@).len() == 0 {
            assert(encode_utf8(expected@) =~= encode_utf8(Seq::<char>::empty()));
            encode_utf8_decode_utf8(Seq::<char>::empty());
            assert(expected@ =~= Seq::<char>::empty());
        }
    }
    let left: &[u8] = presented.as_bytes();
    let right: &[u8] = expected.as_bytes();
    if left.len() != right.len() || right.len() == 0 {
        return false;
    }
    let mut difference: u8 = 0;
    let mut i: usize = 0;
    while i < right.len()
        invariant
            left@.len() == right@.len(),
            i <= right@.len(),
            difference == 0 <==> forall|k: int| 0 <= k < i ==> left@[k] == right@[k],
        decreases right@.len() - i,
    {
        let a: u8 = left[i];
        let b: u8 = right[i];
        let before: u8 = difference;
        difference = before | (a ^ b);
        assert((before | (a ^ b)) == 0 <==> before == 0 && a == b) by (bit_vector);
        i = i + 1;
    }
    proof {
        if difference == 0 {
            assert(left@ =~= right@);
        }
    }
    difference == 0
}

/// The characters that have the property `White_Space`.
pub open spec fn is_white(character: char) -> bool {
    let point = character as int;
    ||| 0x9 <= point <= 0xd
    ||| point == 0x20
    ||| point == 0x85
    ||| point == 0xa0
    ||| point == 0x1680
    ||| 0x2000 <= point <= 0x200a
    ||| 0x2028 <= point <= 0x2029
    ||| point == 0x202f
    ||| point == 0x205f
    ||| point == 0x3000
}

fn is_white_space(character: char) -> (is: bool)
    ensures
        is == is_white(character),
{
    let point: u32 = character as u32;
    (0x9 <= point && point <= 0xd) || point == 0x20 || point == 0x85 || point == 0xa0 || point
        == 0x1680 || (0x2000 <= point && point <= 0x200a) || (0x2028 <= point && point <= 0x2029)
        || point == 0x202f || point == 0x205f || point == 0x3000
}

/// A text without the white space at its end.
pub open spec fn trimmed_end(text: Seq<char>) -> Seq<char>
    decreases text.len(),
{
    if text.len() > 0 && is_white(text.last()) {
        trimmed_end(text.drop_last())
    } else {
        text
    }
}

/// A text without the white space at its start.
pub open spec fn trimmed_start(text: Seq<char>) -> Seq<char>
    decreases text.len(),
{
    if text.len() > 0 && is_white(text[0]) {
        trimmed_start(text.skip(1))
    } else {
        text
    }
}

/// The credential a token file holds: its text without white space around it,
/// unless nothing is left.
pub open spec fn token_in(text: Seq<char>) -> Option<Seq<char>> {
    let trimmed = trimmed_start(trimmed_end(text));
    if trimmed.len() == 0 {
        None
    } else {
        Some(trimmed)
    }
}

/// Reads the credential out of a token file's text.
pub fn read_token(text: &str) -> (token: Option<String>)
    ensures
        match token {
            Some(found) => token_in(text@) == Some(found@),
            None => token_in(text@) is None,
        },
{
    let mut end: usize = text.unicode_len();
    assert(text@.take(end as int) =~= text@);
    while end > 0 && is_white_space(text.get_char(end - 1))
        invariant
            end <= text@.len(),
            trimmed_end(text@.take(end as int)) == trimmed_end(text@),
        decreases end,
    {
        assert(text@.take(end as int).drop_last() =~= text@.take(end - 1));
        assert(text@.take(end as int).last() == text@[end - 1]);
        end = end - 1;
    }
    proof {
        if end > 0 {
            assert(text@.take(end as int).last() == text@[end - 1]);
        }
        assert(trimmed_end(text@) == text@.take(end as int));
    }
    let ghost kept: Seq<char> = text@.take(end as int);
    let mut start: usize = 0;
    assert(kept.skip(0) =~= kept);
    while start < end && is_white_space(text.get_char(start))
        invariant
            start <= end,
            end <= text@.len(),
            kept == text@.take(end as int),
            trimmed_start(kept.skip(start as int)) == trimmed_start(kept),
        decreases end - start,
    {
        assert(kept.skip(start as int).skip(1) =~= kept.skip(start + 1));
        assert(kept.skip(start as int)[0] == text@[start as int]);
        start = start + 1;
    }
    proof {
        if start < end {
            assert(kept.skip(start as int)[0] == text@[start as int]);
        }
        assert(trimmed_start(kept) == kept.skip(start as int));
        assert(kept.skip(start as int) =~= text@.subrange(start as int, end as int));
    }
    if start == end {
        return None;
    }
    Some(text.substring_char(start, end).to_owned())
}

/// A credential made of two UUIDs.
pub open spec fn token_of(first: u128, second: u128) -> Seq<char> {
    hex(first as nat, 32) + hex(second as nat, 32)
}

/// A credential made of two UUIDs: their digits, one after the other.
pub fn operator_token(first: u128, second: u128) -> (token: String)
    ensures
        token@ == token_of(first, second),
{
    let head: String = uuid_digits(first);
    let tail: String = uuid_digits(second);
    joined(head.as_str(), tail.as_str())
}

/// The host-only operator credential: the one the token file holds, or a new
/// one where it holds none, which then has to be written.
pub fn ensure_operator_token(held: Option<String>) -> (token: (String, bool))
    ensures
        held matches Some(found) ==> token.0 == found && !token.1,
        held is None ==> token.1 && exists|first: u128, second: u128|
            #![trigger is_random(first), is_random(second)]
            is_random(first) && is_random(second) && token.0@ == token_of(first, second),
{
    match held {
        Some(found) => (found, false),
        None => {
            let first: u128 = fresh_uuid();
            let second: u128 = fresh_uuid();
            let token: String = operator_token(first, second);
            assert(is_random(first) && is_random(second) && token@ == token_of(first, second));
            (token, true)
        },
    }
}

/// A new credential matches itself and no other: two of them match only where
/// both their UUIDs are the same.
pub proof fn law_tokens_match_only_themselves(a: u128, b: u128, c: u128, d: u128)
    ensures
        token_of(a, b).len() == 64,
        token_of(a, b) == token_of(c, d) ==> a == c && b == d,
{
    crate::ident::lemma_hex_len(a as nat, 32);
    crate::ident::lemma_hex_len(b as nat, 32);
    crate::ident::lemma_hex_len(c as nat, 32);
    crate::ident::lemma_hex_len(d as nat, 32);
    if token_of(a, b) == token_of(c, d) {
        assert(token_of(a, b).take(32) =~= hex(a as nat, 32));
        assert(token_of(c, d).take(32) =~= hex(c as nat, 32));
        assert(token_of(a, b).skip(32) =~= hex(b as nat, 32));
        assert(token_of(c, d).skip(32) =~= hex(d as nat, 32));
        crate::ident::law_distinct_uuids_read_distinct(a, c);
        crate::ident::law_distinct_uuids_read_distinct(b, d);
    }
}

/// The credential a file holds is what stands between the white space around it:
/// it begins and ends with none, nothing but white space was taken away, and where
/// nothing is left there is none.
pub proof fn law_credential_is_what_white_space_surrounds(text: Seq<char>)
    ensures
        token_in(text) matches Some(token) ==> {
            &&& token.len() > 0
            &&& !is_white(token[0])
            &&& !is_white(token.last())
            &&& exists|from: int, to: int|
                0 <= from <= to <= text.len() && token == #[trigger] text.subrange(from, to) && (
                forall|i: int| 0 <= i < from ==> is_white(#[trigger] text[i])) && (forall|i: int|
                    to <= i < text.len() ==> is_white(#[trigger] text[i]))
        },
        token_in(text) is None ==> forall|i: int|
            0 <= i < text.len() ==> is_white(#[trigger] text[i]),
{
    let to = lemma_trimmed_end(text);
    let middle = trimmed_end(text);
    let from = lemma_trimmed_start(middle);
    let token = trimmed_start(middle);
    assert(token =~= text.subrange(from, to));
    assert forall|i: int| 0 <= i < from implies is_white(#[trigger] text[i]) by {
        assert(is_white(middle[i]));
    }
    if token.len() > 0 {
        assert(token.last() == middle.last());
    } else {
        assert forall|i: int| 0 <= i < text.len() implies is_white(#[trigger] text[i]) by {
            if i < to {
                assert(is_white(middle[i]));
            }
        }
    }
}

proof fn lemma_trimmed_end(text: Seq<char>) -> (to: int)
    ensures
        0 <= to <= text.len(),
        trimmed_end(text) == text.take(to),
        to > 0 ==> !is_white(text[to - 1]),
        forall|i: int| to <= i < text.len() ==> is_white(#[trigger] text[i]),
    decreases text.len(),
{
    if text.len() > 0 && is_white(text.last()) {
        let rest = text.drop_last();
        let to = lemma_trimmed_end(rest);
        assert(rest.take(to) =~= text.take(to));
        assert forall|i: int| to <= i < text.len() implies is_white(#[trigger] text[i]) by {
            if i < rest.len() {
                assert(is_white(rest[i]));
            }
        }
        to
    } else {
        assert(text.take(text.len() as int) =~= text);
        text.len() as int
    }
}

proof fn lemma_trimmed_start(text: Seq<char>) -> (from: int)
    ensures
        0 <= from <= text.len(),
        trimmed_start(text) == text.skip(from),
        from < text.len() ==> !is_white(text[from]),
        forall|i: int| 0 <= i < from ==> is_white(#[trigger] text[i]),
    decreases text.len(),
{
    if text.len() > 0 && is_white(text[0]) {
        let rest = text.skip(1);
        let from = lemma_trimmed_start(rest);
        assert(rest.skip(from) =~= text.skip(from + 1));
        assert forall|i: int| 0 <= i < from + 1 implies is_white(#[trigger] text[i]) by {
            if i > 0 {
                assert(is_white(rest[i - 1]));
            }
        }
        from + 1
    } else {
        assert(text.skip(0) =~= text);
        0
    }
}

} // verus!
