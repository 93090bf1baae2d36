use vstd::prelude::*;
use vstd::string::{StrSliceExecFns, StringExecFns};

verus! {

/// The lexicographic order on texts, by code point; this is the order `str`
/// itself has, because UTF-8 preserves it.
pub open spec fn text_before(left: Seq<char>, right: Seq<char>) -> bool
    decreases left.len(),
{
    if right.len() == 0 {
        false
    } else if left.len() == 0 {
        true
    } else if left[0] != right[0] {
        (left[0] as int) < (right[0] as int)
    } else {
        text_before(left.skip(1), right.skip(1))
    }
}

pub proof fn lemma_text_before_irreflexive(text: Seq<char>)
    ensures
        !text_before(text, text),
    decreases text.len(),
{
    if text.len() > 0 {
        lemma_text_before_irreflexive(text.skip(1));
    }
}

pub proof fn lemma_text_before_transitive(a: Seq<char>, b: Seq<char>, c: Seq<char>)
    requires
        text_before(a, b),
        text_before(b, c),
    ensures
        text_before(a, c),
    decreases a.len(),
{
    if a.len() > 0 && a[0] == b[0] && b[0] == c[0] {
        lemma_text_before_transitive(a.skip(1), b.skip(1), c.skip(1));
    }
}

/// Two texts that neither order puts first are one text.
pub proof fn lemma_text_before_total(a: Seq<char>, b: Seq<char>)
    ensures
        text_before(a, b) || text_before(b, a) || a == b,
    decreases a.len(),
{
    if a.len() > 0 && b.len() > 0 {
        if a[0] == b[0] {
            lemma_text_before_total(a.skip(1), b.skip(1));
            if a.skip(1) == b.skip(1) {
                assert(a =~= seq![a[0]] + a.skip(1));
                assert(b =~= seq![b[0]] + b.skip(1));
            }
        }
    } else if a.len() == 0 && b.len() == 0 {
        assert(a =~= b);
    }
}

pub proof fn lemma_text_before_asymmetric(a: Seq<char>, b: Seq<char>)
    requires
        text_before(a, b),
    ensures
        !text_before(b, a),
{
    if text_before(b, a) {
        lemma_text_before_transitive(a, b, a);
        lemma_text_before_irreflexive(a);
    }
}

proof fn lemma_text_before_skip(left: Seq<char>, right: Seq<char>, i: int)
    requires
        0 <= i <= left.len(),
        i <= right.len(),
        left.take(i) == right.take(i),
    ensures
        text_before(left, right) == text_before(left.skip(i), right.skip(i)),
    decreases i,
{
    if i == 0 {
        assert(left.skip(0) =~= left);
        assert(right.skip(0) =~= right);
    } else {
        assert(left[0] == left.take(i)[0]);
        assert(right[0] == right.take(i)[0]);
        assert(left.skip(1).take(i - 1) =~= left.take(i).skip(1));
        assert(right.skip(1).take(i - 1) =~= right.take(i).skip(1));
        lemma_text_before_skip(left.skip(1), right.skip(1), i - 1);
        assert(left.skip(1).skip(i - 1) =~= left.skip(i));
        assert(right.skip(1).skip(i - 1) =~= right.skip(i));
    }
}

/// Is `left` ordered before `right`?
pub fn is_text_before(left: &str, right: &str) -> (before: bool)
    ensures
        before == text_before(left@, right@),
{
    let left_len: usize = left.unicode_len();
    let right_len: usize = right.unicode_len();
    let mut i: usize = 0;
    while i < left_len && i < right_len
        invariant
            left_len == left@.len(),
            right_len == right@.len(),
            i <= left_len,
            i <= right_len,
            left@.take(i as int) == right@.take(i as int),
        decreases left_len - i,
    {
        let a: char = left.get_char(i);
        let b: char = right.get_char(i);
        if a != b {
            proof {
                lemma_text_before_skip(left@, right@, i as int);
                assert(left@.skip(i as int)[0] == a);
                assert(right@.skip(i as int)[0] == b);
            }
            return (a as u32) < (b as u32);
        }
        proof {
            assert(left@.take(i + 1) =~= left@.take(i as int).push(a));
            assert(right@.take(i + 1) =~= right@.take(i as int).push(b));
        }
        i = i + 1;
    }
    proof {
        lemma_text_before_skip(left@, right@, i as int);
    }
    left_len < right_len
}

/// Does `text` begin with `prefix`?
pub fn has_prefix(text: &str, prefix: &str) -> (has: bool)
    ensures
        has == prefix@.is_prefix_of(text@),
{
    let text_len: usize = text.unicode_len();
    let prefix_len: usize = prefix.unicode_len();
    if prefix_len > text_len {
        return false;
    }
    let head: &str = text.substring_char(0, prefix_len);
    let mut i: usize = 0;
    while i < prefix_len
        invariant
            prefix_len == prefix@.len(),
            prefix_len <= text@.len(),
            head@ == text@.subrange(0, prefix_len as int),
            i <= prefix_len,
            forall|k: int| 0 <= k < i ==> head@[k] == prefix@[k],
        decreases prefix_len - i,
    {
        if head.get_char(i) != prefix.get_char(i) {
            assert(head@[i as int] != prefix@[i as int]);
            return false;
        }
        i = i + 1;
    }
    assert(prefix@ =~= text@.subrange(0, prefix_len as int));
    true
}

/// Do two texts hold the same characters?
pub fn is_same_text(left: &str, right: &str) -> (same: bool)
    ensures
        same == (left@ == right@),
{
    let left_len: usize = left.unicode_len();
    if left_len != right.unicode_len() {
        return false;
    }
    let same: bool = has_prefix(left, right);
    assert(left@.subrange(0, left@.len() as int) =~= left@);
    same
}

/// One decimal digit.
pub open spec fn digit(value: int) -> char {
    if value == 0 {
        '0'
    } else if value == 1 {
        '1'
    } else if value == 2 {
        '2'
    } else if value == 3 {
        '3'
    } else if value == 4 {
        '4'
    } else if value == 5 {
        '5'
    } else if value == 6 {
        '6'
    } else if value == 7 {
        '7'
    } else if value == 8 {
        '8'
    } else {
        '9'
    }
}

/// A number in decimal, without leading zeros.
pub open spec fn decimal(value: nat) -> Seq<char>
    decreases value,
{
    if value < 10 {
        seq![digit(value as int)]
    } else {
        decimal(value / 10).push(digit((value % 10) as int))
    }
}

fn digit_text(value: u64) -> (text: &'static str)
    requires
        value < 10,
    ensures
        text@ == seq![digit(value as int)],
{
    proof {
        reveal_strlit("0");
        reveal_strlit("1");
        reveal_strlit("2");
        reveal_strlit("3");
        reveal_strlit("4");
        reveal_strlit("5");
        reveal_strlit("6");
        reveal_strlit("7");
        reveal_strlit("8");
        reveal_strlit("9");
    }
    let text: &'static str = if value == 0 {
        "0"
    } else if value == 1 {
        "1"
    } else if value == 2 {
        "2"
    } else if value == 3 {
        "3"
    } else if value == 4 {
        "4"
    } else if value == 5 {
        "5"
    } else if value == 6 {
        "6"
    } else if value == 7 {
        "7"
    } else if value == 8 {
        "8"
    } else {
        "9"
    };
    assert(text@ =~= seq![digit(value as int)]);
    text
}

/// Writes a number in decimal.
pub fn decimal_text(value: u64) -> (text: String)
    ensures
        text@ == decimal(value as nat),
    decreases value,
{
    if value < 10 {
        return digit_text(value).to_owned();
    }
    let mut text: String = decimal_text(value / 10);
    let last: &'static str = digit_text(value % 10);
    text.append(last);
    assert(text@ =~= decimal((value / 10) as nat).push(digit((value % 10) as int)));
    text
}

/// `head` followed by `tail`.
pub fn joined(head: &str, tail: &str) -> (text: String)
    ensures
        text@ == head@ + tail@,
{
    let mut text: String = head.to_owned();
    text.append(tail);
    text
}

/// The order of texts is decided at the first place where they differ: by the
/// characters there, or by which text has ended. A text is not before itself.
pub proof fn law_first_difference_decides(left: Seq<char>, right: Seq<char>, k: int)
    requires
        0 <= k <= left.len(),
        k <= right.len(),
        left.take(k) == right.take(k),
        k < left.len() && k < right.len() ==> left[k] != right[k],
    ensures
        k < left.len() && k < right.len() ==> (text_before(left, right) <==> (left[k] as int) < (
        right[k] as int)),
        k == left.len() && k < right.len() ==> text_before(left, right),
        k == right.len() ==> !text_before(left, right),
{
    lemma_text_before_skip(left, right, k);
}

proof fn lemma_digit_distinct(a: int, b: int)
    requires
        0 <= a < 10,
        0 <= b < 10,
    ensures
        digit(a) == digit(b) ==> a == b,
        digit(a) != '-',
{
}

/// A number is written in digits alone, and no two numbers are written alike.
pub proof fn law_numbers_are_told_apart(a: nat, b: nat)
    ensures
        decimal(a).len() > 0,
        forall|i: int| 0 <= i < decimal(a).len() ==> #[trigger] decimal(a)[i] != '-',
        decimal(a) == decimal(b) ==> a == b,
    decreases a,
{
    lemma_digit_distinct((a % 10) as int, (b % 10) as int);
    if a < 10 {
        lemma_digit_distinct(a as int, (b % 10) as int);
        if b >= 10 {
            lemma_number_is_written(b / 10);
            assert(decimal(b).len() > 1);
        } else {
            lemma_digit_distinct(a as int, b as int);
            assert(decimal(a)[0] == digit(a as int));
            assert(decimal(b)[0] == digit(b as int));
        }
    } else {
        law_numbers_are_told_apart(a / 10, b / 10);
        let head = decimal(a / 10);
        assert forall|i: int| 0 <= i < decimal(a).len() implies #[trigger] decimal(a)[i] != '-' by {
            if i < head.len() {
                assert(decimal(a)[i] == head[i]);
            }
        }
        if decimal(a) == decimal(b) {
            if b < 10 {
                assert(decimal(a).len() > 1);
            } else {
                assert(decimal(a).drop_last() =~= head);
                assert(decimal(b).drop_last() =~= decimal(b / 10));
                assert(decimal(a).last() == digit((a % 10) as int));
                assert(decimal(b).last() == digit((b % 10) as int));
            }
        }
    }
}

proof fn lemma_number_is_written(a: nat)
    ensures
        decimal(a).len() > 0,
    decreases a,
{
}

} // verus!
