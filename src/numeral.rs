use vstd::prelude::*;
use crate::decimal::{is_canonical, lemma_canonical_bounds, pow10, value_le};
use crate::error::WenyanIntErrorKind;

verus! {

/// The negative sign.
pub const NEGATIVE_SIGN: char = '負';

/// The tens marker, read as a separator that carries no digit.
pub const TENS_MARKER: char = '十';

/// The digit that a character stands for, if it is one of 零 to 九.
pub open spec fn digit_value(c: char) -> Option<u8> {
    if c == '零' {
        Some(0u8)
    } else if c == '一' {
        Some(1u8)
    } else if c == '二' {
        Some(2u8)
    } else if c == '三' {
        Some(3u8)
    } else if c == '四' {
        Some(4u8)
    } else if c == '五' {
        Some(5u8)
    } else if c == '六' {
        Some(6u8)
    } else if c == '七' {
        Some(7u8)
    } else if c == '八' {
        Some(8u8)
    } else if c == '九' {
        Some(9u8)
    } else {
        None
    }
}

pub open spec fn is_digit(c: char) -> bool {
    digit_value(c) is Some
}

pub open spec fn is_nonzero_digit(c: char) -> bool {
    digit_value(c) matches Some(d) && d > 0
}

/// The characters that a numeral may hold.
pub open spec fn in_vocabulary(c: char) -> bool {
    c == NEGATIVE_SIGN || c == TENS_MARKER || is_digit(c)
}

/// A negative sign stands somewhere before position `i`.
pub open spec fn sign_before(s: Seq<char>, i: int) -> bool {
    exists|j: int| 0 <= j < i && #[trigger] s[j] == NEGATIVE_SIGN
}

/// A nonzero digit stands somewhere before position `i`.
pub open spec fn nonzero_digit_before(s: Seq<char>, i: int) -> bool {
    exists|j: int| 0 <= j < i && #[trigger] is_nonzero_digit(s[j])
}

/// A zero at position `i` is accepted only as the sole digit of the numeral:
/// no nonzero digit before it, and nothing after it.
pub open spec fn misplaced_zero(s: Seq<char>, i: int) -> bool {
    &&& s[i] == '零'
    &&& (nonzero_digit_before(s, i) || i + 1 < s.len())
}

/// The character at position `i` makes the text fail.
pub open spec fn faulty_at(s: Seq<char>, i: int) -> bool {
    ||| !in_vocabulary(s[i])
    ||| s[i] == NEGATIVE_SIGN && sign_before(s, i)
    ||| misplaced_zero(s, i)
}

/// Position `i` is the first that makes the text fail.
pub open spec fn is_first_fault(s: Seq<char>, i: int) -> bool {
    &&& 0 <= i < s.len()
    &&& faulty_at(s, i)
    &&& forall|j: int| 0 <= j < i ==> !#[trigger] faulty_at(s, j)
}

pub open spec fn first_fault(s: Seq<char>) -> Option<int> {
    if exists|i: int| is_first_fault(s, i) {
        Some(choose|i: int| is_first_fault(s, i))
    } else {
        None
    }
}

/// The error that a failing character gives.
pub open spec fn fault_kind(c: char) -> WenyanIntErrorKind {
    if c == NEGATIVE_SIGN {
        WenyanIntErrorKind::RedundantSign
    } else {
        WenyanIntErrorKind::InvalidDigit
    }
}

pub open spec fn has_digit(s: Seq<char>) -> bool {
    exists|j: int| 0 <= j < s.len() && #[trigger] is_digit(s[j])
}

/// The nonzero digits of the text in the order read, which is also the
/// order of their decimal places: the first one read is the units digit.
pub open spec fn nonzero_digits(s: Seq<char>) -> Seq<u8>
    decreases s.len(),
{
    if s.len() == 0 {
        Seq::empty()
    } else if is_nonzero_digit(s.last()) {
        nonzero_digits(s.drop_last()).push(digit_value(s.last())->0)
    } else {
        nonzero_digits(s.drop_last())
    }
}

/// The integer that a text without faults denotes.
pub open spec fn numeral_value(s: Seq<char>) -> int {
    let magnitude = value_le(nonzero_digits(s)) as int;
    if sign_before(s, s.len() as int) {
        -magnitude
    } else {
        magnitude
    }
}

/// What reading the text gives: the error of its first faulty character;
/// else, where it holds no digit, an empty-input error; else its value.
pub open spec fn parse_outcome(s: Seq<char>) -> Result<int, WenyanIntErrorKind> {
    match first_fault(s) {
        Some(i) => Err(fault_kind(s[i])),
        None => if has_digit(s) {
            Ok(numeral_value(s))
        } else {
            Err(WenyanIntErrorKind::Empty)
        },
    }
}

/// The first faulty position is the only one.
pub proof fn lemma_first_fault_is(s: Seq<char>, i: int)
    requires
        is_first_fault(s, i),
    ensures
        first_fault(s) == Some(i),
{
    let k = choose|k: int| is_first_fault(s, k);
    assert(is_first_fault(s, k));
    if k < i {
        assert(!faulty_at(s, k));
    } else if k > i {
        assert(!faulty_at(s, i));
    }
}

/// A text in which no position is faulty has no first fault.
pub proof fn lemma_no_fault(s: Seq<char>)
    requires
        forall|j: int| 0 <= j < s.len() ==> !#[trigger] faulty_at(s, j),
    ensures
        first_fault(s) is None,
{
}

/// The nonzero digits of a one-character text.
proof fn lemma_nonzero_digits_single(c: char)
    ensures
        nonzero_digits(seq![c]) == (if is_nonzero_digit(c) {
            seq![digit_value(c)->0]
        } else {
            Seq::<u8>::empty()
        }),
{
    let s = seq![c];
    assert(s.drop_last() =~= Seq::<char>::empty());
    assert(nonzero_digits(Seq::<char>::empty()) == Seq::<u8>::empty());
    if is_nonzero_digit(c) {
        assert(Seq::<u8>::empty().push(digit_value(c)->0) =~= seq![digit_value(c)->0]);
    }
}

/// A single digit reads as its own value.
pub proof fn lemma_single_digit(c: char)
    requires
        is_digit(c),
    ensures
        parse_outcome(seq![c]) == Ok::<int, WenyanIntErrorKind>(digit_value(c)->0 as int),
{
    let s = seq![c];
    assert(!faulty_at(s, 0));
    lemma_no_fault(s);
    assert(is_digit(s[0]));
    assert(!sign_before(s, 1));
    lemma_nonzero_digits_single(c);
    assert(value_le(Seq::<u8>::empty()) == 0);
    let d = digit_value(c)->0;
    assert(seq![d].drop_first() =~= Seq::<u8>::empty());
    assert(value_le(seq![d]) == d);
}

/// A nonzero digit after the negative sign reads as the negation of the
/// digit read alone.
pub proof fn lemma_negated_digit(c: char)
    requires
        is_nonzero_digit(c),
    ensures
        parse_outcome(seq![c]) matches Ok(v) && parse_outcome(seq![NEGATIVE_SIGN, c]) == Ok::<
            int,
            WenyanIntErrorKind,
        >(-v),
{
    lemma_single_digit(c);
    let s = seq![NEGATIVE_SIGN, c];
    assert(!sign_before(s, 0));
    assert(!faulty_at(s, 0));
    assert(!faulty_at(s, 1));
    lemma_no_fault(s);
    assert(is_digit(s[1]));
    assert(s[0] == NEGATIVE_SIGN);
    assert(sign_before(s, 2));
    assert(s.drop_last() =~= seq![NEGATIVE_SIGN]);
    lemma_nonzero_digits_single(NEGATIVE_SIGN);
    lemma_nonzero_digits_single(c);
    assert(Seq::<u8>::empty().push(digit_value(c)->0) =~= seq![digit_value(c)->0]);
}

/// A faulty position means there is a first one.
proof fn lemma_fault_has_first(s: Seq<char>, i: int)
    requires
        0 <= i < s.len(),
        faulty_at(s, i),
    ensures
        first_fault(s) is Some,
    decreases i,
{
    if exists|j: int| 0 <= j < i && #[trigger] faulty_at(s, j) {
        let j = choose|j: int| 0 <= j < i && #[trigger] faulty_at(s, j);
        lemma_fault_has_first(s, j);
    } else {
        assert(is_first_fault(s, i));
    }
}

/// Each position of a text without a sign behaves the same one place
/// further on, behind a negative sign.
proof fn lemma_signed_position(t: Seq<char>, j: int)
    requires
        !sign_before(t, t.len() as int),
        0 <= j < t.len(),
    ensures
        (seq![NEGATIVE_SIGN] + t)[j + 1] == t[j],
        faulty_at(seq![NEGATIVE_SIGN] + t, j + 1) == faulty_at(t, j),
{
    let s = seq![NEGATIVE_SIGN] + t;
    assert(s[j + 1] == t[j]);
    if t[j] == NEGATIVE_SIGN {
        assert(sign_before(t, t.len() as int));
    }
    if nonzero_digit_before(s, j + 1) {
        let k = choose|k: int| 0 <= k < j + 1 && #[trigger] is_nonzero_digit(s[k]);
        assert(k != 0);
        assert(s[k] == t[k - 1]);
        assert(is_nonzero_digit(t[k - 1]));
    }
    if nonzero_digit_before(t, j) {
        let k = choose|k: int| 0 <= k < j && #[trigger] is_nonzero_digit(t[k]);
        assert(s[k + 1] == t[k]);
        assert(is_nonzero_digit(s[k + 1]));
    }
}

/// A negative sign in front adds no digit.
proof fn lemma_signed_digits(t: Seq<char>)
    ensures
        nonzero_digits(seq![NEGATIVE_SIGN] + t) == nonzero_digits(t),
    decreases t.len(),
{
    let s = seq![NEGATIVE_SIGN] + t;
    if t.len() == 0 {
        assert(s =~= seq![NEGATIVE_SIGN]);
        lemma_nonzero_digits_single(NEGATIVE_SIGN);
    } else {
        assert(s.drop_last() =~= seq![NEGATIVE_SIGN] + t.drop_last());
        assert(s.last() == t.last());
        lemma_signed_digits(t.drop_last());
    }
}

/// A negative sign put before a text that holds none negates what the text
/// reads as, and leaves its errors as they are.
pub proof fn lemma_sign_negates(t: Seq<char>)
    requires
        !sign_before(t, t.len() as int),
    ensures
        parse_outcome(seq![NEGATIVE_SIGN] + t) == match parse_outcome(t) {
            Ok(v) => Ok::<int, WenyanIntErrorKind>(-v),
            Err(k) => Err::<int, WenyanIntErrorKind>(k),
        },
{
    let s = seq![NEGATIVE_SIGN] + t;
    assert(s[0] == NEGATIVE_SIGN);
    assert(!sign_before(s, 0));
    assert(!faulty_at(s, 0));
    assert forall|j: int| 0 <= j < t.len() implies faulty_at(s, j + 1) == #[trigger] faulty_at(
        t,
        j,
    ) by {
        lemma_signed_position(t, j);
    }
    match first_fault(t) {
        Some(i) => {
            assert(is_first_fault(t, i));
            lemma_signed_position(t, i);
            assert forall|j: int| 0 <= j < i + 1 implies !#[trigger] faulty_at(s, j) by {
                if j > 0 {
                    assert(faulty_at(s, (j - 1) + 1) == faulty_at(t, j - 1));
                }
            }
            assert(is_first_fault(s, i + 1));
            lemma_first_fault_is(s, i + 1);
        },
        None => {
            assert forall|j: int| 0 <= j < t.len() implies !#[trigger] faulty_at(t, j) by {
                if faulty_at(t, j) {
                    lemma_fault_has_first(t, j);
                }
            }
            assert forall|j: int| 0 <= j < s.len() implies !#[trigger] faulty_at(s, j) by {
                if j > 0 {
                    assert(faulty_at(s, (j - 1) + 1) == faulty_at(t, j - 1));
                }
            }
            lemma_no_fault(s);
            if has_digit(t) {
                let k = choose|k: int| 0 <= k < t.len() && #[trigger] is_digit(t[k]);
                assert(s[k + 1] == t[k]);
                assert(is_digit(s[k + 1]));
            }
            if has_digit(s) {
                let k = choose|k: int| 0 <= k < s.len() && #[trigger] is_digit(s[k]);
                assert(k != 0);
                assert(s[k] == t[k - 1]);
                assert(is_digit(t[k - 1]));
            }
            lemma_signed_digits(t);
            assert(sign_before(s, s.len() as int));
        },
    }
}

/// A character outside the vocabulary, read alone, is an invalid digit.
pub proof fn lemma_foreign_char(c: char)
    requires
        !in_vocabulary(c),
    ensures
        parse_outcome(seq![c]) == Err::<int, WenyanIntErrorKind>(WenyanIntErrorKind::InvalidDigit),
{
    let s = seq![c];
    assert(faulty_at(s, 0));
    lemma_first_fault_is(s, 0);
}

/// The nonzero digits of a text made of nonzero digits alone: one for each
/// character, each a decimal digit, the last one read not zero.
proof fn lemma_all_nonzero_digits(s: Seq<char>)
    requires
        forall|i: int| 0 <= i < s.len() ==> #[trigger] is_nonzero_digit(s[i]),
    ensures
        nonzero_digits(s).len() == s.len(),
        is_canonical(nonzero_digits(s)),
    decreases s.len(),
{
    if s.len() > 0 {
        let p = s.drop_last();
        assert forall|i: int| 0 <= i < p.len() implies #[trigger] is_nonzero_digit(p[i]) by {
            assert(p[i] == s[i]);
        }
        lemma_all_nonzero_digits(p);
        assert(is_nonzero_digit(s[s.len() - 1]));
        let ds = nonzero_digits(s);
        assert(ds == nonzero_digits(p).push(digit_value(s.last())->0));
        assert forall|i: int| 0 <= i < ds.len() implies #[trigger] ds[i] < 10 by {
            if i < ds.len() - 1 {
                assert(ds[i] == nonzero_digits(p)[i]);
            }
        }
    }
}

/// A text of nonzero digits alone, however long, reads exactly: as the
/// number whose decimal digits they are, units first, with exactly as many
/// digits as the text has characters.
pub proof fn lemma_long_digit_run(s: Seq<char>)
    requires
        s.len() > 0,
        forall|i: int| 0 <= i < s.len() ==> #[trigger] is_nonzero_digit(s[i]),
    ensures
        parse_outcome(s) == Ok::<int, WenyanIntErrorKind>(value_le(nonzero_digits(s)) as int),
        nonzero_digits(s).len() == s.len(),
        pow10((s.len() - 1) as nat) <= value_le(nonzero_digits(s)) < pow10(s.len()),
{
    assert forall|j: int| 0 <= j < s.len() implies !#[trigger] faulty_at(s, j) by {
        assert(is_nonzero_digit(s[j]));
        assert(is_digit(s[j]));
    }
    lemma_no_fault(s);
    assert(is_nonzero_digit(s[0]));
    assert(is_digit(s[0]));
    if sign_before(s, s.len() as int) {
        let j = choose|j: int| 0 <= j < s.len() && #[trigger] s[j] == NEGATIVE_SIGN;
        assert(is_nonzero_digit(s[j]));
    }
    lemma_all_nonzero_digits(s);
    lemma_canonical_bounds(nonzero_digits(s));
}

/// Whether the zero at position `i` may stand there: it is the last
/// character and no nonzero digit comes before it.
pub fn is_valid_lone_zero(cs: &Vec<char>, i: usize) -> (r: bool)
    requires
        i < cs@.len(),
        cs@[i as int] == '零',
    ensures
        r == !misplaced_zero(cs@, i as int),
{
    if i < cs.len() - 1 {
        return false;
    }
    let mut j: usize = 0;
    while j < i
        invariant
            i < cs@.len(),
            cs@[i as int] == '零',
            j <= i,
            forall|k: int| 0 <= k < j ==> !#[trigger] is_nonzero_digit(cs@[k]),
        decreases i - j,
    {
        match char_digit(cs[j]) {
            Some(d) => {
                if d != 0 {
                    assert(is_nonzero_digit(cs@[j as int]));
                    return false;
                }
            },
            None => {},
        }
        j += 1;
    }
    true
}

/// The digit that a character stands for, read from the ordered vocabulary.
pub fn char_digit(c: char) -> (r: Option<u8>)
    ensures
        r == digit_value(c),
{
    match c {
        '零' => Some(0),
        '一' => Some(1),
        '二' => Some(2),
        '三' => Some(3),
        '四' => Some(4),
        '五' => Some(5),
        '六' => Some(6),
        '七' => Some(7),
        '八' => Some(8),
        '九' => Some(9),
        _ => None,
    }
}

} // verus!
