use vstd::prelude::*;
use vstd::std_specs::cmp::PartialEqSpec;
use crate::decimal::{
    digits_of, is_canonical, lemma_canonical_bounds, lemma_canonical_unique, lemma_digits_of,
    value_le,
};
use crate::error::{ParseWenyanIntError, WenyanIntErrorKind};
use crate::numeral::{
    char_digit, faulty_at, is_valid_lone_zero, is_digit, is_nonzero_digit, lemma_first_fault_is, lemma_no_fault,
    nonzero_digit_before, nonzero_digits, parse_outcome, sign_before, NEGATIVE_SIGN, TENS_MARKER,
};

verus! {

/// An exact integer of any size.
///
/// It is held as a sign and the decimal digits of its magnitude, least
/// significant first, with no zero in the most significant place; zero has
/// no digits and no sign.
#[derive(Debug)]
pub struct WenyanInt {
    negative: bool,
    magnitude: Vec<u8>,
}

impl View for WenyanInt {
    type V = int;

    closed spec fn view(&self) -> int {
        if self.negative {
            -(value_le(self.magnitude@) as int)
        } else {
            value_le(self.magnitude@) as int
        }
    }
}

impl WenyanInt {
    #[verifier::type_invariant]
    pub closed spec fn inv(&self) -> bool {
        &&& is_canonical(self.magnitude@)
        &&& self.negative ==> self.magnitude@.len() > 0
    }

    /// Builds the value of a sign and canonical digits.
    fn from_parts(negative: bool, magnitude: Vec<u8>) -> (r: WenyanInt)
        requires
            is_canonical(magnitude@),
        ensures
            r@ == (if negative {
                -(value_le(magnitude@) as int)
            } else {
                value_le(magnitude@) as int
            }),
    {
        let negative = negative && magnitude.len() > 0;
        WenyanInt { negative, magnitude }
    }

    /// The canonical digits of a machine integer.
    fn digits_of_u64(n: u64) -> (r: Vec<u8>)
        ensures
            r@ == digits_of(n as nat),
    {
        let mut ds: Vec<u8> = Vec::new();
        let mut m: u64 = n;
        while m > 0
            invariant
                ds@ + digits_of(m as nat) == digits_of(n as nat),
            decreases m,
        {
            let d: u8 = (m % 10) as u8;
            assert(digits_of(m as nat) == seq![d] + digits_of((m / 10) as nat));
            assert(ds@.push(d) + digits_of((m / 10) as nat) =~= ds@ + digits_of(m as nat));
            ds.push(d);
            m = m / 10;
        }
        assert(ds@ + digits_of(0) =~= ds@);
        ds
    }

    /// The value of a signed machine integer. It never fails.
    pub fn from_i64(n: i64) -> (r: Option<WenyanInt>)
        ensures
            r matches Some(v) && v@ == n as int,
    {
        let m: u64 = if n < 0 {
            ((-(n + 1)) as u64) + 1
        } else {
            n as u64
        };
        let ds = Self::digits_of_u64(m);
        proof {
            lemma_digits_of(m as nat);
        }
        Some(Self::from_parts(n < 0, ds))
    }

    /// The value of an unsigned machine integer. It never fails.
    pub fn from_u64(n: u64) -> (r: Option<WenyanInt>)
        ensures
            r matches Some(v) && v@ == n as int,
    {
        let ds = Self::digits_of_u64(n);
        proof {
            lemma_digits_of(n as nat);
        }
        Some(Self::from_parts(false, ds))
    }

    /// Whether the value is below zero.
    pub fn is_negative(&self) -> (r: bool)
        ensures
            r == (self@ < 0),
    {
        proof {
            use_type_invariant(self);
            lemma_canonical_bounds(self.magnitude@);
        }
        self.negative
    }

    /// The decimal digits of the absolute value, least significant first,
    /// with no zero in the most significant place; empty for zero.
    pub fn magnitude(&self) -> (r: &Vec<u8>)
        ensures
            is_canonical(r@),
            value_le(r@) as int == (if self@ < 0 { -self@ } else { self@ }),
    {
        proof {
            use_type_invariant(self);
            lemma_canonical_bounds(self.magnitude@);
        }
        &self.magnitude
    }

    /// Reads a numeral.
    ///
    /// Each nonzero digit read gives the next decimal place, starting from
    /// the units; the tens marker is passed over; one negative sign makes the
    /// value negative. A zero is accepted only as the sole digit, at the very
    /// end of the text. A text with no digit at all is empty input.
    pub fn from_str(s: &str) -> (r: Result<WenyanInt, ParseWenyanIntError>)
        ensures
            match r {
                Ok(v) => parse_outcome(s@) == Ok::<int, WenyanIntErrorKind>(v@),
                Err(e) => parse_outcome(s@) == Err::<int, WenyanIntErrorKind>(e.kind()),
            },
    {
        let mut cs: Vec<char> = Vec::new();
        for c in it: s.chars()
            invariant
                cs@ == it.seq().take(it.index() as int),
        {
            cs.push(c);
        }
        assert(cs@ == s@);
        let n = cs.len();
        let mut negative = false;
        let mut saw_digit = false;
        let mut digits: Vec<u8> = Vec::new();
        let mut i: usize = 0;
        while i < n
            invariant
                cs@ == s@,
                n == cs.len(),
                i <= n,
                negative == sign_before(s@, i as int),
                saw_digit == exists|j: int| 0 <= j < i && #[trigger] is_digit(s@[j]),
                digits@ == nonzero_digits(s@.take(i as int)),
                digits@.len() > 0 <==> nonzero_digit_before(s@, i as int),
                forall|k: int| 0 <= k < digits@.len() ==> 1 <= #[trigger] digits@[k] <= 9,
                forall|j: int| 0 <= j < i ==> !#[trigger] faulty_at(s@, j),
            decreases n - i,
        {
            let c = cs[i];
            let ghost before = s@.take(i as int);
            let ghost after = s@.take(i + 1);
            assert(after.drop_last() =~= before);
            assert(after.last() == c);
            if c == NEGATIVE_SIGN {
                if negative {
                    proof {
                        lemma_first_fault_is(s@, i as int);
                    }
                    return Err(ParseWenyanIntError::new(WenyanIntErrorKind::RedundantSign));
                }
                negative = true;
            } else if c == TENS_MARKER {
            } else {
                match char_digit(c) {
                    Some(d) => {
                        if d == 0 {
                            if !is_valid_lone_zero(&cs, i) {
                                proof {
                                    lemma_first_fault_is(s@, i as int);
                                }
                                return Err(ParseWenyanIntError::new(WenyanIntErrorKind::InvalidDigit));
                            }
                        } else {
                            digits.push(d);
                        }
                        saw_digit = true;
                    },
                    None => {
                        proof {
                            lemma_first_fault_is(s@, i as int);
                        }
                        return Err(ParseWenyanIntError::new(WenyanIntErrorKind::InvalidDigit));
                    },
                }
            }
            proof {
                if is_digit(c) {
                    assert(is_digit(s@[i as int]));
                } else if exists|j: int| 0 <= j < i + 1 && #[trigger] is_digit(s@[j]) {
                    let j = choose|j: int| 0 <= j < i + 1 && #[trigger] is_digit(s@[j]);
                    assert(j != i);
                }
                if is_nonzero_digit(c) {
                    assert(is_nonzero_digit(s@[i as int]));
                } else if nonzero_digit_before(s@, i + 1) {
                    let j = choose|j: int| 0 <= j < i + 1 && #[trigger] is_nonzero_digit(s@[j]);
                    assert(j != i);
                }
                if c == NEGATIVE_SIGN {
                    assert(s@[i as int] == NEGATIVE_SIGN);
                } else if sign_before(s@, i + 1) {
                    let j = choose|j: int| 0 <= j < i + 1 && #[trigger] s@[j] == NEGATIVE_SIGN;
                    assert(j != i);
                }
            }
            i += 1;
        }
        proof {
            lemma_no_fault(s@);
            assert(s@.take(n as int) =~= s@);
        }
        if !saw_digit {
            return Err(ParseWenyanIntError::new(WenyanIntErrorKind::Empty));
        }
        Ok(Self::from_parts(negative, digits))
    }
}

impl std::str::FromStr for WenyanInt {
    type Err = ParseWenyanIntError;

    fn from_str(s: &str) -> (r: Result<WenyanInt, ParseWenyanIntError>)
        ensures
            match r {
                Ok(v) => parse_outcome(s@) == Ok::<int, WenyanIntErrorKind>(v@),
                Err(e) => parse_outcome(s@) == Err::<int, WenyanIntErrorKind>(e.kind()),
            },
    {
        WenyanInt::from_str(s)
    }
}

/// Equal values have the same sign and the same digits.
proof fn lemma_equal_views(a: &WenyanInt, b: &WenyanInt)
    requires
        a.inv(),
        b.inv(),
    ensures
        a@ == b@ <==> (a.negative == b.negative && a.magnitude@ == b.magnitude@),
{
    lemma_canonical_bounds(a.magnitude@);
    lemma_canonical_bounds(b.magnitude@);
    if a@ == b@ {
        lemma_canonical_unique(a.magnitude@, b.magnitude@);
    }
}

impl PartialEq for WenyanInt {
    fn eq(&self, other: &WenyanInt) -> (r: bool) {
        proof {
            use_type_invariant(self);
            use_type_invariant(other);
            lemma_equal_views(self, other);
        }
        if self.negative != other.negative || self.magnitude.len() != other.magnitude.len() {
            return false;
        }
        let n = self.magnitude.len();
        let mut i: usize = 0;
        while i < n
            invariant
                n == self.magnitude@.len(),
                n == other.magnitude@.len(),
                i <= n,
                forall|k: int| 0 <= k < i ==> self.magnitude@[k] == other.magnitude@[k],
                self.negative == other.negative,
                self@ == other@ <==> self.magnitude@ == other.magnitude@,
            decreases n - i,
        {
            if self.magnitude[i] != other.magnitude[i] {
                assert(self.magnitude@[i as int] != other.magnitude@[i as int]);
                return false;
            }
            i += 1;
        }
        assert(self.magnitude@ =~= other.magnitude@);
        true
    }
}

impl vstd::std_specs::cmp::PartialEqSpecImpl for WenyanInt {
    open spec fn obeys_eq_spec() -> bool {
        true
    }

    open spec fn eq_spec(&self, other: &WenyanInt) -> bool {
        self@ == other@
    }
}

/// Two values built from the same integer compare equal, whatever the
/// integer: positive, negative or zero.
pub proof fn lemma_same_integer_equal(n: int, a: WenyanInt, b: WenyanInt)
    requires
        a@ == n,
        b@ == n,
    ensures
        a.eq_spec(&b),
{
}

} // verus!
