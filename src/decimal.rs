use vstd::prelude::*;

verus! {

/// The value of a sequence of decimal digits, least significant digit first.
pub open spec fn value_le(ds: Seq<u8>) -> nat
    decreases ds.len(),
{
    if ds.len() == 0 {
        0
    } else {
        ds[0] as nat + 10 * value_le(ds.drop_first())
    }
}

/// Every element is a decimal digit.
pub open spec fn all_decimal(ds: Seq<u8>) -> bool {
    forall|i: int| 0 <= i < ds.len() ==> #[trigger] ds[i] < 10
}

/// Decimal digits, least significant first, whose most significant digit is
/// not zero; zero itself is the empty sequence.
pub open spec fn is_canonical(ds: Seq<u8>) -> bool {
    &&& all_decimal(ds)
    &&& ds.len() > 0 ==> ds.last() != 0
}

/// The canonical digits of a natural number, least significant first.
pub open spec fn digits_of(n: nat) -> Seq<u8>
    decreases n,
{
    if n == 0 {
        Seq::empty()
    } else {
        seq![(n % 10) as u8] + digits_of(n / 10)
    }
}

/// 10 to the power `k`.
pub open spec fn pow10(k: nat) -> nat
    decreases k,
{
    if k == 0 {
        1
    } else {
        10 * pow10((k - 1) as nat)
    }
}

/// The digits after the units digit of a canonical sequence are canonical too.
proof fn lemma_canonical_tail(ds: Seq<u8>)
    requires
        is_canonical(ds),
        ds.len() > 0,
    ensures
        is_canonical(ds.drop_first()),
{
    let rest = ds.drop_first();
    assert forall|i: int| 0 <= i < rest.len() implies #[trigger] rest[i] < 10 by {
        assert(rest[i] == ds[i + 1]);
    }
    if rest.len() > 0 {
        assert(rest.last() == ds.last());
    }
}

/// A canonical sequence of `k` digits denotes a number of exactly `k` digits.
pub proof fn lemma_canonical_bounds(ds: Seq<u8>)
    requires
        is_canonical(ds),
    ensures
        value_le(ds) < pow10(ds.len()),
        ds.len() > 0 ==> pow10((ds.len() - 1) as nat) <= value_le(ds),
        ds.len() > 0 ==> value_le(ds) > 0,
    decreases ds.len(),
{
    if ds.len() > 0 {
        let rest = ds.drop_first();
        lemma_canonical_tail(ds);
        lemma_canonical_bounds(rest);
        assert(ds[0] < 10);
        if rest.len() == 0 {
            assert(value_le(rest) == 0);
            assert(ds[0] == ds.last());
        }
    }
}

/// Two canonical digit sequences with the same value are the same sequence.
pub proof fn lemma_canonical_unique(a: Seq<u8>, b: Seq<u8>)
    requires
        is_canonical(a),
        is_canonical(b),
        value_le(a) == value_le(b),
    ensures
        a == b,
    decreases a.len(),
{
    lemma_canonical_bounds(a);
    lemma_canonical_bounds(b);
    if a.len() == 0 || b.len() == 0 {
        assert(a.len() == 0 && b.len() == 0);
        assert(a =~= b);
    } else {
        let (ra, rb) = (a.drop_first(), b.drop_first());
        assert(a[0] < 10 && b[0] < 10);
        assert(a[0] == b[0] && value_le(ra) == value_le(rb));
        lemma_canonical_tail(a);
        lemma_canonical_tail(b);
        lemma_canonical_unique(ra, rb);
        assert(a =~= seq![a[0]] + ra);
        assert(b =~= seq![b[0]] + rb);
    }
}

/// `digits_of` gives the canonical digits of its argument.
pub proof fn lemma_digits_of(n: nat)
    ensures
        is_canonical(digits_of(n)),
        value_le(digits_of(n)) == n,
    decreases n,
{
    if n > 0 {
        lemma_digits_of(n / 10);
        let ds = digits_of(n);
        let rest = digits_of(n / 10);
        assert(ds == seq![(n % 10) as u8] + rest);
        assert(ds.drop_first() =~= rest);
        assert forall|i: int| 0 <= i < ds.len() implies #[trigger] ds[i] < 10 by {
            if i > 0 {
                assert(ds[i] == rest[i - 1]);
            }
        }
        if rest.len() > 0 {
            assert(ds.last() == rest.last());
        } else {
            assert(n / 10 == 0);
        }
    }
}

} // verus!
