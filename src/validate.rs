use vstd::prelude::*;

use crate::error::InvalidPaymentsError;

verus! {

/// The sign of a payment's amount. An amount that is neither above nor
/// below zero (zero itself) counts as `Zero`.
#[derive(Debug, Clone, Copy, PartialEq, Eq, Structural)]
pub enum Sign {
    Negative,
    Zero,
    Positive,
}

/// Some payment is received (strictly positive).
pub open spec fn has_positive(signs: Seq<Sign>) -> bool {
    exists|i: int| 0 <= i < signs.len() && signs[i] == Sign::Positive
}

/// Some payment is made (strictly negative).
pub open spec fn has_negative(signs: Seq<Sign>) -> bool {
    exists|i: int| 0 <= i < signs.len() && signs[i] == Sign::Negative
}

/// A payment set is accepted exactly when it holds both a strictly positive
/// and a strictly negative amount.
pub open spec fn is_valid(signs: Seq<Sign>) -> bool {
    has_positive(signs) && has_negative(signs)
}

/// Checks that the payments, given by the signs of their amounts, hold both
/// a negative and a positive amount.
pub fn validate(signs: &Vec<Sign>) -> (r: Result<(), InvalidPaymentsError>)
    ensures
        r is Ok <==> is_valid(signs@),
        r is Err <==> !is_valid(signs@),
{
    let mut positive = false;
    let mut negative = false;
    let mut i: usize = 0;
    while i < signs.len()
        invariant
            i <= signs@.len(),
            positive <==> exists|k: int| 0 <= k < i && signs@[k] == Sign::Positive,
            negative <==> exists|k: int| 0 <= k < i && signs@[k] == Sign::Negative,
        decreases signs@.len() - i,
    {
        match signs[i] {
            Sign::Positive => {
                positive = true;
            },
            Sign::Negative => {
                negative = true;
            },
            Sign::Zero => {},
        }
        i = i + 1;
    }
    if positive && negative {
        Ok(())
    } else {
        Err(InvalidPaymentsError)
    }
}

} // verus!

verus! {

/// A payment set with no strictly negative amount, or with no strictly
/// positive one, is rejected.
pub proof fn lemma_one_signed_rejected(signs: Seq<Sign>)
    requires
        (forall|i: int| 0 <= i < signs.len() ==> signs[i] != Sign::Negative) || (forall|i: int|
            0 <= i < signs.len() ==> signs[i] != Sign::Positive),
    ensures
        !is_valid(signs),
{
}

/// A payment set with a strictly positive and a strictly negative amount is
/// accepted, wherever the two stand.
pub proof fn lemma_two_signed_accepted(signs: Seq<Sign>, p: int, n: int)
    requires
        0 <= p < signs.len(),
        0 <= n < signs.len(),
        signs[p] == Sign::Positive,
        signs[n] == Sign::Negative,
    ensures
        is_valid(signs),
{
}

} // verus!
