use vstd::prelude::*;

verus! {

/// `candid::Principal`, the identity of a caller or of a node: carried through, never opened.
#[verifier::external_type_specification]
#[verifier::external_body]
pub struct ExPrincipal(candid::Principal);

/// `==` of `candid::Principal`, which compares the length and the bytes of the two
/// principals: it answers `true` exactly when both are the same principal.
#[verifier::external_body]
pub(crate) fn same_principal(a: &candid::Principal, b: &candid::Principal) -> (r: bool)
    ensures
        r == (*a == *b),
{
    a == b
}

} // verus!
