use vstd::prelude::*;

verus! {

/// Combination of two partial values where the fields set in the first one
/// win and the unset ones are filled from the second.
pub trait StructMerge: Sized + View {
    /// The combined value: `a` where it is set, `b` elsewhere.
    spec fn joined(a: Self::V, b: Self::V) -> Self::V;

    /// Fills every unset field of `self` from `other`.
    fn join_inplace(&mut self, other: Self)
        ensures
            final(self)@ == Self::joined(old(self)@, other@),
    ;

    /// `self` with its unset fields filled from `other`.
    fn join(self, other: Self) -> (r: Self)
        ensures
            r@ == Self::joined(self@, other@),
    {
        let mut s = self;
        s.join_inplace(other);
        s
    }

    /// Joining a value with itself gives it back.
    proof fn lemma_joined_self(a: Self::V)
        ensures
            Self::joined(a, a) == a,
    ;

    /// `self` merged with `other`: every field set in `self` wins, and
    /// `other` only fills the fields that `self` leaves unset.
    fn merge(self, other: Self) -> (r: Self)
        ensures
            r@ == Self::joined(self@, other@),
    {
        self.join(other)
    }
}

} // verus!
