use vstd::prelude::*;

verus! {

/// The bit that marks a change of a child list's shape.
pub const STRUCTURE_BIT: u32 = 1;

/// The bit that marks any other change of a live node.
pub const OTHER_CHANGE_BIT: u32 = 2;

/// What kinds of change a rebuild made, as a set of bits.
#[derive(Clone, Copy, Debug, PartialEq, Eq, Hash, Structural)]
pub struct ChangeFlags {
    pub bits: u32,
}

impl ChangeFlags {
    /// No change at all.
    pub open spec fn spec_empty() -> ChangeFlags {
        ChangeFlags { bits: 0 }
    }

    /// The shape of a child list changed.
    pub open spec fn spec_structure() -> ChangeFlags {
        ChangeFlags { bits: STRUCTURE_BIT }
    }

    /// Something other than the shape of a child list changed.
    pub open spec fn spec_other_change() -> ChangeFlags {
        ChangeFlags { bits: OTHER_CHANGE_BIT }
    }

    /// Every bit of `other` is set in `self`.
    pub open spec fn spec_contains(self, other: ChangeFlags) -> bool {
        self.bits & other.bits == other.bits
    }

    /// The bits that are set in `self` or in `other`.
    pub open spec fn spec_union(self, other: ChangeFlags) -> ChangeFlags {
        ChangeFlags { bits: self.bits | other.bits }
    }

    /// The bits of `self` that are not set in `other`.
    pub open spec fn spec_difference(self, other: ChangeFlags) -> ChangeFlags {
        ChangeFlags { bits: self.bits & !other.bits }
    }

    /// No change at all.
    #[verifier::when_used_as_spec(spec_empty)]
    pub fn empty() -> (flags: ChangeFlags)
        ensures
            flags == Self::spec_empty(),
    {
        ChangeFlags { bits: 0 }
    }

    /// The shape of a child list changed.
    #[verifier::when_used_as_spec(spec_structure)]
    pub fn structure() -> (flags: ChangeFlags)
        ensures
            flags == Self::spec_structure(),
    {
        ChangeFlags { bits: STRUCTURE_BIT }
    }

    /// Something other than the shape of a child list changed.
    #[verifier::when_used_as_spec(spec_other_change)]
    pub fn other_change() -> (flags: ChangeFlags)
        ensures
            flags == Self::spec_other_change(),
    {
        ChangeFlags { bits: OTHER_CHANGE_BIT }
    }

    /// The set as a number, one bit for each flag.
    pub fn bits(self) -> (bits: u32)
        ensures
            bits == self.bits,
    {
        self.bits
    }

    /// Whether nothing changed.
    pub fn is_empty(self) -> (none: bool)
        ensures
            none == (self == Self::spec_empty()),
    {
        self.bits == 0
    }

    /// Whether every flag of `other` is set in `self`.
    #[verifier::when_used_as_spec(spec_contains)]
    pub fn contains(self, other: ChangeFlags) -> (all: bool)
        ensures
            all == self.spec_contains(other),
    {
        self.bits & other.bits == other.bits
    }

    /// The flags that are set in `self` or in `other`.
    #[verifier::when_used_as_spec(spec_union)]
    pub fn union(self, other: ChangeFlags) -> (both: ChangeFlags)
        ensures
            both == self.spec_union(other),
    {
        ChangeFlags { bits: self.bits | other.bits }
    }

    /// Clears in `self` every bit that is set in `other`.
    pub fn remove(&mut self, other: ChangeFlags)
        ensures
            *final(self) == old(self).spec_difference(other),
    {
        self.bits = self.bits & !other.bits;
    }

    /// Union takes its arguments in either order.
    pub proof fn lemma_union_commutative(a: ChangeFlags, b: ChangeFlags)
        ensures
            a.union(b) == b.union(a),
    {
        let (x, y) = (a.bits, b.bits);
        assert(x | y == y | x) by (bit_vector);
    }

    /// Union may be grouped either way.
    pub proof fn lemma_union_associative(a: ChangeFlags, b: ChangeFlags, c: ChangeFlags)
        ensures
            a.union(b).union(c) == a.union(b.union(c)),
    {
        let (x, y, z) = (a.bits, b.bits, c.bits);
        assert((x | y) | z == x | (y | z)) by (bit_vector);
    }

    /// The empty set is the unit of union, and union with itself changes nothing.
    pub proof fn lemma_union_unit(a: ChangeFlags)
        ensures
            a.union(Self::empty()) == a,
            Self::empty().union(a) == a,
            a.union(a) == a,
    {
        let x = a.bits;
        assert(x | 0 == x) by (bit_vector);
        assert(0 | x == x) by (bit_vector);
        assert(x | x == x) by (bit_vector);
    }

    /// A union contains a flag exactly when one of its sides does, for the
    /// two single flags.
    pub proof fn lemma_union_contains(a: ChangeFlags, b: ChangeFlags)
        ensures
            a.union(b).contains(Self::structure()) == (a.contains(Self::structure())
                || b.contains(Self::structure())),
            a.union(b).contains(Self::other_change()) == (a.contains(Self::other_change())
                || b.contains(Self::other_change())),
            a.union(b) == Self::empty() <==> a == Self::empty() && b == Self::empty(),
    {
        let (x, y) = (a.bits, b.bits);
        assert(((x | y) & 1 == 1) == ((x & 1 == 1) || (y & 1 == 1))) by (bit_vector);
        assert(((x | y) & 2 == 2) == ((x & 2 == 2) || (y & 2 == 2))) by (bit_vector);
        assert((x | y == 0) == (x == 0 && y == 0)) by (bit_vector);
    }

    /// What the three named sets have of the structural flag.
    pub proof fn lemma_named_sets()
        ensures
            !Self::empty().contains(Self::structure()),
            Self::structure().contains(Self::structure()),
            !Self::other_change().contains(Self::structure()),
            !Self::empty().contains(Self::other_change()),
            Self::other_change().contains(Self::other_change()),
            !Self::structure().contains(Self::other_change()),
    {
        assert(0u32 & 1 != 1) by (bit_vector);
        assert(1u32 & 1 == 1) by (bit_vector);
        assert(2u32 & 1 != 1) by (bit_vector);
        assert(0u32 & 2 != 2) by (bit_vector);
        assert(2u32 & 2 == 2) by (bit_vector);
        assert(1u32 & 2 != 2) by (bit_vector);
    }

    /// What is removed is gone, and the other single flag stays as it was.
    pub proof fn lemma_remove_structure(a: ChangeFlags)
        ensures
            !a.spec_difference(Self::structure()).contains(Self::structure()),
            a.spec_difference(Self::structure()).contains(Self::other_change()) == a.contains(
                Self::other_change(),
            ),
            !a.contains(Self::structure()) ==> a.spec_difference(Self::structure()) == a,
            a.spec_difference(Self::structure()) == Self::empty() <==> (a == Self::empty() || a
                == Self::structure()),
    {
        let x = a.bits;
        assert((x & !1u32) & 1 != 1) by (bit_vector);
        assert(((x & !1u32) & 2 == 2) == (x & 2 == 2)) by (bit_vector);
        assert(x & 1 != 1 ==> x & !1u32 == x) by (bit_vector);
        assert((x & !1u32 == 0) == (x == 0 || x == 1)) by (bit_vector);
    }
}

} // verus!
