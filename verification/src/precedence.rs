//! Precedence levels and the arithmetic that turns them into binding powers.

use vstd::prelude::*;

verus! {

/// How an operator nests with another occurrence of itself at the same level.
#[derive(Copy, Clone, Debug, PartialEq, Eq, Structural)]
pub enum Associativity {
    Left,
    Right,
    Neither,
}

/// The number of operands an operator takes.
#[derive(Copy, Clone, Debug, PartialEq, Eq, Structural)]
pub enum Arity {
    Nullary,
    Unary,
    Binary,
    Ternary,
}

/// A precedence level. Larger values bind tighter.
///
/// Declared levels are spread out by [`Precedence::normalize`] before they are
/// compared, which leaves room for [`Precedence::raise`] and
/// [`Precedence::lower`] between two neighbouring levels. All three saturate
/// at the ends of the range. Declared levels from 1 to
/// [`MAX_DECLARED`] keep their order and their distance under this
/// arithmetic; see [`lemma_levels_stay_apart`].
#[derive(Copy, Clone, Debug, PartialEq, Eq, PartialOrd, Ord, Structural)]
pub struct Precedence(pub u32);

/// The factor by which [`Precedence::normalize`] spreads declared levels.
pub const SPREAD: u32 = 10;

/// The largest declared level whose binding powers do not saturate.
pub const MAX_DECLARED: u32 = 429_496_729;

impl Precedence {
    /// The level one above `self`, or `self` at the top of the range.
    pub open spec fn raised(self) -> Precedence {
        if self.0 < u32::MAX {
            Precedence((self.0 + 1) as u32)
        } else {
            self
        }
    }

    /// The level one below `self`, or `self` at the bottom of the range.
    pub open spec fn lowered(self) -> Precedence {
        if self.0 > 0 {
            Precedence((self.0 - 1) as u32)
        } else {
            self
        }
    }

    /// `self` times [`SPREAD`], or the top of the range where that does not fit.
    pub open spec fn normalized(self) -> Precedence {
        if self.0 * SPREAD <= u32::MAX {
            Precedence((self.0 * SPREAD) as u32)
        } else {
            Precedence(u32::MAX)
        }
    }

    /// The weakest binding power.
    pub open spec fn lowest() -> Precedence {
        Precedence(0)
    }

    /// The strongest binding power.
    pub open spec fn highest() -> Precedence {
        Precedence(u32::MAX)
    }

    /// Whether `self` binds strictly weaker than `other`.
    pub open spec fn below(self, other: Precedence) -> bool {
        self.0 < other.0
    }

    /// Adds one, saturating at the maximum.
    pub fn raise(self) -> (r: Precedence)
        ensures
            r == self.raised(),
    {
        if self.0 < u32::MAX {
            Precedence(self.0 + 1)
        } else {
            self
        }
    }

    /// Subtracts one, saturating at the minimum.
    pub fn lower(self) -> (r: Precedence)
        ensures
            r == self.lowered(),
    {
        if self.0 > 0 {
            Precedence(self.0 - 1)
        } else {
            self
        }
    }

    /// Multiplies by [`SPREAD`], saturating at the maximum.
    pub fn normalize(self) -> (r: Precedence)
        ensures
            r == self.normalized(),
    {
        if self.0 <= u32::MAX / SPREAD {
            Precedence(self.0 * SPREAD)
        } else {
            Precedence(u32::MAX)
        }
    }

    /// The minimum sentinel.
    pub fn min() -> (r: Precedence)
        ensures
            r == Precedence::lowest(),
    {
        Precedence(0)
    }

    /// The maximum sentinel.
    pub fn max() -> (r: Precedence)
        ensures
            r == Precedence::highest(),
    {
        Precedence(u32::MAX)
    }

    /// Compares two binding powers.
    pub fn is_below(self, other: Precedence) -> (r: bool)
        ensures
            r == self.below(other),
    {
        self.0 < other.0
    }
}

/// Every binding power derived from a level lies between the two sentinels,
/// and the adjustments never wrap around.
pub proof fn lemma_adjustments_stay_in_range(p: Precedence)
    ensures
        Precedence::lowest().0 <= p.normalized().0 <= Precedence::highest().0,
        p.0 <= p.raised().0 <= p.0 + 1,
        p.0 - 1 <= p.lowered().0 <= p.0,
        p.0 <= p.normalized().0,
        Precedence::highest().raised() == Precedence::highest(),
        Precedence::lowest().lowered() == Precedence::lowest(),
        Precedence::highest().normalized() == Precedence::highest(),
        Precedence::lowest().normalized() == Precedence::lowest(),
{
}

/// A declared level from 1 to [`MAX_DECLARED`] has a binding power with room
/// on both sides: lowering and raising it move it by exactly one.
pub proof fn lemma_declared_level_has_headroom(p: Precedence)
    requires
        1 <= p.0 <= MAX_DECLARED,
    ensures
        p.normalized().0 == p.0 * SPREAD,
        p.normalized().lowered().0 == p.0 * SPREAD - 1,
        p.normalized().raised().0 == p.0 * SPREAD + 1,
        Precedence::lowest().below(p.normalized().lowered()),
        p.normalized().raised().below(Precedence::highest()),
{
}

/// Two different declared levels never collide: every adjusted binding power
/// of the lower level stays strictly below every adjusted binding power of the
/// higher one.
pub proof fn lemma_levels_stay_apart(p: Precedence, q: Precedence)
    requires
        p.0 < q.0 <= MAX_DECLARED,
    ensures
        p.normalized().raised().below(q.normalized().lowered()),
        p.normalized().below(q.normalized()),
{
}

/// Normalizing keeps the order of levels, saturated or not.
pub proof fn lemma_normalize_is_monotonic(p: Precedence, q: Precedence)
    requires
        p.0 <= q.0,
    ensures
        p.normalized().0 <= q.normalized().0,
        p.raised().0 <= q.raised().0,
        p.lowered().0 <= q.lowered().0,
{
}

} // verus!
