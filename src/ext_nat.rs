use vstd::prelude::*;

use std::cmp::Ordering;

verus! {

/// The natural numbers with infinity. Sums saturate at `Inf`; a sum past the
/// range of `u64` is `Inf` too.
#[derive(Copy, Clone, Debug, PartialEq, Eq, Structural, Ord)]
pub enum ExtNat {
    Nat(u64),
    Inf,
}

/// The sum of two extended naturals.
pub open spec fn ext_add(a: ExtNat, b: ExtNat) -> ExtNat {
    match (a, b) {
        (ExtNat::Nat(x), ExtNat::Nat(y)) => if x + y <= u64::MAX {
            ExtNat::Nat((x + y) as u64)
        } else {
            ExtNat::Inf
        },
        _ => ExtNat::Inf,
    }
}

/// The order of extended naturals: the naturals by value, all below `Inf`.
pub open spec fn ext_cmp(a: ExtNat, b: ExtNat) -> Ordering {
    match (a, b) {
        (ExtNat::Inf, ExtNat::Inf) => Ordering::Equal,
        (ExtNat::Nat(_), ExtNat::Inf) => Ordering::Less,
        (ExtNat::Inf, ExtNat::Nat(_)) => Ordering::Greater,
        (ExtNat::Nat(x), ExtNat::Nat(y)) => if x < y {
            Ordering::Less
        } else if x == y {
            Ordering::Equal
        } else {
            Ordering::Greater
        },
    }
}

impl ExtNat {
    /// The sum, saturating at `Inf`.
    pub fn plus(self, rhs: ExtNat) -> (r: ExtNat)
        ensures
            r == ext_add(self, rhs),
    {
        match (self, rhs) {
            (ExtNat::Nat(x), ExtNat::Nat(y)) => match x.checked_add(y) {
                Some(z) => ExtNat::Nat(z),
                None => ExtNat::Inf,
            },
            _ => ExtNat::Inf,
        }
    }
}

impl std::ops::Add for ExtNat {
    type Output = ExtNat;

    fn add(self, rhs: ExtNat) -> (r: ExtNat) {
        self.plus(rhs)
    }
}

impl vstd::std_specs::ops::AddSpecImpl for ExtNat {
    open spec fn obeys_add_spec() -> bool {
        true
    }

    open spec fn add_req(self, rhs: ExtNat) -> bool {
        true
    }

    open spec fn add_spec(self, rhs: ExtNat) -> ExtNat {
        ext_add(self, rhs)
    }
}

impl std::ops::AddAssign for ExtNat {
    fn add_assign(&mut self, rhs: ExtNat)
        ensures
            *final(self) == ext_add(*old(self), rhs),
    {
        *self = self.plus(rhs);
    }
}

impl std::ops::AddAssign<u64> for ExtNat {
    fn add_assign(&mut self, rhs: u64)
        ensures
            *final(self) == ext_add(*old(self), ExtNat::Nat(rhs)),
    {
        *self = self.plus(ExtNat::Nat(rhs));
    }
}

impl PartialOrd for ExtNat {
    fn partial_cmp(&self, other: &ExtNat) -> (r: Option<Ordering>) {
        match (self, other) {
            (ExtNat::Inf, ExtNat::Inf) => Some(Ordering::Equal),
            (ExtNat::Nat(_), ExtNat::Inf) => Some(Ordering::Less),
            (ExtNat::Inf, ExtNat::Nat(_)) => Some(Ordering::Greater),
            (ExtNat::Nat(x), ExtNat::Nat(y)) => if *x < *y {
                Some(Ordering::Less)
            } else if *x == *y {
                Some(Ordering::Equal)
            } else {
                Some(Ordering::Greater)
            },
        }
    }
}

impl vstd::std_specs::cmp::PartialOrdSpecImpl for ExtNat {
    open spec fn obeys_partial_cmp_spec() -> bool {
        true
    }

    open spec fn partial_cmp_spec(&self, other: &ExtNat) -> Option<Ordering> {
        Some(ext_cmp(*self, *other))
    }
}

} // verus!
