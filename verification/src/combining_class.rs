//! Canonical combining classes the shaper places marks by.
use vstd::prelude::*;

verus! {

/// A canonical combining class of a combining mark
/// (<https://www.compart.com/en/unicode/combining>).
#[derive(Debug, Copy, Clone, PartialEq, Eq, Structural)]
pub enum CombiningClass {
    /// Marks attached above the base (class 230).
    Above,
    /// Marks attached below the base (class 220).
    Bellow,
}

/// The Unicode class number of each combining class.
pub open spec fn class_number(class: CombiningClass) -> u8 {
    match class {
        CombiningClass::Above => 230,
        CombiningClass::Bellow => 220,
    }
}

impl CombiningClass {
    /// The class whose Unicode number is `key`, if it is one of those known here.
    pub fn new(key: u8) -> (r: Option<Self>)
        ensures
            r == (if key == 230 {
                Some(CombiningClass::Above)
            } else if key == 220 {
                Some(CombiningClass::Bellow)
            } else {
                None::<CombiningClass>
            }),
    {
        match key {
            230 => Some(Self::Above),
            220 => Some(Self::Bellow),
            _ => None,
        }
    }

    /// The Unicode number of this class.
    pub fn number(self) -> (r: u8)
        ensures
            r == class_number(self),
    {
        match self {
            Self::Above => 230,
            Self::Bellow => 220,
        }
    }
}

/// A class is found again from its number, and a number names a class only
/// if it is that class's number.
pub proof fn lemma_class_number_round_trip(class: CombiningClass, key: u8)
    ensures
        (key == 230 || key == 220) <==> exists|c: CombiningClass| class_number(c) == key,
        class_number(class) == 230 ==> class == CombiningClass::Above,
        class_number(class) == 220 ==> class == CombiningClass::Bellow,
{
    if key == 230 {
        assert(class_number(CombiningClass::Above) == key);
    }
    if key == 220 {
        assert(class_number(CombiningClass::Bellow) == key);
    }
}

} // verus!
