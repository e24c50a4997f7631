//! Senses: what an avatar asks to perceive each turn, what it costs, and what
//! comes back.

use vstd::prelude::*;
use crate::types::{FoeId, Offset, Tiles, Turn};

verus! {

/// The senses an avatar can use.
#[derive(Debug, Clone, Copy, PartialEq, Eq, Structural)]
pub enum SenseType {
    SelfSense,
    Touch,
    Hearing,
    Sight,
}

/// The strength of sight: how many tiles away the avatar sees, up to ten.
#[derive(Debug, Clone, Copy, PartialEq, Eq, Structural)]
pub struct SightLevel {
    value: u8,
}

impl SightLevel {
    #[verifier::type_invariant]
    spec fn inv(self) -> bool {
        0 <= self.value <= 10
    }

    /// The level held.
    pub closed spec fn spec_get(self) -> u8 {
        self.value
    }

    /// `Some` exactly when `value` lies between 0 and 10.
    pub fn new(value: u8) -> (r: Option<Self>)
        ensures
            r is Some <==> 0 <= value <= 10,
            r matches Some(b) ==> b.spec_get() == value,
    {
        if 0 <= value && value <= 10 {
            Some(SightLevel { value })
        } else {
            None
        }
    }

    pub fn get(&self) -> (r: u8)
        ensures
            r == self.spec_get(),
            0 <= r <= 10,
    {
        proof {
            use_type_invariant(self);
        }
        self.value
    }
}

/// The strength of hearing, up to five.
#[derive(Debug, Clone, Copy, PartialEq, Eq, Structural)]
pub struct HearingLevel {
    value: u8,
}

impl HearingLevel {
    #[verifier::type_invariant]
    spec fn inv(self) -> bool {
        0 <= self.value <= 5
    }

    /// The level held.
    pub closed spec fn spec_get(self) -> u8 {
        self.value
    }

    /// `Some` exactly when `value` lies between 0 and 5.
    pub fn new(value: u8) -> (r: Option<Self>)
        ensures
            r is Some <==> 0 <= value <= 5,
            r matches Some(b) ==> b.spec_get() == value,
    {
        if 0 <= value && value <= 5 {
            Some(HearingLevel { value })
        } else {
            None
        }
    }

    pub fn get(&self) -> (r: u8)
        ensures
            r == self.spec_get(),
            0 <= r <= 5,
    {
        proof {
            use_type_invariant(self);
        }
        self.value
    }
}

/// How far the orb was heard: one (close) to five (far).
#[derive(Debug, Clone, Copy, PartialEq, Eq, Structural)]
pub struct HearingRange {
    value: u8,
}

impl HearingRange {
    #[verifier::type_invariant]
    spec fn inv(self) -> bool {
        1 <= self.value <= 5
    }

    /// The level held.
    pub closed spec fn spec_get(self) -> u8 {
        self.value
    }

    /// `Some` exactly when `value` lies between 1 and 5.
    pub fn new(value: u8) -> (r: Option<Self>)
        ensures
            r is Some <==> 1 <= value <= 5,
            r matches Some(b) ==> b.spec_get() == value,
    {
        if 1 <= value && value <= 5 {
            Some(HearingRange { value })
        } else {
            None
        }
    }

    pub fn get(&self) -> (r: u8)
        ensures
            r == self.spec_get(),
            1 <= r <= 5,
    {
        proof {
            use_type_invariant(self);
        }
        self.value
    }
}

/// Strength of a sense: it can be raised, lowered and merged with another one.
pub trait SenseStrength: Sized {
    fn max_strength() -> Self;

    fn min_strength() -> Self;

    fn decr(self) -> Self;

    fn incr(self) -> Self;

    fn merge(left: Self, right: Self) -> Self;

    fn is_min(&self) -> bool;

    /// Whether the sense is used at all.
    fn is_active(&self) -> bool;
}

impl SenseStrength for bool {
    fn max_strength() -> (r: bool)
        ensures
            r,
    {
        true
    }

    fn min_strength() -> (r: bool)
        ensures
            !r,
    {
        false
    }

    fn incr(self) -> (r: bool)
        ensures
            r,
    {
        true
    }

    fn decr(self) -> (r: bool)
        ensures
            !r,
    {
        false
    }

    fn merge(left: bool, right: bool) -> (r: bool)
        ensures
            r == (left || right),
    {
        left || right
    }

    fn is_min(&self) -> (r: bool)
        ensures
            r == !*self,
    {
        !*self
    }

    fn is_active(&self) -> (r: bool)
        ensures
            r == *self,
    {
        *self
    }
}


impl SenseStrength for SightLevel {
    fn max_strength() -> (r: Self)
        ensures
            r.spec_get() == 10,
    {
        SightLevel { value: 10 }
    }

    fn min_strength() -> (r: Self)
        ensures
            r.spec_get() == 0,
    {
        SightLevel { value: 0 }
    }

    fn incr(self) -> (r: Self)
        ensures
            r.spec_get() == if self.spec_get() < 10 {
                (self.spec_get() + 1) as u8
            } else {
                self.spec_get()
            },
    {
        proof {
            use_type_invariant(self);
        }
        if self.value < 10 {
            SightLevel { value: self.value + 1 }
        } else {
            self
        }
    }

    fn decr(self) -> (r: Self)
        ensures
            r.spec_get() == if self.spec_get() > 0 {
                (self.spec_get() - 1) as u8
            } else {
                self.spec_get()
            },
    {
        proof {
            use_type_invariant(self);
        }
        if self.value > 0 {
            SightLevel { value: self.value - 1 }
        } else {
            self
        }
    }

    fn merge(left: Self, right: Self) -> (r: Self)
        ensures
            r.spec_get() == if left.spec_get() >= right.spec_get() {
                left.spec_get()
            } else {
                right.spec_get()
            },
    {
        if left.value >= right.value {
            left
        } else {
            right
        }
    }

    fn is_min(&self) -> (r: bool)
        ensures
            r == (self.spec_get() == 0),
    {
        self.get() == 0
    }

    fn is_active(&self) -> (r: bool)
        ensures
            r == (self.spec_get() != 0),
    {
        self.get() != 0
    }
}

impl SenseStrength for HearingLevel {
    fn max_strength() -> (r: Self)
        ensures
            r.spec_get() == 5,
    {
        HearingLevel { value: 5 }
    }

    fn min_strength() -> (r: Self)
        ensures
            r.spec_get() == 0,
    {
        HearingLevel { value: 0 }
    }

    fn incr(self) -> (r: Self)
        ensures
            r.spec_get() == if self.spec_get() < 5 {
                (self.spec_get() + 1) as u8
            } else {
                self.spec_get()
            },
    {
        proof {
            use_type_invariant(self);
        }
        if self.value < 5 {
            HearingLevel { value: self.value + 1 }
        } else {
            self
        }
    }

    fn decr(self) -> (r: Self)
        ensures
            r.spec_get() == if self.spec_get() > 0 {
                (self.spec_get() - 1) as u8
            } else {
                self.spec_get()
            },
    {
        proof {
            use_type_invariant(self);
        }
        if self.value > 0 {
            HearingLevel { value: self.value - 1 }
        } else {
            self
        }
    }

    fn merge(left: Self, right: Self) -> (r: Self)
        ensures
            r.spec_get() == if left.spec_get() >= right.spec_get() {
                left.spec_get()
            } else {
                right.spec_get()
            },
    {
        if left.value >= right.value {
            left
        } else {
            right
        }
    }

    fn is_min(&self) -> (r: bool)
        ensures
            r == (self.spec_get() == 0),
    {
        self.get() == 0
    }

    fn is_active(&self) -> (r: bool)
        ensures
            r == (self.spec_get() != 0),
    {
        self.get() != 0
    }
}

/// What an avatar wants to perceive on a turn.
#[derive(Debug, Clone, Copy, PartialEq, Eq, Structural)]
pub struct Senses {
    pub selfs: bool,
    pub touch: bool,
    pub sight: SightLevel,
    pub hearing: HearingLevel,
}

/// The focus that a set of senses costs for a turn.
pub open spec fn spec_cost(selfs: bool, touch: bool, sight: int, hearing: int) -> int {
    (if selfs {
        1int
    } else {
        0
    }) + (if touch {
        1int
    } else {
        0
    }) + (if sight > 0 {
        2 + sight
    } else {
        0
    }) + hearing
}

impl Senses {
    pub open spec fn spec_cost(&self) -> int {
        spec_cost(self.selfs, self.touch, self.sight.spec_get() as int, self.hearing.spec_get() as int)
    }

    /// Self sense and a sight of five tiles.
    pub fn default_senses() -> (s: Senses)
        ensures
            s.selfs,
            !s.touch,
            s.sight.spec_get() == 5,
            s.hearing.spec_get() == 0,
    {
        let sight = match SightLevel::new(5) {
            Some(l) => l,
            None => SightLevel::min_strength(),
        };
        let hearing = HearingLevel::min_strength();
        Senses { selfs: true, touch: false, sight, hearing }
    }

    pub fn cost(&self) -> (r: u8)
        ensures
            r == self.spec_cost(),
            r <= 19,
    {
        let mut result: u8 = 0;
        if self.selfs {
            result += 1;
        }
        if self.touch {
            result += 1;
        }
        let sight = self.sight.get();
        if sight > 0 {
            result += 2;
            result += sight;
        }
        result += self.hearing.get();
        result
    }

    /// The senses of both, each at the stronger of the two.
    pub fn merge(self, senses: Senses) -> (r: Senses)
        ensures
            r.touch == (senses.touch || self.touch),
            r.selfs == (senses.selfs || self.selfs),
            r.sight.spec_get() == if senses.sight.spec_get() >= self.sight.spec_get() {
                senses.sight.spec_get()
            } else {
                self.sight.spec_get()
            },
            r.hearing.spec_get() == if senses.hearing.spec_get() >= self.hearing.spec_get() {
                senses.hearing.spec_get()
            } else {
                self.hearing.spec_get()
            },
    {
        Senses {
            touch: bool::merge(senses.touch, self.touch),
            selfs: bool::merge(senses.selfs, self.selfs),
            sight: SightLevel::merge(senses.sight, self.sight),
            hearing: HearingLevel::merge(senses.hearing, self.hearing),
        }
    }
}

/// The cost of senses never exceeds nineteen, and only grows with the senses used.
pub proof fn lemma_cost_monotone(a: Senses, b: Senses)
    requires
        a.sight.spec_get() <= b.sight.spec_get() <= 10,
        a.hearing.spec_get() <= b.hearing.spec_get() <= 5,
        a.selfs ==> b.selfs,
        a.touch ==> b.touch,
    ensures
        a.spec_cost() <= b.spec_cost() <= 19,
{
}

impl Default for Senses {
    fn default() -> (s: Senses)
        ensures
            s.selfs,
            !s.touch,
            s.sight.spec_get() == 5,
            s.hearing.spec_get() == 0,
    {
        Senses::default_senses()
    }
}

#[derive(Debug, Clone, Copy, PartialEq, Eq, Structural)]
pub struct SelfInfo {
    pub hp: u8,
    pub hp_max: u8,
    pub focus: u8,
    pub turn: Turn,
}

#[derive(Debug, Clone)]
pub struct TouchInfo {
    pub tiles: Tiles,
    /// Offsets of the living foes that are not traps, at most one tile away.
    pub foes: Vec<Offset>,
    /// Number of living traps at most one tile away.
    pub traps: u8,
    pub orb: bool,
}

#[derive(Debug, Clone, Copy, PartialEq, Eq, Structural)]
pub struct SightedFoe {
    /// Index of the foe in the stage.
    pub id: usize,
    pub offset: Offset,
    pub foe_type: FoeId,
    pub alive: bool,
}

#[derive(Debug, Clone, PartialEq, Eq)]
pub enum SightedAllyStatus {
    /// A player still plays this avatar, at the given stage turn.
    Controlled { turn: Turn, name: String },
    /// The player has left this avatar.
    Discarded,
}

#[derive(Debug, Clone, PartialEq, Eq)]
pub struct SightedAlly {
    pub name: Option<String>,
    pub offset: Offset,
    pub alive: bool,
    pub status: SightedAllyStatus,
    /// Where the ally moves next, when it is already known.
    pub next_move: Option<Offset>,
}

#[derive(Debug, Clone)]
pub struct SightInfo {
    pub tiles: Tiles,
    pub foes: Vec<SightedFoe>,
    pub orb: Option<Offset>,
    pub allies: Vec<SightedAlly>,
}

#[derive(Debug, Clone, Copy, PartialEq, Eq, Structural)]
pub struct HearingInfo {
    /// We don't want to give the player the exact distance
    pub range: Option<HearingRange>,
}

/// The distance at which hearing of a given strength perceives the orb.
pub open spec fn spec_hearing_dist(strength: int) -> Option<u8> {
    if strength == 1 {
        Some(3u8)
    } else if strength == 2 {
        Some(6u8)
    } else if strength == 3 {
        Some(10u8)
    } else if strength == 4 {
        Some(15u8)
    } else if strength == 5 {
        Some(21u8)
    } else {
        None
    }
}

impl HearingInfo {
    pub fn dist(strength: u8) -> (r: Option<u8>)
        ensures
            r == spec_hearing_dist(strength as int),
    {
        match strength {
            1 => Some(3),
            2 => Some(6),
            3 => Some(10),
            4 => Some(15),
            5 => Some(21),
            _ => None,
        }
    }
}

/// A stronger hearing hears at least as far.
pub proof fn lemma_hearing_dist_monotone(a: int, b: int)
    requires
        1 <= a <= b <= 5,
    ensures
        spec_hearing_dist(a).unwrap() <= spec_hearing_dist(b).unwrap(),
{
}

#[derive(Debug, Clone)]
pub struct SensesInfo {
    pub selfi: Option<SelfInfo>,
    pub touch: Option<TouchInfo>,
    pub sight: Option<SightInfo>,
    pub hearing: Option<HearingInfo>,
}

impl SensesInfo {
    /// Nothing perceived.
    pub fn empty() -> (r: SensesInfo)
        ensures
            r.selfi is None,
            r.touch is None,
            r.sight is None,
            r.hearing is None,
    {
        SensesInfo { selfi: None, touch: None, sight: None, hearing: None }
    }
}

} // verus!
