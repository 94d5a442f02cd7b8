//! The 12-state mixed-signal logic taxonomy and its wired resolution.

use vstd::prelude::*;

verus! {

/// 12-state logic taxonomy: IEEE 1164 states plus decay and analog
/// transition states.
#[derive(Debug, Clone, Copy, PartialEq, Eq, Hash, Structural)]
pub enum Logic12State {
    /// Forcing low ('0').
    ForcingZero,
    /// Forcing high ('1').
    ForcingOne,
    /// High impedance ('Z').
    HighZ,
    /// Unknown or conflict ('X').
    Unknown,
    /// Resistive low ('R').
    ResistiveZero,
    /// Resistive high ('F').
    ResistiveOne,
    /// Weak unknown ('W').
    WeakUnknown,
    /// Low decay ('L').
    LowDecay,
    /// High decay ('H').
    HighDecay,
    /// Uninitialized ('U').
    Uninitialized,
    /// Analog transitioning high ('E1').
    AnalogTransitioningHigh,
    /// Analog transitioning low ('E0').
    AnalogTransitioningLow,
}

/// The binary value a state stands for, if it stands for one.
pub open spec fn spec_to_binary(s: Logic12State) -> Option<bool> {
    match s {
        Logic12State::ForcingOne | Logic12State::ResistiveOne | Logic12State::HighDecay => Some(true),
        Logic12State::ForcingZero | Logic12State::ResistiveZero | Logic12State::LowDecay => Some(false),
        _ => None,
    }
}

/// The drive strength of a state: uninitialised above everything, then
/// the forcing states (`0`, `1`, `X` and the analog transitions), then the
/// weak ones (resistive, decaying, `W`), then high impedance.
pub open spec fn strength(s: Logic12State) -> int {
    match s {
        Logic12State::Uninitialized => 3,
        Logic12State::ForcingZero | Logic12State::ForcingOne | Logic12State::Unknown
        | Logic12State::AnalogTransitioningHigh | Logic12State::AnalogTransitioningLow => 2,
        Logic12State::ResistiveZero | Logic12State::ResistiveOne | Logic12State::WeakUnknown
        | Logic12State::LowDecay | Logic12State::HighDecay => 1,
        Logic12State::HighZ => 0,
    }
}

/// Whether a weak state drives low (`R`, `L`).
pub open spec fn weak_low(s: Logic12State) -> bool {
    s == Logic12State::ResistiveZero || s == Logic12State::LowDecay
}

/// Whether a weak state drives high (`F`, `H`).
pub open spec fn weak_high(s: Logic12State) -> bool {
    s == Logic12State::ResistiveOne || s == Logic12State::HighDecay
}

/// IEEE 1164 wired resolution of two drivers: equal drivers agree; the
/// stronger driver wins (so `U` absorbs everything, a forcing driver
/// beats a weak one, and high impedance yields); two different forcing
/// drivers give `X`; two different weak drivers give the weak value they
/// share (resistive over decaying) or, on opposite values, `W`.
pub open spec fn spec_resolve(a: Logic12State, b: Logic12State) -> Logic12State {
    if a == b {
        a
    } else if strength(a) > strength(b) {
        a
    } else if strength(b) > strength(a) {
        b
    } else if strength(a) == 2 {
        Logic12State::Unknown
    } else if weak_low(a) && weak_low(b) {
        Logic12State::ResistiveZero
    } else if weak_high(a) && weak_high(b) {
        Logic12State::ResistiveOne
    } else {
        Logic12State::WeakUnknown
    }
}

impl Logic12State {
    /// Converts a 12-state value to binary logic if it resolves to one.
    pub fn to_binary(self) -> (r: Option<bool>)
        ensures
            r == spec_to_binary(self),
    {
        match self {
            Logic12State::ForcingOne | Logic12State::ResistiveOne | Logic12State::HighDecay => Some(true),
            Logic12State::ForcingZero | Logic12State::ResistiveZero | Logic12State::LowDecay => Some(false),
            _ => None,
        }
    }

    /// Resolves driver contention using IEEE 1164 wired resolution (see
    /// [`spec_resolve`]).
    pub fn resolve(self, other: Self) -> (r: Self)
        ensures
            r == spec_resolve(self, other),
    {
        if self == other {
            return self;
        }
        let sa = strength_exec(self);
        let sb = strength_exec(other);
        if sa > sb {
            self
        } else if sb > sa {
            other
        } else if sa == 2 {
            Logic12State::Unknown
        } else if is_weak_low(self) && is_weak_low(other) {
            Logic12State::ResistiveZero
        } else if is_weak_high(self) && is_weak_high(other) {
            Logic12State::ResistiveOne
        } else {
            Logic12State::WeakUnknown
        }
    }
}

fn strength_exec(s: Logic12State) -> (r: u8)
    ensures
        r == strength(s),
{
    match s {
        Logic12State::Uninitialized => 3,
        Logic12State::ForcingZero | Logic12State::ForcingOne | Logic12State::Unknown
        | Logic12State::AnalogTransitioningHigh | Logic12State::AnalogTransitioningLow => 2,
        Logic12State::ResistiveZero | Logic12State::ResistiveOne | Logic12State::WeakUnknown
        | Logic12State::LowDecay | Logic12State::HighDecay => 1,
        Logic12State::HighZ => 0,
    }
}

fn is_weak_low(s: Logic12State) -> (r: bool)
    ensures
        r == weak_low(s),
{
    s == Logic12State::ResistiveZero || s == Logic12State::LowDecay
}

fn is_weak_high(s: Logic12State) -> (r: bool)
    ensures
        r == weak_high(s),
{
    s == Logic12State::ResistiveOne || s == Logic12State::HighDecay
}

/// Resolution does not depend on the order of the two drivers.
pub proof fn law_resolve_commutative(a: Logic12State, b: Logic12State)
    ensures
        spec_resolve(a, b) == spec_resolve(b, a),
{
}

/// A released (high-impedance) driver leaves the other driver's value.
pub proof fn law_resolve_high_z_identity(a: Logic12State)
    ensures
        spec_resolve(Logic12State::HighZ, a) == a,
        spec_resolve(a, Logic12State::HighZ) == a,
{
}

/// A driver resolved against itself keeps its value.
pub proof fn law_resolve_idempotent(a: Logic12State)
    ensures
        spec_resolve(a, a) == a,
{
}

/// Two forcing drivers of opposite value always conflict.
pub proof fn law_forcing_conflict()
    ensures
        spec_resolve(Logic12State::ForcingOne, Logic12State::ForcingZero) == Logic12State::Unknown,
        spec_resolve(Logic12State::ForcingZero, Logic12State::ForcingOne) == Logic12State::Unknown,
{
}

/// A forcing unknown absorbs every state but uninitialised, and
/// uninitialised absorbs every state.
pub proof fn law_unknown_dominates(a: Logic12State)
    ensures
        a != Logic12State::Uninitialized ==> spec_resolve(Logic12State::Unknown, a)
            == Logic12State::Unknown,
        spec_resolve(Logic12State::Uninitialized, a) == Logic12State::Uninitialized,
{
}

/// Resolving three drivers does not depend on how they are grouped.
pub proof fn law_resolve_associative(a: Logic12State, b: Logic12State, c: Logic12State)
    ensures
        spec_resolve(spec_resolve(a, b), c) == spec_resolve(a, spec_resolve(b, c)),
{
}

/// The driven high states (`1`, `F`, `H`) read as true and the driven low
/// ones (`0`, `R`, `L`) as false; every other state has no binary value.
pub proof fn law_binary_values(s: Logic12State)
    ensures
        (s == Logic12State::ForcingOne || s == Logic12State::ResistiveOne || s
            == Logic12State::HighDecay) <==> spec_to_binary(s) == Some(true),
        (s == Logic12State::ForcingZero || s == Logic12State::ResistiveZero || s
            == Logic12State::LowDecay) <==> spec_to_binary(s) == Some(false),
{
}

} // verus!
