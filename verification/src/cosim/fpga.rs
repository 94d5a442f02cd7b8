//! The cycle-accurate FPGA co-simulation bridge: named pins, a cycle
//! counter and a memory-mapped register bus.

use vstd::prelude::*;
use crate::text::{str_eq, to_string};

verus! {

broadcast use vstd::std_specs::hash::group_hash_axioms;

/// Digital logic state of an FPGA signal.
#[derive(Debug, Clone, Copy, PartialEq, Eq, Structural)]
pub enum DigitalLogicState {
    Zero,
    One,
    HighZ,
    Undefined,
}

/// An FPGA pin.
#[derive(Debug, Clone)]
pub struct FpgaPin {
    pub name: String,
    pub state: DigitalLogicState,
    pub is_output: bool,
    pub tied_net: Option<String>,
}

/// What a pin holds.
pub struct PinView {
    pub state: DigitalLogicState,
    pub is_output: bool,
    pub tied_net: Option<Seq<char>>,
}

impl View for FpgaPin {
    type V = PinView;

    open spec fn view(&self) -> PinView {
        PinView {
            state: self.state,
            is_output: self.is_output,
            tied_net: match self.tied_net {
                Some(n) => Some(n@),
                None => None,
            },
        }
    }
}

/// A cycle-accurate FPGA simulation bridge.
#[derive(Debug)]
pub struct FpgaBridge {
    pub name: String,
    pub target_device: String,
    pub clock_freq_hz: u64,
    pub current_cycle: u64,
    /// The registered pins; no two share a name.
    pub pins: Vec<FpgaPin>,
    pub memory_mapped_regs: std::collections::HashMap<u32, u32>,
}

/// The pins of a pin list, by name.
pub open spec fn pin_map(pins: Seq<FpgaPin>) -> Map<Seq<char>, PinView> {
    Map::new(
        |n: Seq<char>| exists|i: int| 0 <= i < pins.len() && pins[i].name@ == n,
        |n: Seq<char>| pins[choose|i: int| 0 <= i < pins.len() && pins[i].name@ == n]@,
    )
}

impl FpgaBridge {
    /// No two pins share a name.
    pub open spec fn wf(&self) -> bool {
        forall|i: int, j: int|
            0 <= i < j < self.pins@.len() ==> self.pins@[i].name@ != self.pins@[j].name@
    }

    /// The registered pins, by name.
    pub open spec fn pin_view(&self) -> Map<Seq<char>, PinView> {
        pin_map(self.pins@)
    }

    /// A bridge at cycle 0 with no pins and all registers reading 0.
    pub fn new(name: &str, target_device: &str, clock_freq_hz: u64) -> (r: Self)
        ensures
            r.wf(),
            r.name@ == name@,
            r.target_device@ == target_device@,
            r.clock_freq_hz == clock_freq_hz,
            r.current_cycle == 0,
            r.pin_view() == Map::<Seq<char>, PinView>::empty(),
            r.memory_mapped_regs@ == Map::<u32, u32>::empty(),
    {
        let r = FpgaBridge {
            name: to_string(name),
            target_device: to_string(target_device),
            clock_freq_hz,
            current_cycle: 0,
            pins: Vec::new(),
            memory_mapped_regs: std::collections::HashMap::new(),
        };
        assert(r.pin_view() =~= Map::<Seq<char>, PinView>::empty());
        r
    }

    /// Registers a pin in state `Zero`, replacing any pin of that name.
    pub fn register_pin(&mut self, name: &str, is_output: bool, tied_net: Option<String>)
        requires
            old(self).wf(),
        ensures
            final(self).wf(),
            final(self).pin_view() == old(self).pin_view().insert(
                name@,
                PinView {
                    state: DigitalLogicState::Zero,
                    is_output,
                    tied_net: match tied_net {
                        Some(n) => Some(n@),
                        None => None,
                    },
                },
            ),
            final(self).name == old(self).name,
            final(self).target_device == old(self).target_device,
            final(self).clock_freq_hz == old(self).clock_freq_hz,
            final(self).current_cycle == old(self).current_cycle,
            final(self).memory_mapped_regs@ == old(self).memory_mapped_regs@,
    {
        let pin = FpgaPin { name: to_string(name), state: DigitalLogicState::Zero, is_output, tied_net };
        let ghost pv = pin@;
        let ghost gp = pin;
        let ghost old_pins = self.pins@;
        let mut k: usize = 0;
        while k < self.pins.len()
            invariant
                k <= self.pins.len(),
                self.pins@ == old_pins,
                forall|j: int| 0 <= j < k ==> old_pins[j].name@ != name@,
            ensures
                k <= self.pins.len(),
                self.pins@ == old_pins,
                forall|j: int| 0 <= j < k ==> old_pins[j].name@ != name@,
                k < self.pins.len() ==> old_pins[k as int].name@ == name@,
            decreases self.pins.len() - k,
        {
            if str_eq(self.pins[k].name.as_str(), name) {
                break;
            }
            k += 1;
        }
        if k < self.pins.len() {
            assert(old_pins[k as int].name@ == name@);
            self.pins.set(k, pin);
            assert(self.pins@ == old_pins.update(k as int, gp));
            assert forall|i: int, j: int|
                0 <= i < j < self.pins@.len() implies self.pins@[i].name@ != self.pins@[j].name@ by {
                if i == k as int {
                    assert(old_pins[j].name@ != old_pins[k as int].name@);
                } else if j == k as int {
                    assert(old_pins[i].name@ != old_pins[k as int].name@);
                }
            }
            assert forall|n: Seq<char>| #![auto] self.pin_view().contains_key(n) <==> old(
                self,
            ).pin_view().insert(name@, pv).contains_key(n) by {
                if n != name@ && self.pin_view().contains_key(n) {
                    let i = choose|i: int| 0 <= i < self.pins@.len() && self.pins@[i].name@ == n;
                    assert(old_pins[i].name@ == n);
                }
                if n != name@ && old(self).pin_view().contains_key(n) {
                    let i = choose|i: int| 0 <= i < old_pins.len() && old_pins[i].name@ == n;
                    assert(self.pins@[i].name@ == n);
                }
                if n == name@ {
                    assert(self.pins@[k as int].name@ == n);
                }
            }
            assert forall|n: Seq<char>| #[trigger] self.pin_view().contains_key(n) implies self.pin_view()[n]
                == old(self).pin_view().insert(name@, pv)[n] by {
                let i = choose|i: int| 0 <= i < self.pins@.len() && self.pins@[i].name@ == n;
                if n == name@ {
                    assert(i == k as int) by {
                        if i != k as int {
                            assert(self.pins@[k as int].name@ == n);
                        }
                    }
                } else {
                    let i0 = choose|i: int| 0 <= i < old_pins.len() && old_pins[i].name@ == n;
                    assert(i0 == i) by {
                        if i0 != i {
                            assert(self.pins@[i0].name@ == n);
                        }
                    }
                }
            }
            assert(self.pin_view() =~= old(self).pin_view().insert(name@, pv));
        } else {
            self.pins.push(pin);
            let ghost last = old_pins.len() as int;
            assert(self.pins@ == old_pins.push(gp));
            assert forall|n: Seq<char>| #![auto] self.pin_view().contains_key(n) <==> old(
                self,
            ).pin_view().insert(name@, pv).contains_key(n) by {
                if n != name@ && self.pin_view().contains_key(n) {
                    let i = choose|i: int| 0 <= i < self.pins@.len() && self.pins@[i].name@ == n;
                    assert(old_pins[i].name@ == n);
                }
                if n != name@ && old(self).pin_view().contains_key(n) {
                    let i = choose|i: int| 0 <= i < old_pins.len() && old_pins[i].name@ == n;
                    assert(self.pins@[i].name@ == n);
                }
                if n == name@ {
                    assert(self.pins@[last].name@ == n);
                }
            }
            assert forall|n: Seq<char>| #[trigger] self.pin_view().contains_key(n) implies self.pin_view()[n]
                == old(self).pin_view().insert(name@, pv)[n] by {
                let i = choose|i: int| 0 <= i < self.pins@.len() && self.pins@[i].name@ == n;
                if n == name@ {
                    assert(i == last);
                } else {
                    let i0 = choose|i: int| 0 <= i < old_pins.len() && old_pins[i].name@ == n;
                    assert(i0 == i) by {
                        if i0 != i {
                            assert(self.pins@[i0].name@ == n);
                        }
                    }
                }
            }
            assert(self.pin_view() =~= old(self).pin_view().insert(name@, pv));
        }
    }

    /// The pin of that name, if registered.
    pub fn pin(&self, name: &str) -> (r: Option<&FpgaPin>)
        requires
            self.wf(),
        ensures
            match r {
                Some(p) => self.pin_view().contains_key(name@) && p@ == self.pin_view()[name@]
                    && p.name@ == name@,
                None => !self.pin_view().contains_key(name@),
            },
    {
        let mut k: usize = 0;
        while k < self.pins.len()
            invariant
                k <= self.pins.len(),
                self.wf(),
                forall|j: int| 0 <= j < k ==> self.pins@[j].name@ != name@,
            decreases self.pins.len() - k,
        {
            if str_eq(self.pins[k].name.as_str(), name) {
                assert(self.pin_view().contains_key(name@));
                let ghost i = choose|i: int| 0 <= i < self.pins@.len() && self.pins@[i].name@ == name@;
                assert(i == k as int) by {
                    if i > k {
                        assert(self.pins@[k as int].name@ != self.pins@[i].name@);
                    }
                }
                return Some(&self.pins[k]);
            }
            k += 1;
        }
        None
    }

    /// Advances the clock by `cycles`.
    pub fn step_cycles(&mut self, cycles: u64)
        requires
            old(self).current_cycle + cycles <= u64::MAX,
        ensures
            final(self).current_cycle == old(self).current_cycle + cycles,
            final(self).pins == old(self).pins,
            final(self).memory_mapped_regs@ == old(self).memory_mapped_regs@,
            final(self).clock_freq_hz == old(self).clock_freq_hz,
            final(self).name == old(self).name,
            final(self).target_device == old(self).target_device,
    {
        self.current_cycle = self.current_cycle + cycles;
    }

    /// The value of the register at `offset`, 0 if it was never written.
    pub fn read_register(&self, offset: u32) -> (r: u32)
        ensures
            r == spec_register(self.memory_mapped_regs@, offset),
    {
        match self.memory_mapped_regs.get(&offset) {
            Some(v) => *v,
            None => 0,
        }
    }

    /// Writes `val` to the register at `offset`.
    pub fn write_register(&mut self, offset: u32, val: u32)
        ensures
            final(self).memory_mapped_regs@ == old(self).memory_mapped_regs@.insert(offset, val),
            final(self).pins == old(self).pins,
            final(self).current_cycle == old(self).current_cycle,
            final(self).clock_freq_hz == old(self).clock_freq_hz,
            final(self).name == old(self).name,
            final(self).target_device == old(self).target_device,
    {
        self.memory_mapped_regs.insert(offset, val);
    }
}

/// What a register reads as: its value, or 0 if it was never written.
pub open spec fn spec_register(regs: Map<u32, u32>, offset: u32) -> u32 {
    if regs.contains_key(offset) {
        regs[offset]
    } else {
        0
    }
}

/// A register reads back the last value written to it, and a write
/// leaves every other register as it was.
pub proof fn law_register_read_after_write(regs: Map<u32, u32>, offset: u32, val: u32, other: u32)
    ensures
        spec_register(regs.insert(offset, val), offset) == val,
        other != offset ==> spec_register(regs.insert(offset, val), other) == spec_register(
            regs,
            other,
        ),
{
}

/// A call on a bridge as the register bus sees it: a write of a value at
/// an offset, or any other call, which keeps every register (the
/// contracts of `step_cycles` and `register_pin` say so, and the reading
/// methods take the bridge by shared reference).
pub enum BusEvent {
    Write(u32, u32),
    Keep,
}

/// The value of the last write to `offset` among `events`, if any.
pub open spec fn last_written(events: Seq<BusEvent>, offset: u32) -> Option<u32>
    decreases events.len(),
{
    if events.len() == 0 {
        None
    } else {
        match events.last() {
            BusEvent::Write(o, v) => if o == offset {
                Some(v)
            } else {
                last_written(events.drop_last(), offset)
            },
            BusEvent::Keep => last_written(events.drop_last(), offset),
        }
    }
}

/// The register map after one call: a write inserts its value, any
/// other call keeps the map.
pub open spec fn after_event(regs: Map<u32, u32>, e: BusEvent) -> Map<u32, u32> {
    match e {
        BusEvent::Write(o, v) => regs.insert(o, v),
        BusEvent::Keep => regs,
    }
}

/// A bridge made by `new` (whose registers are empty) and then given any
/// calls: when `maps[i]` is its register map before call `i` and
/// `maps[i + 1]` after it, a register then reads the value of the last
/// write to its offset, or 0 if no write used that offset.
pub proof fn law_register_read_after_calls(
    maps: Seq<Map<u32, u32>>,
    events: Seq<BusEvent>,
    offset: u32,
)
    requires
        maps.len() == events.len() + 1,
        maps[0] == Map::<u32, u32>::empty(),
        forall|i: int|
            0 <= i < events.len() ==> maps.skip(1)[i] == after_event(maps[i], #[trigger] events[i]),
    ensures
        spec_register(maps.last(), offset) == match last_written(events, offset) {
            Some(v) => v,
            None => 0,
        },
    decreases events.len(),
{
    if events.len() > 0 {
        let n = events.len() - 1;
        let m0 = maps.drop_last();
        let e0 = events.drop_last();
        assert forall|i: int| 0 <= i < e0.len() implies m0.skip(1)[i] == after_event(
            m0[i],
            #[trigger] e0[i],
        ) by {
            assert(e0[i] == events[i]);
            assert(maps.skip(1)[i] == after_event(maps[i], events[i]));
            assert(m0.skip(1)[i] == maps.skip(1)[i]);
        }
        law_register_read_after_calls(m0, e0, offset);
        assert(maps.skip(1)[n] == after_event(maps[n], events[n]));
        assert(maps.last() == maps.skip(1)[n]);
        assert(m0.last() == maps[n]);
    }
}

} // verus!
