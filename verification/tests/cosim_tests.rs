use oxide_eda::cosim::fpga::{DigitalLogicState, FpgaBridge};
use oxide_eda::cosim::logic::Logic12State;
use oxide_eda::cosim::session::CoSimStatus;

#[test]
fn test_logic_12_state_resolution() {
    assert_eq!(Logic12State::ForcingOne.resolve(Logic12State::HighZ), Logic12State::ForcingOne);
    assert_eq!(Logic12State::ForcingOne.resolve(Logic12State::ForcingZero), Logic12State::Unknown);
    assert_eq!(Logic12State::ResistiveOne.resolve(Logic12State::ResistiveZero), Logic12State::WeakUnknown);
    assert_eq!(Logic12State::ForcingOne.to_binary(), Some(true));
    assert_eq!(Logic12State::ForcingZero.to_binary(), Some(false));
    assert_eq!(Logic12State::HighZ.to_binary(), None);
}

#[test]
fn resolution_is_commutative_and_idempotent_on_examples() {
    let all = [
        Logic12State::ForcingZero,
        Logic12State::ForcingOne,
        Logic12State::HighZ,
        Logic12State::Unknown,
        Logic12State::ResistiveZero,
        Logic12State::ResistiveOne,
        Logic12State::WeakUnknown,
    ];
    for a in all {
        assert_eq!(a.resolve(Logic12State::HighZ), a);
        assert_eq!(a.resolve(a), a);
        for b in all {
            assert_eq!(a.resolve(b), b.resolve(a));
        }
    }
}

#[test]
fn fpga_registers_read_back_and_default_to_zero() {
    let mut fpga = FpgaBridge::new("soc", "Lattice iCE40", 48_000_000);
    assert_eq!(fpga.read_register(0x10), 0);
    fpga.write_register(0x10, 0xDEAD_BEEF);
    fpga.write_register(0x14, 7);
    assert_eq!(fpga.read_register(0x10), 0xDEAD_BEEF);
    assert_eq!(fpga.read_register(0x14), 7);
    fpga.write_register(0x10, 1);
    assert_eq!(fpga.read_register(0x10), 1);
    fpga.step_cycles(5);
    fpga.step_cycles(7);
    assert_eq!(fpga.current_cycle, 12);
}

#[test]
fn fpga_pins_register_and_replace() {
    let mut fpga = FpgaBridge::new("soc", "Xilinx Artix-7", 100_000_000);
    fpga.register_pin("LED0", true, Some("NET_LED".to_string()));
    fpga.register_pin("BTN0", false, None);
    fpga.register_pin("LED0", false, None);
    assert_eq!(fpga.pins.len(), 2);
    let led = fpga.pin("LED0").unwrap();
    assert!(!led.is_output);
    assert_eq!(led.tied_net, None);
    assert_eq!(led.state, DigitalLogicState::Zero);
    assert!(fpga.pin("NOPE").is_none());
    assert_ne!(CoSimStatus::Idle, CoSimStatus::Running);
}

#[test]
fn register_reads_the_last_write_of_a_history() {
    let mut fpga = FpgaBridge::new("soc", "dev", 1);
    let writes: [(u32, u32); 5] = [(4, 1), (8, 2), (4, 3), (12, 4), (8, 5)];
    for (o, v) in writes {
        fpga.write_register(o, v);
    }
    fpga.step_cycles(3);
    assert_eq!(fpga.read_register(4), 3);
    assert_eq!(fpga.read_register(8), 5);
    assert_eq!(fpga.read_register(12), 4);
    assert_eq!(fpga.read_register(16), 0);
    assert_eq!(fpga.name, "soc");
    assert_eq!(fpga.target_device, "dev");
    assert_eq!(fpga.clock_freq_hz, 1);
    assert_eq!(fpga.current_cycle, 3);
}

#[test]
fn resolution_follows_the_ieee_1164_table() {
    for s in [Logic12State::ForcingZero, Logic12State::ForcingOne, Logic12State::HighZ, Logic12State::Unknown, Logic12State::WeakUnknown, Logic12State::LowDecay, Logic12State::HighDecay] {
        assert_eq!(Logic12State::Unknown.resolve(s), Logic12State::Unknown);
        assert_eq!(s.resolve(Logic12State::Unknown), Logic12State::Unknown);
    }
    assert_eq!(Logic12State::Unknown.resolve(Logic12State::Uninitialized), Logic12State::Uninitialized);
    assert_eq!(Logic12State::ForcingOne.resolve(Logic12State::Uninitialized), Logic12State::Uninitialized);
    assert_eq!(Logic12State::LowDecay.resolve(Logic12State::HighDecay), Logic12State::WeakUnknown);
    assert_eq!(Logic12State::WeakUnknown.resolve(Logic12State::LowDecay), Logic12State::WeakUnknown);
    assert_eq!(Logic12State::WeakUnknown.resolve(Logic12State::HighZ), Logic12State::WeakUnknown);
    assert_eq!(Logic12State::ResistiveOne.resolve(Logic12State::WeakUnknown), Logic12State::WeakUnknown);
    assert_eq!(Logic12State::ResistiveZero.resolve(Logic12State::LowDecay), Logic12State::ResistiveZero);
    assert_eq!(Logic12State::ForcingZero.resolve(Logic12State::HighDecay), Logic12State::ForcingZero);
    assert_eq!(Logic12State::ForcingOne.resolve(Logic12State::LowDecay), Logic12State::ForcingOne);
    assert_eq!(Logic12State::AnalogTransitioningHigh.resolve(Logic12State::ForcingOne), Logic12State::Unknown);
    assert_eq!(Logic12State::AnalogTransitioningLow.resolve(Logic12State::HighZ), Logic12State::AnalogTransitioningLow);
}

#[test]
fn resolution_is_associative_on_all_states() {
    let all = [
        Logic12State::ForcingZero, Logic12State::ForcingOne, Logic12State::HighZ, Logic12State::Unknown, Logic12State::ResistiveZero, Logic12State::ResistiveOne, Logic12State::WeakUnknown, Logic12State::LowDecay,
        Logic12State::HighDecay, Logic12State::Uninitialized, Logic12State::AnalogTransitioningHigh, Logic12State::AnalogTransitioningLow,
    ];
    for a in all {
        for b in all {
            for c in all {
                assert_eq!(a.resolve(b).resolve(c), a.resolve(b.resolve(c)));
            }
        }
    }
}
