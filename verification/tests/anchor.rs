use rhythm_engine::automation::anchor::SubWaveMode;

#[test]
fn sub_wave_mode_cycle_order() {
    let mut mode = SubWaveMode::Off;
    assert_eq!(mode.cycle(), SubWaveMode::Off);
    assert_eq!(mode, SubWaveMode::Step);
    assert_eq!(mode.cycle(), SubWaveMode::Step);
    assert_eq!(mode, SubWaveMode::Hop);
    assert_eq!(mode.cycle(), SubWaveMode::Hop);
    assert_eq!(mode, SubWaveMode::Oscilate);
    assert_eq!(mode.cycle(), SubWaveMode::Oscilate);
    assert_eq!(mode, SubWaveMode::Off);
}

#[test]
fn sub_wave_mode_four_cycles_return() {
    for start in [SubWaveMode::Off, SubWaveMode::Step, SubWaveMode::Hop, SubWaveMode::Oscilate] {
        let mut mode = start;
        for _ in 0..4 {
            mode.cycle();
        }
        assert_eq!(mode, start);
    }
}
