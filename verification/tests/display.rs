use ddcd::calibration::Calibration;
use ddcd::display::{Channel, Display, Pending, Step};
use ddcd::error::Error;
use ddcd::vcp::{
    RegisterWrite, VcpValue, VCP_BRIGHTNESS, VCP_GAIN_BLUE, VCP_GAIN_GREEN, VCP_GAIN_RED,
    VCP_INPUT,
};

fn register(id: u8, max: u16, current: u16) -> VcpValue {
    VcpValue::from_display(id, Ok((max, current))).unwrap()
}

/// A display of the calibrated kind: factors 215, 219, 210 of 219.
fn display(brightness: (u16, u16), red: (u16, u16), green: (u16, u16), blue: (u16, u16)) -> Display {
    Display::new(
        1,
        String::from("DELL P3221D"),
        Calibration::new(215, 219, 210, 219).unwrap(),
        register(VCP_BRIGHTNESS, brightness.0, brightness.1),
        register(VCP_GAIN_RED, red.0, red.1),
        register(VCP_GAIN_GREEN, green.0, green.1),
        register(VCP_GAIN_BLUE, blue.0, blue.1),
    )
}

/// Answers each write that is handed out with the next outcome, and
/// returns the writes and the last answer.
fn drive(d: &mut Display, first: Step, outcomes: &[Result<(), Error>]) -> (Vec<RegisterWrite>, Step) {
    let mut writes = Vec::new();
    let mut step = first;
    let mut next = outcomes.iter();
    while let Step::Write(w) = step {
        writes.push(w);
        match next.next() {
            Some(outcome) => step = d.written(*outcome),
            None => break,
        }
    }
    (writes, step)
}

const ALL_OK: [Result<(), Error>; 4] = [Ok(()), Ok(()), Ok(()), Ok(())];

fn currents(d: &Display) -> [u16; 4] {
    [
        d.register(Channel::Brightness).current(),
        d.register(Channel::GainRed).current(),
        d.register(Channel::GainGreen).current(),
        d.register(Channel::GainBlue).current(),
    ]
}

#[test]
fn new_display_starts_at_luminance_zero() {
    let d = display((100, 37), (100, 90), (100, 91), (100, 92));
    assert_eq!(d.luminance(), 0);
    assert_eq!(d.pending(), None);
    assert_eq!(d.dispno(), 1);
    assert_eq!(d.model().as_str(), "DELL P3221D");
    assert_eq!(currents(&d), [37, 90, 91, 92]);
    assert_eq!(d.register(Channel::Brightness).id(), VCP_BRIGHTNESS);
    assert_eq!(d.register(Channel::GainRed).id(), VCP_GAIN_RED);
    assert_eq!(d.register(Channel::GainGreen).id(), VCP_GAIN_GREEN);
    assert_eq!(d.register(Channel::GainBlue).id(), VCP_GAIN_BLUE);
    assert_eq!(d.calibration().red(), 215);
    assert_eq!(d.calibration().green(), 219);
    assert_eq!(d.calibration().blue(), 210);
    assert_eq!(d.calibration().max(), 219);
}

#[test]
fn backlight_range_puts_gains_at_max_and_brightness_at_percentage() {
    let mut d = display((255, 0), (100, 10), (90, 20), (80, 30));
    let first = d.set_luminance(45);
    let (writes, end) = drive(&mut d, first, &ALL_OK);
    assert_eq!(end, Step::Done);
    assert_eq!(
        writes,
        vec![
            RegisterWrite { id: VCP_BRIGHTNESS, value: 115 },
            RegisterWrite { id: VCP_GAIN_RED, value: 100 },
            RegisterWrite { id: VCP_GAIN_GREEN, value: 90 },
            RegisterWrite { id: VCP_GAIN_BLUE, value: 80 },
        ]
    );
    assert_eq!(currents(&d), [115, 100, 90, 80]);
    assert_eq!(d.luminance(), 45);
    assert_eq!(d.pending(), None);
}

#[test]
fn levels_in_the_backlight_range() {
    let d = display((255, 0), (100, 10), (90, 20), (80, 30));
    for l in 0i8..=100 {
        assert_eq!(d.level(Channel::GainRed, l), 100);
        assert_eq!(d.level(Channel::GainGreen, l), 90);
        assert_eq!(d.level(Channel::GainBlue, l), 80);
    }
    assert_eq!(d.level(Channel::Brightness, 0), 0);
    assert_eq!(d.level(Channel::Brightness, 50), 128);
    assert_eq!(d.level(Channel::Brightness, 100), 255);
}

#[test]
fn levels_in_the_dimmed_range() {
    let d = display((255, 0), (100, 10), (100, 20), (100, 30));
    for l in -100i8..=-1 {
        assert_eq!(d.level(Channel::Brightness, l), 0);
    }
    assert_eq!(d.level(Channel::GainRed, -5), 93);
    assert_eq!(d.level(Channel::GainGreen, -5), 95);
    assert_eq!(d.level(Channel::GainBlue, -5), 91);
    assert_eq!(d.level(Channel::GainRed, -100), 0);
    assert_eq!(d.level(Channel::GainGreen, -100), 0);
    assert_eq!(d.level(Channel::GainBlue, -100), 0);
}

#[test]
fn dimmed_range_writes_brightness_zero_then_scaled_gains() {
    let mut d = display((100, 40), (100, 100), (100, 100), (100, 100));
    let first = d.set_luminance(-50);
    let (writes, end) = drive(&mut d, first, &ALL_OK);
    assert_eq!(end, Step::Done);
    assert_eq!(
        writes,
        vec![
            RegisterWrite { id: VCP_BRIGHTNESS, value: 0 },
            RegisterWrite { id: VCP_GAIN_RED, value: 49 },
            RegisterWrite { id: VCP_GAIN_GREEN, value: 50 },
            RegisterWrite { id: VCP_GAIN_BLUE, value: 48 },
        ]
    );
    assert_eq!(currents(&d), [0, 49, 50, 48]);
    assert_eq!(d.luminance(), -50);
}

#[test]
fn darkest_luminance_puts_all_gains_at_zero() {
    let mut d = display((100, 0), (100, 100), (255, 255), (65_535, 65_535));
    let first = d.set_luminance(-100);
    let (writes, end) = drive(&mut d, first, &ALL_OK);
    assert_eq!(end, Step::Done);
    assert_eq!(
        writes,
        vec![
            RegisterWrite { id: VCP_GAIN_RED, value: 0 },
            RegisterWrite { id: VCP_GAIN_GREEN, value: 0 },
            RegisterWrite { id: VCP_GAIN_BLUE, value: 0 },
        ]
    );
    assert_eq!(currents(&d), [0, 0, 0, 0]);
    assert_eq!(d.luminance(), -100);
}

#[test]
fn registers_at_their_level_get_no_write() {
    let mut d = display((100, 5), (100, 100), (100, 100), (100, 100));
    assert_eq!(d.set_luminance(5), Step::Done);
    assert_eq!(d.luminance(), 5);
    assert_eq!(d.pending(), None);
    assert_eq!(currents(&d), [5, 100, 100, 100]);
}

#[test]
fn only_the_registers_that_differ_are_written() {
    let mut d = display((100, 20), (100, 100), (100, 7), (100, 100));
    let first = d.set_luminance(20);
    assert_eq!(first, Step::Write(RegisterWrite { id: VCP_GAIN_GREEN, value: 100 }));
    assert_eq!(
        d.pending(),
        Some(Pending::Luminance { target: 20, channel: Channel::GainGreen })
    );
    assert_eq!(d.luminance(), 0);
    assert_eq!(d.written(Ok(())), Step::Done);
    assert_eq!(d.luminance(), 20);
    assert_eq!(currents(&d), [20, 100, 100, 100]);
}

#[test]
fn luminance_changes_only_when_the_last_write_is_done() {
    let mut d = display((100, 0), (100, 50), (100, 50), (100, 50));
    let mut step = d.set_luminance(10);
    let mut seen = 0;
    while let Step::Write(_) = step {
        assert_eq!(d.luminance(), 0);
        seen += 1;
        step = d.written(Ok(()));
    }
    assert_eq!(seen, 4);
    assert_eq!(step, Step::Done);
    assert_eq!(d.luminance(), 10);
}

#[test]
fn increase_from_zero_writes_five_percent() {
    let mut d = display((100, 0), (100, 100), (100, 100), (100, 100));
    let first = d.increase_luminance();
    assert_eq!(first, Step::Write(RegisterWrite { id: VCP_BRIGHTNESS, value: 5 }));
    assert_eq!(d.written(Ok(())), Step::Done);
    assert_eq!(d.luminance(), 5);
    assert_eq!(d.register(Channel::Brightness).current(), 5);
}

#[test]
fn increase_from_98_yields_100() {
    let mut d = display((100, 0), (100, 100), (100, 100), (100, 100));
    let first = d.set_luminance(98);
    assert_eq!(drive(&mut d, first, &ALL_OK).1, Step::Done);
    assert_eq!(d.luminance(), 98);
    let first = d.increase_luminance();
    assert_eq!(first, Step::Write(RegisterWrite { id: VCP_BRIGHTNESS, value: 100 }));
    assert_eq!(d.written(Ok(())), Step::Done);
    assert_eq!(d.luminance(), 100);
    assert_eq!(d.increase_luminance(), Step::Done);
    assert_eq!(d.luminance(), 100);
}

#[test]
fn decrease_from_minus_98_yields_minus_100() {
    let mut d = display((100, 0), (100, 100), (100, 100), (100, 100));
    let first = d.set_luminance(-98);
    assert_eq!(drive(&mut d, first, &ALL_OK).1, Step::Done);
    assert_eq!(d.luminance(), -98);
    assert_eq!(currents(&d), [0, 2, 2, 2]);
    let first = d.decrease_luminance();
    let (writes, end) = drive(&mut d, first, &ALL_OK);
    assert_eq!(end, Step::Done);
    assert_eq!(writes.len(), 3);
    assert_eq!(d.luminance(), -100);
    assert_eq!(currents(&d), [0, 0, 0, 0]);
    assert_eq!(d.decrease_luminance(), Step::Done);
    assert_eq!(d.luminance(), -100);
}

#[test]
fn stepping_down_through_zero_switches_to_the_gains() {
    let mut d = display((100, 5), (100, 100), (100, 100), (100, 100));
    let first = d.set_luminance(5);
    assert_eq!(first, Step::Done);
    let first = d.decrease_luminance();
    assert_eq!(first, Step::Write(RegisterWrite { id: VCP_BRIGHTNESS, value: 0 }));
    assert_eq!(d.written(Ok(())), Step::Done);
    assert_eq!(d.luminance(), 0);
    let first = d.decrease_luminance();
    let (writes, end) = drive(&mut d, first, &ALL_OK);
    assert_eq!(end, Step::Done);
    assert_eq!(
        writes,
        vec![
            RegisterWrite { id: VCP_GAIN_RED, value: 93 },
            RegisterWrite { id: VCP_GAIN_GREEN, value: 95 },
            RegisterWrite { id: VCP_GAIN_BLUE, value: 91 },
        ]
    );
    assert_eq!(d.luminance(), -5);
    let first = d.increase_luminance();
    let (writes, end) = drive(&mut d, first, &ALL_OK);
    assert_eq!(end, Step::Done);
    assert_eq!(
        writes,
        vec![
            RegisterWrite { id: VCP_GAIN_RED, value: 100 },
            RegisterWrite { id: VCP_GAIN_GREEN, value: 100 },
            RegisterWrite { id: VCP_GAIN_BLUE, value: 100 },
        ]
    );
    assert_eq!(d.luminance(), 0);
}

#[test]
fn failed_gain_write_keeps_the_luminance_and_the_brightness_written() {
    let mut d = display((100, 50), (100, 100), (100, 100), (100, 100));
    let first = d.decrease_luminance();
    assert_eq!(first, Step::Write(RegisterWrite { id: VCP_BRIGHTNESS, value: 0 }));
    let second = d.written(Ok(()));
    assert_eq!(second, Step::Write(RegisterWrite { id: VCP_GAIN_RED, value: 93 }));
    assert_eq!(d.written(Err(Error::Sys(-3020))), Step::Failed(Error::Sys(-3020)));
    assert_eq!(d.luminance(), 0);
    assert_eq!(d.pending(), None);
    assert_eq!(currents(&d), [0, 100, 100, 100]);
}

#[test]
fn failed_first_write_changes_nothing() {
    let mut d = display((100, 50), (100, 100), (100, 100), (100, 100));
    let first = d.set_luminance(80);
    assert_eq!(first, Step::Write(RegisterWrite { id: VCP_BRIGHTNESS, value: 80 }));
    assert_eq!(d.written(Err(Error::Sys(-1))), Step::Failed(Error::Sys(-1)));
    assert_eq!(d.luminance(), 0);
    assert_eq!(currents(&d), [50, 100, 100, 100]);
    assert_eq!(d.pending(), None);
}

#[test]
fn failed_last_write_keeps_the_luminance() {
    let mut d = display((100, 50), (100, 100), (100, 100), (100, 100));
    let first = d.set_luminance(-50);
    let outcomes = [Ok(()), Ok(()), Ok(()), Err(Error::Sys(-7))];
    let (writes, end) = drive(&mut d, first, &outcomes);
    assert_eq!(end, Step::Failed(Error::Sys(-7)));
    assert_eq!(writes.len(), 4);
    assert_eq!(d.luminance(), 0);
    assert_eq!(currents(&d), [0, 49, 50, 100]);
}

#[test]
fn a_change_can_be_tried_again_after_a_failure() {
    let mut d = display((100, 50), (100, 100), (100, 100), (100, 100));
    let first = d.set_luminance(-50);
    let (_, end) = drive(&mut d, first, &[Ok(()), Err(Error::Sys(-7))]);
    assert_eq!(end, Step::Failed(Error::Sys(-7)));
    let first = d.set_luminance(-50);
    let (writes, end) = drive(&mut d, first, &ALL_OK);
    assert_eq!(end, Step::Done);
    // the brightness holds 0 already and is not written again
    assert_eq!(
        writes,
        vec![
            RegisterWrite { id: VCP_GAIN_RED, value: 49 },
            RegisterWrite { id: VCP_GAIN_GREEN, value: 50 },
            RegisterWrite { id: VCP_GAIN_BLUE, value: 48 },
        ]
    );
    assert_eq!(d.luminance(), -50);
}

#[test]
fn set_input_always_writes_the_id_as_it_is() {
    let mut d = display((100, 50), (100, 100), (100, 100), (100, 100));
    assert_eq!(d.set_input(3), Step::Write(RegisterWrite { id: VCP_INPUT, value: 3 }));
    assert_eq!(d.pending(), Some(Pending::Input));
    assert_eq!(d.written(Ok(())), Step::Done);
    assert_eq!(d.pending(), None);
    // the same input again is written again
    assert_eq!(d.set_input(3), Step::Write(RegisterWrite { id: VCP_INPUT, value: 3 }));
    assert_eq!(d.written(Ok(())), Step::Done);
    assert_eq!(d.set_input(65_535), Step::Write(RegisterWrite { id: VCP_INPUT, value: 65_535 }));
    assert_eq!(d.written(Ok(())), Step::Done);
    assert_eq!(d.luminance(), 0);
    assert_eq!(currents(&d), [50, 100, 100, 100]);
}

#[test]
fn failed_input_write_is_handed_on() {
    let mut d = display((100, 50), (100, 100), (100, 100), (100, 100));
    assert_eq!(d.set_input(0x0f), Step::Write(RegisterWrite { id: VCP_INPUT, value: 0x0f }));
    assert_eq!(d.written(Err(Error::Sys(-3004))), Step::Failed(Error::Sys(-3004)));
    assert_eq!(d.pending(), None);
}

#[test]
fn an_outcome_with_nothing_handed_out_is_ignored() {
    let mut d = display((100, 50), (100, 100), (100, 100), (100, 100));
    assert_eq!(d.written(Ok(())), Step::Done);
    assert_eq!(d.written(Err(Error::Sys(-1))), Step::Done);
    assert_eq!(d.luminance(), 0);
    assert_eq!(currents(&d), [50, 100, 100, 100]);
}

#[test]
fn a_register_read_above_its_max_is_brought_to_its_level() {
    let mut d = display((100, 60_000), (100, 100), (100, 100), (100, 100));
    let first = d.set_luminance(100);
    assert_eq!(first, Step::Write(RegisterWrite { id: VCP_BRIGHTNESS, value: 100 }));
    assert_eq!(d.written(Ok(())), Step::Done);
    assert_eq!(d.register(Channel::Brightness).current(), 100);
    assert_eq!(d.register(Channel::Brightness).max(), 100);
}

#[test]
fn writes_go_to_the_ids_of_the_caches() {
    let mut d = Display::new(
        7,
        String::from("X"),
        Calibration::new(1, 1, 1, 1).unwrap(),
        register(0x01, 10, 0),
        register(0x02, 10, 0),
        register(0x03, 10, 0),
        register(0x04, 10, 0),
    );
    let first = d.set_luminance(100);
    let (writes, end) = drive(&mut d, first, &ALL_OK);
    assert_eq!(end, Step::Done);
    assert_eq!(
        writes,
        vec![
            RegisterWrite { id: 0x01, value: 10 },
            RegisterWrite { id: 0x02, value: 10 },
            RegisterWrite { id: 0x03, value: 10 },
            RegisterWrite { id: 0x04, value: 10 },
        ]
    );
}

#[test]
fn channels_are_ordered_brightness_red_green_blue() {
    assert_eq!(Channel::Brightness.position(), 0);
    assert_eq!(Channel::GainRed.position(), 1);
    assert_eq!(Channel::GainGreen.position(), 2);
    assert_eq!(Channel::GainBlue.position(), 3);
}

#[test]
fn calibration_needs_a_max_above_zero() {
    assert_eq!(Calibration::new(1, 2, 3, 0), None);
    let c = Calibration::new(1, 2, 3, 4).unwrap();
    assert_eq!((c.red(), c.green(), c.blue(), c.max()), (1, 2, 3, 4));
}

#[test]
fn calibration_is_known_for_the_dell_p3221d_only() {
    let c = Calibration::for_model(&String::from("DELL P3221D")).unwrap();
    assert_eq!((c.red(), c.green(), c.blue(), c.max()), (215, 219, 210, 219));
    assert_eq!(Calibration::for_model(&String::from("DELL P3221")), None);
    assert_eq!(Calibration::for_model(&String::from("dell p3221d")), None);
    assert_eq!(Calibration::for_model(&String::from("DELL P3221D ")), None);
    assert_eq!(Calibration::for_model(&String::from("")), None);
    assert_eq!(Calibration::for_model(&String::from("X")), None);
}
