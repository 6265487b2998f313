use vstd::prelude::*;
use crate::calibration::{Calibration, CalibrationView};
use crate::error::Error;
use crate::luminance::{
    backlight_brightness,
    brightness_level,
    decreased,
    dimmed_gain,
    gain_level,
    increased,
    lemma_backlight_range,
    lemma_dimmed_gain_range,
    step_down,
    step_up,
    valid_luminance,
};
use crate::vcp::{RegisterWrite, VcpValue, VcpValueView, VCP_INPUT};

verus! {

/// The registers that a change of luminance writes, in the order in which
/// it writes them.
#[derive(Clone, Copy, Debug, PartialEq, Eq, Structural)]
pub enum Channel {
    Brightness,
    GainRed,
    GainGreen,
    GainBlue,
}

impl Channel {
    /// The place of the channel in the order of writing, from 0.
    pub open spec fn index(self) -> int {
        match self {
            Channel::Brightness => 0,
            Channel::GainRed => 1,
            Channel::GainGreen => 2,
            Channel::GainBlue => 3,
        }
    }

    /// The place of the channel in the order of writing, from 0.
    pub fn position(&self) -> (r: u8)
        ensures
            r == self.index(),
    {
        match self {
            Channel::Brightness => 0,
            Channel::GainRed => 1,
            Channel::GainGreen => 2,
            Channel::GainBlue => 3,
        }
    }
}

/// What an operation on a display asks of its caller next.
#[derive(Clone, Copy, Debug, PartialEq, Eq, Structural)]
pub enum Step {
    /// Perform this write on the display, then report how it ended.
    Write(RegisterWrite),
    /// The operation is complete.
    Done,
    /// The operation was given up because a write failed.
    Failed(Error),
}

/// The operation that a display is in the middle of: the one whose write
/// has been handed out and not been answered yet.
#[derive(Clone, Copy, Debug, PartialEq, Eq, Structural)]
pub enum Pending {
    /// The input-select register is being written.
    Input,
    /// The luminance is being changed to `target`, and the write to the
    /// register of `channel` is the one handed out.
    Luminance { target: i8, channel: Channel },
}

/// What a display stands for.
pub struct DisplayView {
    pub dispno: usize,
    pub model: Seq<char>,
    pub calibration: CalibrationView,
    pub brightness: VcpValueView,
    pub gain_red: VcpValueView,
    pub gain_green: VcpValueView,
    pub gain_blue: VcpValueView,
    pub luminance: i8,
    pub pending: Option<Pending>,
}

/// How far an operation got on a display when its writes ended as a given
/// list of outcomes says.
pub struct Run {
    /// The display afterwards.
    pub display: DisplayView,
    /// The writes that were handed out, in their order.
    pub writes: Seq<RegisterWrite>,
    /// The last answer of the display.
    pub end: Step,
}

impl DisplayView {
    /// The calibration is well formed, the luminance is a percentage, and
    /// so is the target of a change under way, whose write handed out is
    /// one that is due.
    pub open spec fn wf(self) -> bool {
        &&& self.calibration.wf()
        &&& valid_luminance(self.luminance as int)
        &&& (self.pending matches Some(Pending::Luminance { target, channel }) ==> {
            &&& valid_luminance(target as int)
            &&& self.due(channel, target as int)
        })
    }

    /// The register cache of a channel.
    pub open spec fn register(self, channel: Channel) -> VcpValueView {
        match channel {
            Channel::Brightness => self.brightness,
            Channel::GainRed => self.gain_red,
            Channel::GainGreen => self.gain_green,
            Channel::GainBlue => self.gain_blue,
        }
    }

    /// The same display with another register cache for a channel.
    pub open spec fn with_register(self, channel: Channel, register: VcpValueView) -> DisplayView {
        match channel {
            Channel::Brightness => DisplayView { brightness: register, ..self },
            Channel::GainRed => DisplayView { gain_red: register, ..self },
            Channel::GainGreen => DisplayView { gain_green: register, ..self },
            Channel::GainBlue => DisplayView { gain_blue: register, ..self },
        }
    }

    /// The calibration factor of a colour channel. The brightness is not
    /// corrected: its factor is 1, which is written as the calibration's
    /// `max`.
    pub open spec fn factor(self, channel: Channel) -> u16 {
        match channel {
            Channel::Brightness => self.calibration.max,
            Channel::GainRed => self.calibration.red,
            Channel::GainGreen => self.calibration.green,
            Channel::GainBlue => self.calibration.blue,
        }
    }

    /// The value that the register of a channel holds at a luminance.
    ///
    /// From 0 up the backlight does the work: the brightness is that
    /// percentage of its maximum, and every gain is at its maximum. Below 0
    /// the brightness is 0 and the gains are scaled down.
    pub open spec fn level(self, channel: Channel, luminance: int) -> int {
        if luminance >= 0 {
            match channel {
                Channel::Brightness => backlight_brightness(self.brightness.max, luminance),
                _ => self.register(channel).max as int,
            }
        } else {
            match channel {
                Channel::Brightness => 0,
                _ => dimmed_gain(
                    self.register(channel).max,
                    self.factor(channel),
                    self.calibration.max,
                    luminance,
                ),
            }
        }
    }

    /// Whether bringing the display to a luminance takes a write to the
    /// register of a channel.
    pub open spec fn due(self, channel: Channel, luminance: int) -> bool {
        self.register(channel).current != self.level(channel, luminance)
    }

    /// The first channel, from place `from` on in the order of writing,
    /// whose register is due a write.
    pub open spec fn first_due(self, luminance: int, from: int) -> Option<Channel> {
        if from <= 0 && self.due(Channel::Brightness, luminance) {
            Some(Channel::Brightness)
        } else if from <= 1 && self.due(Channel::GainRed, luminance) {
            Some(Channel::GainRed)
        } else if from <= 2 && self.due(Channel::GainGreen, luminance) {
            Some(Channel::GainGreen)
        } else if from <= 3 && self.due(Channel::GainBlue, luminance) {
            Some(Channel::GainBlue)
        } else {
            None
        }
    }

    /// The write to the register of a channel on the way to a luminance.
    pub open spec fn write_to(self, channel: Channel, luminance: int) -> RegisterWrite {
        RegisterWrite {
            id: self.register(channel).id,
            value: self.level(channel, luminance) as u16,
        }
    }

    /// Goes on with a change of luminance at place `from` in the order of
    /// writing. The next write that is due is handed out. Where none is
    /// left the change is complete, and only then the luminance is the
    /// target.
    pub open spec fn advance(self, target: i8, from: int) -> (DisplayView, Step) {
        match self.first_due(target as int, from) {
            Some(channel) => (
                DisplayView { pending: Some(Pending::Luminance { target, channel }), ..self },
                Step::Write(self.write_to(channel, target as int)),
            ),
            None => (DisplayView { luminance: target, pending: None, ..self }, Step::Done),
        }
    }

    /// Starts a change of luminance to `target`.
    pub open spec fn set_luminance(self, target: i8) -> (DisplayView, Step) {
        self.advance(target, 0)
    }

    /// Starts a change of luminance by one step up.
    pub open spec fn increase_luminance(self) -> (DisplayView, Step) {
        self.set_luminance(step_up(self.luminance as int) as i8)
    }

    /// Starts a change of luminance by one step down.
    pub open spec fn decrease_luminance(self) -> (DisplayView, Step) {
        self.set_luminance(step_down(self.luminance as int) as i8)
    }

    /// Starts the selection of input `id`: one write to the input-select
    /// register, whatever was written to it before.
    pub open spec fn set_input(self, id: u16) -> (DisplayView, Step) {
        (
            DisplayView { pending: Some(Pending::Input), ..self },
            Step::Write(RegisterWrite { id: VCP_INPUT, value: id }),
        )
    }

    /// Takes in how the write that was handed out ended.
    ///
    /// A write that succeeded is recorded in its register cache, and the
    /// operation goes on. A write that failed ends the operation: what was
    /// written before stays written, and the luminance is not touched.
    /// With no write handed out there is nothing to take in.
    pub open spec fn written(self, outcome: Result<(), Error>) -> (DisplayView, Step) {
        match self.pending {
            None => (self, Step::Done),
            Some(Pending::Input) => (
                DisplayView { pending: None, ..self },
                match outcome {
                    Ok(_) => Step::Done,
                    Err(e) => Step::Failed(e),
                },
            ),
            Some(Pending::Luminance { target, channel }) => {
                let value = self.level(channel, target as int) as u16;
                match self.register(channel).set_result(value, outcome) {
                    Ok(_) => self.with_register(
                        channel,
                        self.register(channel).set(value, outcome),
                    ).advance(target, channel.index() + 1),
                    Err(e) => (DisplayView { pending: None, ..self }, Step::Failed(e)),
                }
            },
        }
    }

    /// The write to the register of a channel, as a list: empty where the
    /// channel comes before place `from` or its register is not due.
    pub open spec fn write_if_due(self, channel: Channel, luminance: int, from: int) -> Seq<
        RegisterWrite,
    > {
        if from <= channel.index() && self.due(channel, luminance) {
            seq![self.write_to(channel, luminance)]
        } else {
            Seq::empty()
        }
    }

    /// All the writes that bringing the display to a luminance takes from
    /// place `from` on, in the order of writing.
    pub open spec fn writes_due(self, luminance: int, from: int) -> Seq<RegisterWrite> {
        self.write_if_due(Channel::Brightness, luminance, from) + self.write_if_due(
            Channel::GainRed,
            luminance,
            from,
        ) + self.write_if_due(Channel::GainGreen, luminance, from) + self.write_if_due(
            Channel::GainBlue,
            luminance,
            from,
        )
    }

    /// Carries an operation on from the answer `step`: each write that is
    /// handed out ends as the next of `outcomes` says, until the operation
    /// ends or the outcomes run out.
    pub open spec fn run(self, step: Step, outcomes: Seq<Result<(), Error>>) -> Run
        decreases outcomes.len(),
    {
        match step {
            Step::Write(write) => if outcomes.len() > 0 {
                let (next, next_step) = self.written(outcomes[0]);
                let rest = next.run(next_step, outcomes.drop_first());
                Run { writes: seq![write] + rest.writes, ..rest }
            } else {
                Run { display: self, writes: seq![write], end: step }
            },
            _ => Run { display: self, writes: Seq::empty(), end: step },
        }
    }

    /// The register cache of a channel once it holds its level for a
    /// luminance.
    pub open spec fn leveled(self, channel: Channel, luminance: int) -> VcpValueView {
        VcpValueView {
            current: self.level(channel, luminance) as u16,
            ..self.register(channel)
        }
    }

    /// The display once a change of luminance that went on at place `from`
    /// is complete: the registers from that place on hold their levels,
    /// the luminance is the target, and nothing is under way.
    pub open spec fn settled(self, target: i8, from: int) -> DisplayView {
        DisplayView {
            brightness: if from <= 0 {
                self.leveled(Channel::Brightness, target as int)
            } else {
                self.brightness
            },
            gain_red: if from <= 1 {
                self.leveled(Channel::GainRed, target as int)
            } else {
                self.gain_red
            },
            gain_green: if from <= 2 {
                self.leveled(Channel::GainGreen, target as int)
            } else {
                self.gain_green
            },
            gain_blue: if from <= 3 {
                self.leveled(Channel::GainBlue, target as int)
            } else {
                self.gain_blue
            },
            luminance: target,
            pending: None,
            ..self
        }
    }

    /// Whether the display is `before` with some of its registers at
    /// their levels for a luminance, and the others as they were.
    pub open spec fn partly_settled(self, before: DisplayView, luminance: int) -> bool {
        &&& self.dispno == before.dispno
        &&& self.model == before.model
        &&& self.calibration == before.calibration
        &&& (self.brightness == before.brightness || self.brightness == before.leveled(
            Channel::Brightness,
            luminance,
        ))
        &&& (self.gain_red == before.gain_red || self.gain_red == before.leveled(
            Channel::GainRed,
            luminance,
        ))
        &&& (self.gain_green == before.gain_green || self.gain_green == before.leveled(
            Channel::GainGreen,
            luminance,
        ))
        &&& (self.gain_blue == before.gain_blue || self.gain_blue == before.leveled(
            Channel::GainBlue,
            luminance,
        ))
    }

    /// At a valid luminance every level is a value that a register can
    /// hold.
    pub proof fn lemma_level_range(self, channel: Channel, luminance: int)
        requires
            self.calibration.wf(),
            valid_luminance(luminance),
        ensures
            0 <= self.level(channel, luminance) <= u16::MAX,
    {
        if luminance >= 0 {
            lemma_backlight_range(self.brightness.max, luminance);
        } else {
            lemma_dimmed_gain_range(
                self.register(channel).max,
                self.factor(channel),
                self.calibration.max,
                luminance,
            );
        }
    }
}

/// One monitor: who it is, what its registers are taken to hold, and the
/// luminance it was last brought to.
#[derive(Debug)]
pub struct Display {
    dispno: usize,
    model: String,
    calibration: Calibration,
    brightness: VcpValue,
    gain_red: VcpValue,
    gain_green: VcpValue,
    gain_blue: VcpValue,
    luminance: i8,
    pending: Option<Pending>,
}

impl View for Display {
    type V = DisplayView;

    closed spec fn view(&self) -> DisplayView {
        DisplayView {
            dispno: self.dispno,
            model: self.model@,
            calibration: self.calibration@,
            brightness: self.brightness@,
            gain_red: self.gain_red@,
            gain_green: self.gain_green@,
            gain_blue: self.gain_blue@,
            luminance: self.luminance,
            pending: self.pending,
        }
    }
}

impl Display {
    /// Holds of every display: no operation leaves one that is not well
    /// formed.
    #[verifier::type_invariant]
    pub open spec fn inv(&self) -> bool {
        self@.wf()
    }

    /// A display as it is found at startup: at luminance 0, with nothing
    /// under way, and with the register caches as they were loaded.
    pub fn new(
        dispno: usize,
        model: String,
        calibration: Calibration,
        brightness: VcpValue,
        gain_red: VcpValue,
        gain_green: VcpValue,
        gain_blue: VcpValue,
    ) -> (display: Display)
        ensures
            display@ == (DisplayView {
                dispno,
                model: model@,
                calibration: calibration@,
                brightness: brightness@,
                gain_red: gain_red@,
                gain_green: gain_green@,
                gain_blue: gain_blue@,
                luminance: 0,
                pending: None,
            }),
    {
        proof {
            use_type_invariant(&calibration);
        }
        Display {
            dispno,
            model,
            calibration,
            brightness,
            gain_red,
            gain_green,
            gain_blue,
            luminance: 0,
            pending: None,
        }
    }

    /// The number under which the display was found.
    pub fn dispno(&self) -> (r: usize)
        ensures
            r == self@.dispno,
    {
        self.dispno
    }

    /// The model name of the display.
    pub fn model(&self) -> (r: &String)
        ensures
            r@ == self@.model,
    {
        &self.model
    }

    /// The colour correction of the display.
    pub fn calibration(&self) -> (r: Calibration)
        ensures
            r@ == self@.calibration,
    {
        self.calibration
    }

    /// The register cache of a channel.
    pub fn register(&self, channel: Channel) -> (r: VcpValue)
        ensures
            r@ == self@.register(channel),
    {
        match channel {
            Channel::Brightness => self.brightness,
            Channel::GainRed => self.gain_red,
            Channel::GainGreen => self.gain_green,
            Channel::GainBlue => self.gain_blue,
        }
    }

    /// The luminance that the display was last brought to.
    pub fn luminance(&self) -> (r: i8)
        ensures
            r == self@.luminance,
            valid_luminance(r as int),
    {
        proof {
            use_type_invariant(self);
        }
        self.luminance
    }

    /// The operation whose write has been handed out and not been answered
    /// yet.
    pub fn pending(&self) -> (r: Option<Pending>)
        ensures
            r == self@.pending,
    {
        self.pending
    }

    /// The value that the register of a channel holds at a luminance.
    pub fn level(&self, channel: Channel, luminance: i8) -> (value: u16)
        requires
            valid_luminance(luminance as int),
        ensures
            value == self@.level(channel, luminance as int),
    {
        proof {
            use_type_invariant(self);
            self@.lemma_level_range(channel, luminance as int);
        }
        if luminance >= 0 {
            match channel {
                Channel::Brightness => brightness_level(self.brightness.max(), luminance),
                Channel::GainRed => self.gain_red.max(),
                Channel::GainGreen => self.gain_green.max(),
                Channel::GainBlue => self.gain_blue.max(),
            }
        } else {
            let factor_max: u16 = self.calibration.max();
            match channel {
                Channel::Brightness => 0,
                Channel::GainRed => gain_level(
                    self.gain_red.max(),
                    self.calibration.red(),
                    factor_max,
                    luminance,
                ),
                Channel::GainGreen => gain_level(
                    self.gain_green.max(),
                    self.calibration.green(),
                    factor_max,
                    luminance,
                ),
                Channel::GainBlue => gain_level(
                    self.gain_blue.max(),
                    self.calibration.blue(),
                    factor_max,
                    luminance,
                ),
            }
        }
    }

    /// The write that is due to the register of a channel on the way to a
    /// luminance, if any: none where the cache holds the level already.
    fn due_write(&self, channel: Channel, luminance: i8) -> (w: Option<RegisterWrite>)
        requires
            valid_luminance(luminance as int),
        ensures
            w is Some <==> self@.due(channel, luminance as int),
            w is Some ==> w->Some_0 == self@.write_to(channel, luminance as int),
    {
        let value: u16 = self.level(channel, luminance);
        self.register(channel).write_for(value)
    }

    /// Goes on with a change of luminance at place `from` in the order of
    /// writing.
    fn advance(&mut self, target: i8, from: u8) -> (step: Step)
        requires
            valid_luminance(target as int),
        ensures
            (final(self)@, step) == old(self)@.advance(target, from as int),
    {
        proof {
            use_type_invariant(&*self);
        }
        let mut channel: Option<Channel> = None;
        let mut write: Option<RegisterWrite> = None;
        if from <= 0 {
            write = self.due_write(Channel::Brightness, target);
            channel = Some(Channel::Brightness);
        }
        if write.is_none() && from <= 1 {
            write = self.due_write(Channel::GainRed, target);
            channel = Some(Channel::GainRed);
        }
        if write.is_none() && from <= 2 {
            write = self.due_write(Channel::GainGreen, target);
            channel = Some(Channel::GainGreen);
        }
        if write.is_none() && from <= 3 {
            write = self.due_write(Channel::GainBlue, target);
            channel = Some(Channel::GainBlue);
        }
        match (write, channel) {
            (Some(w), Some(c)) => {
                self.pending = Some(Pending::Luminance { target, channel: c });
                Step::Write(w)
            },
            _ => {
                self.luminance = target;
                self.pending = None;
                Step::Done
            },
        }
    }

    /// Starts a change of luminance to `new_luminance`.
    ///
    /// The registers are gone through brightness first, then the red, the
    /// green and the blue gain. A register that is taken to hold its level
    /// already gets no write. The first write that is due is handed out;
    /// `written` takes in how it ended and hands out the next. Where no
    /// write is due at all the luminance is `new_luminance` at once.
    pub fn set_luminance(&mut self, new_luminance: i8) -> (step: Step)
        requires
            valid_luminance(new_luminance as int),
        ensures
            (final(self)@, step) == old(self)@.set_luminance(new_luminance),
            step !is Failed,
            step is Done ==> final(self)@ == old(self)@.settled(new_luminance, 0),
            step is Write ==> final(self)@.luminance == old(self)@.luminance,
    {
        self.advance(new_luminance, 0)
    }

    /// Starts a change of luminance by one step up, to 100 at most.
    pub fn increase_luminance(&mut self) -> (step: Step)
        ensures
            (final(self)@, step) == old(self)@.increase_luminance(),
    {
        let target: i8 = increased(self.luminance);
        self.set_luminance(target)
    }

    /// Starts a change of luminance by one step down, to -100 at least.
    pub fn decrease_luminance(&mut self) -> (step: Step)
        ensures
            (final(self)@, step) == old(self)@.decrease_luminance(),
    {
        let target: i8 = decreased(self.luminance);
        self.set_luminance(target)
    }

    /// Starts the selection of input `id`. The write to the input-select
    /// register is always handed out, with `id` as it is.
    pub fn set_input(&mut self, id: u16) -> (step: Step)
        ensures
            (final(self)@, step) == old(self)@.set_input(id),
            step == Step::Write(RegisterWrite { id: VCP_INPUT, value: id }),
    {
        proof {
            use_type_invariant(&*self);
        }
        self.pending = Some(Pending::Input);
        Step::Write(RegisterWrite { id: VCP_INPUT, value: id })
    }

    /// Takes in how the write that was handed out ended, and says what the
    /// operation asks for next.
    pub fn written(&mut self, outcome: Result<(), Error>) -> (step: Step)
        ensures
            (final(self)@, step) == old(self)@.written(outcome),
            old(self)@.pending is Some ==> (outcome matches Err(e) ==> {
                &&& step == Step::Failed(e)
                &&& final(self)@ == (DisplayView { pending: None, ..old(self)@ })
            }),
            step is Write ==> final(self)@.luminance == old(self)@.luminance,
    {
        proof {
            use_type_invariant(&*self);
            if self@.pending is Some && outcome is Err {
                lemma_failed_write_changes_nothing(self@, outcome->Err_0);
            }
        }
        match self.pending {
            None => Step::Done,
            Some(Pending::Input) => {
                self.pending = None;
                match outcome {
                    Ok(_) => Step::Done,
                    Err(e) => Step::Failed(e),
                }
            },
            Some(Pending::Luminance { target, channel }) => {
                let value: u16 = self.level(channel, target);
                let mut register: VcpValue = self.register(channel);
                match register.set(value, outcome) {
                    Ok(_) => {
                        self.pending = None;
                        match channel {
                            Channel::Brightness => {
                                self.brightness = register;
                            },
                            Channel::GainRed => {
                                self.gain_red = register;
                            },
                            Channel::GainGreen => {
                                self.gain_green = register;
                            },
                            Channel::GainBlue => {
                                self.gain_blue = register;
                            },
                        }
                        self.advance(target, channel.position() + 1)
                    },
                    Err(e) => {
                        self.pending = None;
                        Step::Failed(e)
                    },
                }
            },
        }
    }
}

/// Every operation leaves a well-formed display well formed.
pub proof fn lemma_operations_keep_wf(
    display: DisplayView,
    target: i8,
    id: u16,
    outcome: Result<(), Error>,
)
    requires
        display.wf(),
    ensures
        valid_luminance(target as int) ==> display.set_luminance(target).0.wf(),
        display.increase_luminance().0.wf(),
        display.decrease_luminance().0.wf(),
        display.set_input(id).0.wf(),
        display.written(outcome).0.wf(),
{
    match display.pending {
        Some(Pending::Luminance { target, channel }) => {
            display.lemma_level_range(channel, target as int);
            let value = display.level(channel, target as int) as u16;
            let next = display.with_register(
                channel,
                display.register(channel).set(value, outcome),
            );
            assert(forall|c: Channel|
                next.level(c, target as int) == display.level(c, target as int));
        },
        _ => {},
    }
}

/// A write that fails ends the operation and changes nothing else: the
/// registers that were written before it keep their new values, and the
/// luminance stays what it was before the operation.
pub proof fn lemma_failed_write_changes_nothing(display: DisplayView, e: Error)
    requires
        display.wf(),
        display.pending is Some,
    ensures
        display.written(Err(e)) == (DisplayView { pending: None, ..display }, Step::Failed(e)),
{
    match display.pending->Some_0 {
        Pending::Input => {},
        Pending::Luminance { target, channel } => {
            display.lemma_level_range(channel, target as int);
        },
    }
}

/// A write that succeeds is recorded: the register that it was for holds
/// its level afterwards, and the change goes on behind it.
pub proof fn lemma_successful_write_is_recorded(display: DisplayView)
    requires
        display.wf(),
        display.pending is Some,
    ensures
        display.written(Ok(())) == match display.pending->Some_0 {
            Pending::Input => (DisplayView { pending: None, ..display }, Step::Done),
            Pending::Luminance { target, channel } => display.with_register(
                channel,
                display.leveled(channel, target as int),
            ).advance(target, channel.index() + 1),
        },
{
    match display.pending->Some_0 {
        Pending::Input => {},
        Pending::Luminance { target, channel } => {
            display.lemma_level_range(channel, target as int);
        },
    }
}

/// The writes that are due from place `from` on are the first of them and
/// those that are due behind it.
proof fn lemma_writes_due_split(display: DisplayView, luminance: int, from: int)
    ensures
        match display.first_due(luminance, from) {
            Some(channel) => {
                &&& from <= channel.index()
                &&& display.due(channel, luminance)
                &&& display.writes_due(luminance, from) == seq![
                    display.write_to(channel, luminance),
                ] + display.writes_due(luminance, channel.index() + 1)
            },
            None => display.writes_due(luminance, from) == Seq::<RegisterWrite>::empty(),
        },
{
    match display.first_due(luminance, from) {
        Some(channel) => {
            assert(display.writes_due(luminance, from) =~= seq![
                display.write_to(channel, luminance),
            ] + display.writes_due(luminance, channel.index() + 1));
        },
        None => {
            assert(display.writes_due(luminance, from) =~= Seq::<RegisterWrite>::empty());
        },
    }
}

/// Recording the write to a channel changes neither a level nor what is
/// due behind that channel.
proof fn lemma_recorded_write_keeps_rest(
    display: DisplayView,
    channel: Channel,
    luminance: int,
    pending: Option<Pending>,
)
    requires
        display.calibration.wf(),
        valid_luminance(luminance),
    ensures
        ({
            let next = DisplayView {
                pending,
                ..display.with_register(channel, display.leveled(channel, luminance))
            };
            &&& next.writes_due(luminance, channel.index() + 1) == display.writes_due(
                luminance,
                channel.index() + 1,
            )
            &&& next.leveled(Channel::Brightness, luminance) == display.leveled(
                Channel::Brightness,
                luminance,
            )
            &&& next.leveled(Channel::GainRed, luminance) == display.leveled(
                Channel::GainRed,
                luminance,
            )
            &&& next.leveled(Channel::GainGreen, luminance) == display.leveled(
                Channel::GainGreen,
                luminance,
            )
            &&& next.leveled(Channel::GainBlue, luminance) == display.leveled(
                Channel::GainBlue,
                luminance,
            )
            &&& next.register(channel) == display.leveled(channel, luminance)
        }),
{
    let next = DisplayView {
        pending,
        ..display.with_register(channel, display.leveled(channel, luminance))
    };
    assert(next.level(Channel::Brightness, luminance) == display.level(
        Channel::Brightness,
        luminance,
    ));
    assert(next.level(Channel::GainRed, luminance) == display.level(Channel::GainRed, luminance));
    assert(next.level(Channel::GainGreen, luminance) == display.level(
        Channel::GainGreen,
        luminance,
    ));
    assert(next.level(Channel::GainBlue, luminance) == display.level(
        Channel::GainBlue,
        luminance,
    ));
    assert(next.writes_due(luminance, channel.index() + 1) =~= display.writes_due(
        luminance,
        channel.index() + 1,
    ));
}

/// A change of luminance that goes on at place `from` and whose writes all
/// succeed.
proof fn lemma_run_completes_from(
    display: DisplayView,
    target: i8,
    from: int,
    outcomes: Seq<Result<(), Error>>,
)
    requires
        display.calibration.wf(),
        valid_luminance(target as int),
        0 <= from <= 4,
        outcomes.len() >= 4 - from,
        forall|i: int| 0 <= i < outcomes.len() ==> (#[trigger] outcomes[i]) is Ok,
    ensures
        ({
            let (started, step) = display.advance(target, from);
            let run = started.run(step, outcomes);
            &&& run.end == Step::Done
            &&& run.writes == display.writes_due(target as int, from)
            &&& run.display == display.settled(target, from)
        }),
    decreases 4 - from,
{
    let (started, step) = display.advance(target, from);
    let run = started.run(step, outcomes);
    lemma_writes_due_split(display, target as int, from);
    match display.first_due(target as int, from) {
        None => {
            display.lemma_level_range(Channel::Brightness, target as int);
            display.lemma_level_range(Channel::GainRed, target as int);
            display.lemma_level_range(Channel::GainGreen, target as int);
            display.lemma_level_range(Channel::GainBlue, target as int);
        },
        Some(channel) => {
            display.lemma_level_range(Channel::Brightness, target as int);
            display.lemma_level_range(Channel::GainRed, target as int);
            display.lemma_level_range(Channel::GainGreen, target as int);
            display.lemma_level_range(Channel::GainBlue, target as int);
            let rest = outcomes.drop_first();
            let next = started.with_register(channel, started.leveled(channel, target as int));
            assert(outcomes[0] is Ok);
            assert(started.register(channel).set(
                display.level(channel, target as int) as u16,
                outcomes[0],
            ) == started.leveled(channel, target as int));
            assert(started.written(outcomes[0]) == next.advance(target, channel.index() + 1));
            lemma_recorded_write_keeps_rest(display, channel, target as int, started.pending);
            assert(next == DisplayView {
                pending: started.pending,
                ..display.with_register(channel, display.leveled(channel, target as int))
            });
            assert forall|i: int| 0 <= i < rest.len() implies (#[trigger] rest[i]) is Ok by {
                assert(rest[i] == outcomes[i + 1]);
            }
            lemma_run_completes_from(next, target, channel.index() + 1, rest);
        },
    }
}

/// A change of luminance that goes on at place `from`, however its writes
/// end.
proof fn lemma_run_from(
    display: DisplayView,
    target: i8,
    from: int,
    outcomes: Seq<Result<(), Error>>,
)
    requires
        display.calibration.wf(),
        valid_luminance(target as int),
        0 <= from <= 4,
    ensures
        ({
            let (started, step) = display.advance(target, from);
            let run = started.run(step, outcomes);
            let due = display.writes_due(target as int, from);
            &&& run.display.partly_settled(display, target as int)
            &&& run.writes.len() <= due.len()
            &&& run.writes == due.take(run.writes.len() as int)
            &&& match run.end {
                Step::Done => {
                    &&& run.writes == due
                    &&& run.display.luminance == target
                    &&& run.display.pending is None
                },
                Step::Failed(e) => {
                    &&& 0 < run.writes.len() <= outcomes.len()
                    &&& outcomes[run.writes.len() - 1] == Err::<(), Error>(e)
                    &&& forall|i: int|
                        0 <= i < run.writes.len() - 1 ==> (#[trigger] outcomes[i]) is Ok
                    &&& run.display.luminance == display.luminance
                    &&& run.display.pending is None
                },
                Step::Write(write) => {
                    &&& run.writes.len() == outcomes.len() + 1
                    &&& write == run.writes.last()
                    &&& forall|i: int| 0 <= i < outcomes.len() ==> (#[trigger] outcomes[i]) is Ok
                    &&& run.display.luminance == display.luminance
                },
            }
        }),
    decreases 4 - from,
{
    let (started, step) = display.advance(target, from);
    let run = started.run(step, outcomes);
    let due = display.writes_due(target as int, from);
    lemma_writes_due_split(display, target as int, from);
    match display.first_due(target as int, from) {
        None => {
            assert(run.writes =~= due.take(0));
        },
        Some(channel) => {
            display.lemma_level_range(channel, target as int);
            let write = display.write_to(channel, target as int);
            let due_behind = display.writes_due(target as int, channel.index() + 1);
            if outcomes.len() == 0 {
                assert(run.writes =~= due.take(1));
            } else {
                let rest = outcomes.drop_first();
                match outcomes[0] {
                    Err(e) => {
                        let failed = DisplayView { pending: None, ..started };
                        assert(started.written(outcomes[0]) == (failed, Step::Failed(e)));
                        let tail = failed.run(Step::Failed(e), rest);
                        assert(tail.writes == Seq::<RegisterWrite>::empty());
                        assert(run.writes =~= seq![write]);
                        assert(run.writes =~= due.take(1));
                    },
                    Ok(_) => {
                        let next = started.with_register(
                            channel,
                            started.leveled(channel, target as int),
                        );
                        assert(started.register(channel).set(
                            display.level(channel, target as int) as u16,
                            outcomes[0],
                        ) == started.leveled(channel, target as int));
                        assert(started.written(outcomes[0]) == next.advance(
                            target,
                            channel.index() + 1,
                        ));
                        lemma_recorded_write_keeps_rest(
                            display,
                            channel,
                            target as int,
                            started.pending,
                        );
                        assert(next == DisplayView {
                            pending: started.pending,
                            ..display.with_register(
                                channel,
                                display.leveled(channel, target as int),
                            )
                        });
                        lemma_run_from(next, target, channel.index() + 1, rest);
                        let (restarted, next_step) = next.advance(target, channel.index() + 1);
                        let tail = restarted.run(next_step, rest);
                        assert(run.writes == seq![write] + tail.writes);
                        assert(run.display == tail.display);
                        assert(run.end == tail.end);
                        assert(tail.writes == due_behind.take(tail.writes.len() as int));
                        assert(run.writes =~= due.take(run.writes.len() as int));
                        assert forall|i: int| 0 <= i < rest.len() implies #[trigger] rest[i]
                            == outcomes[i + 1] by {}
                        lemma_shifted_outcomes(outcomes, tail.writes.len() as int);
                    },
                }
            }
        },
    }
}

/// Where the first outcome is a success and so are the `n` after it, or
/// all but the last of them, the same holds of one more from the start.
proof fn lemma_shifted_outcomes(outcomes: Seq<Result<(), Error>>, n: int)
    requires
        outcomes.len() > 0,
        outcomes[0] is Ok,
    ensures
        (forall|i: int| 0 <= i < n ==> (#[trigger] outcomes.drop_first()[i]) is Ok) ==> (forall|
            i: int,
        |
            0 <= i < n + 1 && i < outcomes.len() ==> (#[trigger] outcomes[i]) is Ok),
        (forall|i: int| 0 <= i < n - 1 ==> (#[trigger] outcomes.drop_first()[i]) is Ok) ==> (
        forall|i: int| 0 <= i < n && i < outcomes.len() ==> (#[trigger] outcomes[i]) is Ok),
        (forall|i: int|
            0 <= i < outcomes.drop_first().len() ==> (#[trigger] outcomes.drop_first()[i]) is Ok)
            ==> (forall|i: int| 0 <= i < outcomes.len() ==> (#[trigger] outcomes[i]) is Ok),
{
    let rest = outcomes.drop_first();
    assert forall|i: int| 0 < i < outcomes.len() implies #[trigger] outcomes[i] == rest[i - 1] by {}
    if forall|i: int| 0 <= i < n ==> (#[trigger] rest[i]) is Ok {
        assert forall|i: int| 0 <= i < n + 1 && i < outcomes.len() implies (
        #[trigger] outcomes[i]) is Ok by {
            if i > 0 {
                assert(rest[i - 1] is Ok);
            }
        }
    }
    if forall|i: int| 0 <= i < n - 1 ==> (#[trigger] rest[i]) is Ok {
        assert forall|i: int| 0 <= i < n && i < outcomes.len() implies (
        #[trigger] outcomes[i]) is Ok by {
            if i > 0 {
                assert(rest[i - 1] is Ok);
            }
        }
    }
    if forall|i: int| 0 <= i < rest.len() ==> (#[trigger] rest[i]) is Ok {
        assert forall|i: int| 0 <= i < outcomes.len() implies (#[trigger] outcomes[i]) is Ok by {
            if i > 0 {
                assert(rest[i - 1] is Ok);
            }
        }
    }
}

/// A change of luminance whose writes all succeed ends with the display at
/// the target: every register holds its level, the luminance is the
/// target, and nothing else has changed. The writes that were handed out
/// are those to the registers that did not hold their level yet, each
/// once, brightness first, then the red, the green and the blue gain.
pub proof fn lemma_change_completes(
    display: DisplayView,
    target: i8,
    outcomes: Seq<Result<(), Error>>,
)
    requires
        display.wf(),
        valid_luminance(target as int),
        outcomes.len() >= 4,
        forall|i: int| 0 <= i < outcomes.len() ==> (#[trigger] outcomes[i]) is Ok,
    ensures
        ({
            let (started, step) = display.set_luminance(target);
            let run = started.run(step, outcomes);
            &&& run.end == Step::Done
            &&& run.writes == display.writes_due(target as int, 0)
            &&& run.display == display.settled(target, 0)
        }),
{
    lemma_run_completes_from(display, target, 0, outcomes);
}

/// A change of luminance that does not complete leaves the luminance as it
/// was, whatever it wrote. One that a failed write ends answers with the
/// error of that write, which is the first failure among the outcomes, and
/// has handed out nothing after it. The writes that were handed out are
/// the first of those that the change takes. No register is ever put
/// back: each holds what it held before or its level for the target.
pub proof fn lemma_change_commits_at_the_end(
    display: DisplayView,
    target: i8,
    outcomes: Seq<Result<(), Error>>,
)
    requires
        display.wf(),
        valid_luminance(target as int),
    ensures
        ({
            let (started, step) = display.set_luminance(target);
            let run = started.run(step, outcomes);
            let due = display.writes_due(target as int, 0);
            &&& run.writes.len() <= due.len()
            &&& run.writes == due.take(run.writes.len() as int)
            &&& run.display.partly_settled(display, target as int)
            &&& run.end is Done ==> run.display.luminance == target && run.writes == due
            &&& run.end !is Done ==> run.display.luminance == display.luminance
            &&& run.end matches Step::Failed(e) ==> {
                &&& 0 < run.writes.len() <= outcomes.len()
                &&& outcomes[run.writes.len() - 1] == Err::<(), Error>(e)
                &&& forall|i: int| 0 <= i < run.writes.len() - 1 ==> (#[trigger] outcomes[i]) is Ok
                &&& run.display.pending is None
            }
        }),
{
    lemma_run_from(display, target, 0, outcomes);
}

/// From 0 up every gain is at the maximum of its register and the
/// brightness is that percentage of its maximum, rounded. Below 0 the
/// brightness is 0 and each gain is scaled by its calibration factor and
/// by the share of light that is left.
pub proof fn lemma_levels(display: DisplayView, luminance: int)
    requires
        display.calibration.wf(),
        valid_luminance(luminance),
    ensures
        luminance >= 0 ==> {
            &&& display.level(Channel::Brightness, luminance) == backlight_brightness(
                display.brightness.max,
                luminance,
            )
            &&& display.level(Channel::GainRed, luminance) == display.gain_red.max
            &&& display.level(Channel::GainGreen, luminance) == display.gain_green.max
            &&& display.level(Channel::GainBlue, luminance) == display.gain_blue.max
        },
        luminance < 0 ==> {
            &&& display.level(Channel::Brightness, luminance) == 0
            &&& display.level(Channel::GainRed, luminance) == dimmed_gain(
                display.gain_red.max,
                display.calibration.red,
                display.calibration.max,
                luminance,
            )
            &&& display.level(Channel::GainGreen, luminance) == dimmed_gain(
                display.gain_green.max,
                display.calibration.green,
                display.calibration.max,
                luminance,
            )
            &&& display.level(Channel::GainBlue, luminance) == dimmed_gain(
                display.gain_blue.max,
                display.calibration.blue,
                display.calibration.max,
                luminance,
            )
        },
        luminance == -100 ==> forall|channel: Channel|
            #[trigger] display.level(channel, luminance) == 0,
{
    lemma_dimmed_gain_range(display.gain_red.max, display.calibration.red, display.calibration.max, -1);
    lemma_dimmed_gain_range(
        display.gain_green.max,
        display.calibration.green,
        display.calibration.max,
        -1,
    );
    lemma_dimmed_gain_range(
        display.gain_blue.max,
        display.calibration.blue,
        display.calibration.max,
        -1,
    );
}

} // verus!
