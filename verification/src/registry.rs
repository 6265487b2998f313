use vstd::prelude::*;
use crate::calibration::{known_calibration, Calibration};
use crate::display::{Display, DisplayView};
use crate::error::Error;
use crate::router::fleet_view;
use crate::vcp::{VcpValue, VcpValueView};

verus! {

/// What the register caches of a display that could be read stand for.
pub struct RegistersView {
    pub brightness: VcpValueView,
    pub gain_red: VcpValueView,
    pub gain_green: VcpValueView,
    pub gain_blue: VcpValueView,
}

/// The register caches of a display, as they were loaded when it was
/// opened.
#[derive(Clone, Copy, Debug)]
pub struct Registers {
    pub brightness: VcpValue,
    pub gain_red: VcpValue,
    pub gain_green: VcpValue,
    pub gain_blue: VcpValue,
}

impl View for Registers {
    type V = RegistersView;

    open spec fn view(&self) -> RegistersView {
        RegistersView {
            brightness: self.brightness@,
            gain_red: self.gain_red@,
            gain_green: self.gain_green@,
            gain_blue: self.gain_blue@,
        }
    }
}

/// What a probe stands for.
pub struct ProbeView {
    pub dispno: usize,
    pub model: Seq<char>,
    pub registers: Result<RegistersView, Error>,
}

impl ProbeView {
    /// A display is usable where it could be opened and all its registers
    /// could be read.
    pub open spec fn usable(self) -> bool {
        self.registers is Ok
    }

    /// A display is supported where its model has a calibration.
    pub open spec fn supported(self) -> bool {
        known_calibration(self.model) is Some
    }

    /// The display that a usable and supported probe becomes: at luminance
    /// 0, with the calibration of its model and the registers as read.
    pub open spec fn startup(self) -> DisplayView {
        DisplayView {
            dispno: self.dispno,
            model: self.model,
            calibration: known_calibration(self.model)->Some_0,
            brightness: self.registers->Ok_0.brightness,
            gain_red: self.registers->Ok_0.gain_red,
            gain_green: self.registers->Ok_0.gain_green,
            gain_blue: self.registers->Ok_0.gain_blue,
            luminance: 0,
            pending: None,
        }
    }
}

/// One display as the device control interface listed it, with what came
/// of opening it and reading its registers: the caches, or the first
/// failure.
#[derive(Debug)]
pub struct Probe {
    pub dispno: usize,
    pub model: String,
    pub registers: Result<Registers, Error>,
}

impl View for Probe {
    type V = ProbeView;

    open spec fn view(&self) -> ProbeView {
        ProbeView {
            dispno: self.dispno,
            model: self.model@,
            registers: match self.registers {
                Ok(registers) => Ok(registers@),
                Err(e) => Err(e),
            },
        }
    }
}

/// What a vector of probes stands for.
pub open spec fn probe_views(probes: Seq<Probe>) -> Seq<ProbeView> {
    probes.map_values(|probe: Probe| probe@)
}

/// The fleet that a list of probes gives: the usable displays, in the
/// order of the list.
pub open spec fn fleet_of(probes: Seq<ProbeView>) -> Seq<DisplayView> {
    probes.filter(|probe: ProbeView| probe.usable()).map_values(
        |probe: ProbeView| probe.startup(),
    )
}

/// Whether `at` is the place of the first usable display whose model has
/// no calibration.
pub open spec fn is_first_unsupported(probes: Seq<ProbeView>, at: int) -> bool {
    &&& 0 <= at < probes.len()
    &&& probes[at].usable()
    &&& !probes[at].supported()
    &&& forall|before: int|
        0 <= before < at && (#[trigger] probes[before]).usable() ==> probes[before].supported()
}

/// Whether every usable display has a model with a calibration.
pub open spec fn all_supported(probes: Seq<ProbeView>) -> bool {
    forall|i: int| 0 <= i < probes.len() && (#[trigger] probes[i]).usable() ==> probes[i].supported()
}

/// One more probe adds its display to the fleet where it is usable, and
/// nothing where it is not.
pub proof fn lemma_fleet_of_push(probes: Seq<ProbeView>, probe: ProbeView)
    ensures
        fleet_of(probes.push(probe)) == if probe.usable() {
            fleet_of(probes).push(probe.startup())
        } else {
            fleet_of(probes)
        },
{
    reveal(Seq::filter);
    let usable = |probe: ProbeView| probe.usable();
    let startup = |probe: ProbeView| probe.startup();
    assert(probes.push(probe).drop_last() =~= probes);
    assert(probes.push(probe).last() == probe);
    if probe.usable() {
        assert(probes.filter(usable).push(probe).map_values(startup) =~= probes.filter(
            usable,
        ).map_values(startup).push(probe.startup()));
    }
}

/// No probes give no fleet.
pub proof fn lemma_fleet_of_none()
    ensures
        fleet_of(Seq::<ProbeView>::empty()) == Seq::<DisplayView>::empty(),
{
    reveal(Seq::filter);
    assert(fleet_of(Seq::<ProbeView>::empty()) =~= Seq::<DisplayView>::empty());
}

/// The fleet that discovery gives is well formed: it fits in a vector with
/// the probes, and each of its displays starts out well formed wherever
/// every usable display is supported.
pub proof fn lemma_fleet_of_wf(probes: Seq<ProbeView>)
    requires
        all_supported(probes),
    ensures
        fleet_of(probes).len() <= probes.len(),
        forall|i: int| 0 <= i < fleet_of(probes).len() ==> (#[trigger] fleet_of(probes)[i]).wf(),
    decreases probes.len(),
{
    if probes.len() == 0 {
        lemma_fleet_of_none();
    } else {
        let front = probes.drop_last();
        let last = probes.last();
        assert(probes =~= front.push(last));
        assert forall|i: int| 0 <= i < front.len() && (#[trigger] front[i]).usable() implies front[i].supported() by {
            assert(front[i] == probes[i]);
        }
        lemma_fleet_of_wf(front);
        lemma_fleet_of_push(front, last);
        if last.usable() {
            assert(probes[probes.len() - 1].supported());
        }
    }
}

/// Builds the fleet from what discovery found.
///
/// A display that could not be opened or read is left out, and the rest
/// keep the order in which they were found. Each of them needs the
/// calibration of its model. Where one has none there is no fleet: the
/// answer is `UnsupportedModel` with the number of the first such display.
pub fn discover(probes: &Vec<Probe>) -> (r: Result<Vec<Display>, Error>)
    ensures
        match r {
            Ok(displays) => {
                &&& all_supported(probe_views(probes@))
                &&& fleet_view(displays@) == fleet_of(probe_views(probes@))
            },
            Err(e) => exists|at: int|
                {
                    &&& is_first_unsupported(probe_views(probes@), at)
                    &&& e == Error::UnsupportedModel(#[trigger] probe_views(probes@)[at].dispno)
                },
        },
{
    let ghost views = probe_views(probes@);
    let mut displays: Vec<Display> = Vec::new();
    let mut at: usize = 0;
    proof {
        lemma_fleet_of_none();
        assert(views.take(0) =~= Seq::<ProbeView>::empty());
        assert(fleet_view(displays@) =~= Seq::<DisplayView>::empty());
    }
    while at < probes.len()
        invariant
            at <= probes.len(),
            views == probe_views(probes@),
            fleet_view(displays@) == fleet_of(views.take(at as int)),
            forall|i: int| 0 <= i < at && (#[trigger] views[i]).usable() ==> views[i].supported(),
        decreases probes.len() - at,
    {
        let probe: &Probe = &probes[at];
        proof {
            assert(views[at as int] == probe@);
            assert(views.take(at as int + 1) =~= views.take(at as int).push(views[at as int]));
            lemma_fleet_of_push(views.take(at as int), views[at as int]);
        }
        match probe.registers {
            Ok(registers) => {
                match Calibration::for_model(&probe.model) {
                    Some(calibration) => {
                        let display: Display = Display::new(
                            probe.dispno,
                            probe.model.clone(),
                            calibration,
                            registers.brightness,
                            registers.gain_red,
                            registers.gain_green,
                            registers.gain_blue,
                        );
                        let ghost before = displays@;
                        displays.push(display);
                        proof {
                            assert(fleet_view(displays@) =~= fleet_view(before).push(display@));
                        }
                    },
                    None => {
                        proof {
                            assert(is_first_unsupported(views, at as int));
                        }
                        return Err(Error::UnsupportedModel(probe.dispno));
                    },
                }
            },
            Err(_) => {},
        }
        at += 1;
    }
    proof {
        assert(views.take(at as int) =~= views);
    }
    Ok(displays)
}

} // verus!
