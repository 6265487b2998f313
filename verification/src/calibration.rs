use vstd::prelude::*;
use vstd::string::StringExecFns;

verus! {

/// What a calibration stands for: the colour factors of one monitor model,
/// each as a part of `max`.
pub struct CalibrationView {
    pub red: u16,
    pub green: u16,
    pub blue: u16,
    pub max: u16,
}

impl CalibrationView {
    /// Factors are parts of `max`, so `max` is not 0.
    pub open spec fn wf(self) -> bool {
        self.max > 0
    }
}

/// The calibration that is known for a model name, if any. The name has to
/// match letter for letter.
pub open spec fn known_calibration(model: Seq<char>) -> Option<CalibrationView> {
    if model == "DELL P3221D"@ {
        Some(CalibrationView { red: 215, green: 219, blue: 210, max: 219 })
    } else {
        None
    }
}

/// The colour correction of one monitor model. It only matters below
/// luminance 0, where the colour gains do the dimming.
#[derive(Clone, Copy, Debug, PartialEq, Eq)]
pub struct Calibration {
    red: u16,
    green: u16,
    blue: u16,
    max: u16,
}

impl View for Calibration {
    type V = CalibrationView;

    closed spec fn view(&self) -> CalibrationView {
        CalibrationView { red: self.red, green: self.green, blue: self.blue, max: self.max }
    }
}

impl Calibration {
    /// Holds of every calibration: no constructor makes another.
    #[verifier::type_invariant]
    pub open spec fn inv(&self) -> bool {
        self@.wf()
    }

    /// A calibration with the given factors. There is none with a `max`
    /// of 0.
    pub fn new(red: u16, green: u16, blue: u16, max: u16) -> (r: Option<Calibration>)
        ensures
            max == 0 <==> r is None,
            max > 0 ==> r is Some && r->Some_0@ == (CalibrationView { red, green, blue, max }),
    {
        if max == 0 {
            None
        } else {
            Some(Calibration { red, green, blue, max })
        }
    }

    /// Looks a model name up in the table of calibrated models.
    pub fn for_model(model: &String) -> (r: Option<Calibration>)
        ensures
            match known_calibration(model@) {
                Some(c) => r is Some && r->Some_0@ == c,
                None => r is None,
            },
    {
        let dell_p3221d: String = String::from_str("DELL P3221D");
        if *model == dell_p3221d {
            Some(Calibration { red: 215, green: 219, blue: 210, max: 219 })
        } else {
            None
        }
    }

    /// The factor of the red channel.
    pub fn red(&self) -> (r: u16)
        ensures
            r == self@.red,
    {
        self.red
    }

    /// The factor of the green channel.
    pub fn green(&self) -> (r: u16)
        ensures
            r == self@.green,
    {
        self.green
    }

    /// The factor of the blue channel.
    pub fn blue(&self) -> (r: u16)
        ensures
            r == self@.blue,
    {
        self.blue
    }

    /// What a factor of 1 is written as. Never 0.
    pub fn max(&self) -> (r: u16)
        ensures
            r == self@.max,
            r > 0,
    {
        proof {
            use_type_invariant(self);
        }
        self.max
    }
}

} // verus!
