use vstd::prelude::*;

verus! {

/// The status with which the device control interface reports success.
pub const DDCRC_OK: i32 = 0;

/// Why an operation on the fleet could not be carried out.
#[derive(Clone, Copy, Debug, PartialEq, Eq, Structural)]
pub enum Error {
    /// The device control interface answered a call with this status.
    Sys(i32),
    /// A request named a model that no display of the fleet has.
    DisplayNotFound,
    /// No calibration is known for the model of the usable display that was
    /// found under this number.
    UnsupportedModel(usize),
}

impl Error {
    /// Turns a status of the device control interface into a result:
    /// `DDCRC_OK` is success, every other status is the error `Sys`.
    pub fn check(status: i32) -> (r: Result<(), Error>)
        ensures
            status == DDCRC_OK ==> r == Ok::<(), Error>(()),
            status != DDCRC_OK ==> r == Err::<(), Error>(Error::Sys(status)),
    {
        if status == DDCRC_OK {
            Ok(())
        } else {
            Err(Error::Sys(status))
        }
    }
}

} // verus!
