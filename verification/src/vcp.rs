use vstd::prelude::*;
use crate::error::Error;

verus! {

/// Feature id of the backlight brightness register.
pub const VCP_BRIGHTNESS: u8 = 0x10;

/// Feature id of the red gain register.
pub const VCP_GAIN_RED: u8 = 0x16;

/// Feature id of the green gain register.
pub const VCP_GAIN_GREEN: u8 = 0x18;

/// Feature id of the blue gain register.
pub const VCP_GAIN_BLUE: u8 = 0x1A;

/// Feature id of the input-select register.
pub const VCP_INPUT: u8 = 0x60;

/// The 16-bit value that a high and a low byte stand for.
pub open spec fn word(hi: u8, lo: u8) -> int {
    hi * 256 + lo
}

/// Joins the high and the low byte of a register value.
pub fn word_from_bytes(hi: u8, lo: u8) -> (w: u16)
    ensures
        w == word(hi, lo),
{
    let w: u16 = (hi as u16) << 8 | (lo as u16);
    assert(((hi as u16) << 8 | (lo as u16)) == hi * 256 + lo) by (bit_vector);
    w
}

/// What a non-table register read answers, from the status of the call and
/// the four bytes of the reply: the register's maximum and its current
/// value, in that order, or the status as an error.
pub fn reading(status: i32, mh: u8, ml: u8, sh: u8, sl: u8) -> (r: Result<(u16, u16), Error>)
    ensures
        status == crate::error::DDCRC_OK ==> r == Ok::<(u16, u16), Error>(
            (word(mh, ml) as u16, word(sh, sl) as u16),
        ),
        status != crate::error::DDCRC_OK ==> r == Err::<(u16, u16), Error>(Error::Sys(status)),
{
    match Error::check(status) {
        Ok(()) => Ok((word_from_bytes(mh, ml), word_from_bytes(sh, sl))),
        Err(e) => Err(e),
    }
}

/// One register write, for the device control interface to perform.
#[derive(Clone, Copy, Debug, PartialEq, Eq, Structural)]
pub struct RegisterWrite {
    /// The feature id of the register.
    pub id: u8,
    /// The value to write, passed on as it was asked for.
    pub value: u16,
}

impl RegisterWrite {
    /// The high and the low byte of the value, as the interface takes them.
    pub fn bytes(&self) -> (r: (u8, u8))
        ensures
            r.0 == self.value / 256,
            r.1 == self.value % 256,
            word(r.0, r.1) == self.value,
    {
        let value: u16 = self.value;
        let hi: u8 = (value >> 8) as u8;
        let lo: u8 = (value & 0xff) as u8;
        assert((value >> 8) == value / 256 && (value >> 8) < 256) by (bit_vector);
        assert((value & 0xff) == value % 256 && (value & 0xff) < 256) by (bit_vector);
        (hi, lo)
    }
}

/// What a register cache stands for: the feature id, the value that the
/// register is taken to hold, and the maximum that the device reported.
pub struct VcpValueView {
    pub id: u8,
    pub current: u16,
    pub max: u16,
}

impl VcpValueView {
    /// The write that bringing the register to `value` takes: none where the
    /// register is taken to hold `value` already, else one write of `value`
    /// as it stands, whatever the maximum is.
    pub open spec fn write_for(self, value: u16) -> Option<RegisterWrite> {
        if value == self.current {
            None
        } else {
            Some(RegisterWrite { id: self.id, value })
        }
    }

    /// The cache once the write of `value` has been answered with `outcome`.
    /// Only a write that was asked for and that succeeded changes it.
    pub open spec fn set(self, value: u16, outcome: Result<(), Error>) -> VcpValueView {
        if value != self.current && outcome is Ok {
            VcpValueView { current: value, ..self }
        } else {
            self
        }
    }

    /// What `set` answers: the error of a write that was asked for and
    /// failed, else success.
    pub open spec fn set_result(self, value: u16, outcome: Result<(), Error>) -> Result<(), Error> {
        if value != self.current {
            outcome
        } else {
            Ok(())
        }
    }
}

/// The cached state of one numeric register of a display.
///
/// `current` is the value read when the cache was loaded or the last value
/// that was written through this cache with success. Writes made by anyone
/// else are not seen.
#[derive(Clone, Copy, Debug, PartialEq, Eq)]
pub struct VcpValue {
    id: u8,
    current: u16,
    max: u16,
}

impl View for VcpValue {
    type V = VcpValueView;

    closed spec fn view(&self) -> VcpValueView {
        VcpValueView { id: self.id, current: self.current, max: self.max }
    }
}

impl VcpValue {
    /// Loads the cache of register `id` from what reading that register
    /// answered: the maximum and the current value, in that order. Both are
    /// taken as they are. A failed read is handed on.
    pub fn from_display(id: u8, reading: Result<(u16, u16), Error>) -> (r: Result<VcpValue, Error>)
        ensures
            match reading {
                Ok((max, current)) => r is Ok && r->Ok_0@ == (VcpValueView { id, current, max }),
                Err(e) => r == Err::<VcpValue, Error>(e),
            },
    {
        match reading {
            Ok((max, current)) => Ok(VcpValue { id, current, max }),
            Err(e) => Err(e),
        }
    }

    /// The feature id of the register.
    pub fn id(&self) -> (r: u8)
        ensures
            r == self@.id,
    {
        self.id
    }

    /// The value that the register is taken to hold.
    pub fn current(&self) -> (r: u16)
        ensures
            r == self@.current,
    {
        self.current
    }

    /// The maximum that the device reported for the register.
    pub fn max(&self) -> (r: u16)
        ensures
            r == self@.max,
    {
        self.max
    }

    /// Decides whether bringing the register to `value` takes a write. It
    /// takes none where `value` is the cached value. Else it takes exactly
    /// one, of `value` unchanged: the cache does not hold a value to the
    /// maximum.
    pub fn write_for(&self, value: u16) -> (w: Option<RegisterWrite>)
        ensures
            w == self@.write_for(value),
            value == self@.current <==> w is None,
            value != self@.current ==> w == Some(RegisterWrite { id: self@.id, value }),
    {
        if self.current != value {
            Some(RegisterWrite { id: self.id, value })
        } else {
            None
        }
    }

    /// Records how the write that `write_for(value)` asked for ended.
    ///
    /// Where `value` is the cached value no write was asked for: the call
    /// succeeds, the cache stays as it is, and `outcome` is not looked at.
    /// Else a successful write makes `value` the cached value, and a failed
    /// one is handed on with the cache unchanged.
    pub fn set(&mut self, value: u16, outcome: Result<(), Error>) -> (r: Result<(), Error>)
        ensures
            final(self)@ == old(self)@.set(value, outcome),
            r == old(self)@.set_result(value, outcome),
            r is Ok ==> final(self)@.current == value,
            r is Err ==> final(self)@ == old(self)@,
            final(self)@.id == old(self)@.id,
            final(self)@.max == old(self)@.max,
    {
        if self.current != value {
            if outcome.is_ok() {
                self.current = value;
            }
            outcome
        } else {
            Ok(())
        }
    }
}

/// A cache keeps writes that change nothing away from the device. Setting
/// it to the value that it holds takes no write and leaves it as it is,
/// however the outcome reads. Setting it to any other value takes exactly
/// one write, and once that has succeeded the cache holds the value.
pub proof fn lemma_write_suppression(cache: VcpValueView, value: u16, outcome: Result<(), Error>)
    ensures
        value == cache.current ==> {
            &&& cache.write_for(value) is None
            &&& cache.set(value, outcome) == cache
            &&& cache.set_result(value, outcome) is Ok
        },
        value != cache.current ==> {
            &&& cache.write_for(value) == Some(RegisterWrite { id: cache.id, value })
            &&& cache.set(value, Ok(())).current == value
            &&& cache.set(value, Ok(())).write_for(value) is None
            &&& outcome is Err ==> cache.set(value, outcome) == cache && cache.set_result(
                value,
                outcome,
            ) == outcome
        },
{
}

/// A cache does not hold a value to the maximum of its register: a value
/// above it is written as it stands, and is what the cache holds after the
/// write has succeeded.
pub proof fn lemma_no_clamping(cache: VcpValueView, value: u16)
    requires
        value > cache.max,
        value != cache.current,
    ensures
        cache.write_for(value) == Some(RegisterWrite { id: cache.id, value }),
        cache.set(value, Ok(())).current == value,
        cache.set(value, Ok(())).max == cache.max,
{
}

} // verus!
