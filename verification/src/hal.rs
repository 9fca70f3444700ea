//! The narrow hardware capability interfaces the driver is built over: a
//! writable SPI channel, output lines, an input line, and a delay provider.
//!
//! Each capability carries a ghost history of the operations driven through
//! it.  An implementation decides freely whether a call succeeds — real
//! hardware may fail at any point — but whenever a call succeeds it must
//! record exactly that one operation, and a failed call records nothing.

use vstd::prelude::*;
use crate::ops::SpiOp;

verus! {

/// A digital output line (chip-select or reset): can be driven high or low,
/// and either drive may fail with the line's own error value.
pub trait OutputLine: Sized {
    type Err;

    /// The levels driven on the line so far, in order; `true` is high.
    /// Verified implementations override this with their own record; for an
    /// implementation outside the verifier the history is opaque and the
    /// default stands, never used in any proof.
    open spec fn hist(&self) -> Seq<bool> {
        Seq::empty()
    }

    fn set_low(&mut self) -> (r: Result<(), Self::Err>)
        ensures
            r is Ok ==> final(self).hist() == old(self).hist().push(false),
            r is Err ==> final(self).hist() == old(self).hist(),
    ;

    fn set_high(&mut self) -> (r: Result<(), Self::Err>)
        ensures
            r is Ok ==> final(self).hist() == old(self).hist().push(true),
            r is Err ==> final(self).hist() == old(self).hist(),
    ;
}

/// A digital input line (the configuration-done line): its current level can
/// be read, and the read may fail with the line's own error value.
pub trait InputLine: Sized {
    type Err;

    /// The levels observed on the line so far, in order; `true` is high.
    /// Verified implementations override this with their own record; for an
    /// implementation outside the verifier the history is opaque and the
    /// default stands, never used in any proof.
    open spec fn reads(&self) -> Seq<bool> {
        Seq::empty()
    }

    fn is_high(&mut self) -> (r: Result<bool, Self::Err>)
        ensures
            r matches Ok(level) ==> final(self).reads() == old(self).reads().push(level),
            r is Err ==> final(self).reads() == old(self).reads(),
    ;
}

/// A write-only SPI channel: byte sequences can be clocked out and the
/// channel flushed, and either operation may fail with the bus's own error
/// value.
pub trait SpiWriter: Sized {
    type Err;

    /// The bus operations performed so far, in order.
    /// Verified implementations override this with their own record; for an
    /// implementation outside the verifier the history is opaque and the
    /// default stands, never used in any proof.
    open spec fn hist(&self) -> Seq<SpiOp> {
        Seq::empty()
    }

    fn write(&mut self, data: &[u8]) -> (r: Result<(), Self::Err>)
        ensures
            r is Ok ==> final(self).hist() == old(self).hist().push(SpiOp::Write(data@)),
            r is Err ==> final(self).hist() == old(self).hist(),
    ;

    fn flush(&mut self) -> (r: Result<(), Self::Err>)
        ensures
            r is Ok ==> final(self).hist() == old(self).hist().push(SpiOp::Flush),
            r is Err ==> final(self).hist() == old(self).hist(),
    ;
}

/// A delay provider: blocks the caller for at least the requested number of
/// microseconds.  Delays are assumed infallible.
pub trait DelaySource: Sized {
    /// The delays requested so far, in microseconds, in order.
    /// Verified implementations override this with their own record; for an
    /// implementation outside the verifier the history is opaque and the
    /// default stands, never used in any proof.
    open spec fn hist(&self) -> Seq<u32> {
        Seq::empty()
    }

    fn delay_us(&mut self, us: u32)
        ensures
            final(self).hist() == old(self).hist().push(us),
    ;
}

} // verus!
