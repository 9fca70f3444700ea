//! The configuration driver: owns the four hardware capabilities and drives
//! the full iCE40 SPI slave configuration sequence.

use vstd::prelude::*;
use vstd::math::min;
use vstd::slice::slice_subrange;
use crate::ops::Op;
use crate::ops::SpiOp;
use crate::ops::spi_of;
use crate::ops::reset_of;
use crate::ops::select_of;
use crate::ops::done_of;
use crate::ops::delay_of;
use crate::ops::spi_part;
use crate::ops::reset_part;
use crate::ops::select_part;
use crate::ops::done_part;
use crate::ops::delay_part;
use crate::ops::is_spi_op;
use crate::ops::is_line_op;
use crate::ops::lemma_parts_add;
use crate::ops::lemma_parts_one;
use crate::ops::lemma_parts_take_succ;
use crate::plan::CHUNK_BYTES;
use crate::plan::DETECT_ZEROS;
use crate::plan::ACTIVATE_ZEROS;
use crate::plan::RESET_HOLD_US;
use crate::plan::CLEAR_WAIT_US;
use crate::plan::zero_bytes;
use crate::plan::chunk_writes;
use crate::plan::success_ops;
use crate::plan::failure_ops;
use crate::plan::lemma_plan_shape;
use crate::hal::OutputLine;
use crate::hal::InputLine;
use crate::hal::SpiWriter;
use crate::hal::DelaySource;

verus! {

/// A configuration error.  Bus and line errors carry the failing
/// capability's own error value; a verification failure carries none — it
/// means every capability call succeeded but the done line read low after
/// the trailing clocks.
#[derive(Debug, Clone, Copy)]
pub enum Error<SPIERR, IOERR> {
    /// The SPI write or flush operation failed.
    BusError(SPIERR),
    /// A GPIO set or read operation failed.
    IoErr(IOERR),
    /// The done line was not high after the bitstream transfer.
    ConfigurationFailed,
}

/// The configuration driver.  It exclusively owns an SPI channel, the
/// chip-select and reset output lines and the configuration-done input
/// line, and keeps a ghost trace of every operation it has issued, in
/// order, across all four capabilities and the delay provider.
pub struct Device<SPI, SS, DONE, RESET> {
    spi: SPI,
    ss: SS,
    done: DONE,
    reset: RESET,
    trace: Ghost<Seq<Op>>,
}

impl<SPI, SS, DONE, RESET> Device<SPI, SS, DONE, RESET> where
    SPI: SpiWriter,
    SS: OutputLine,
    DONE: InputLine,
    RESET: OutputLine,
 {
    /// Every operation this driver has issued since construction, in order.
    pub closed spec fn trace(&self) -> Seq<Op> {
        self.trace@
    }

    /// The SPI channel's full operation history.
    pub closed spec fn spi_hist(&self) -> Seq<SpiOp> {
        self.spi.hist()
    }

    /// The chip-select line's full history of driven levels.
    pub closed spec fn select_hist(&self) -> Seq<bool> {
        self.ss.hist()
    }

    /// The done line's full history of observed levels.
    pub closed spec fn done_reads(&self) -> Seq<bool> {
        self.done.reads()
    }

    /// The reset line's full history of driven levels.
    pub closed spec fn reset_hist(&self) -> Seq<bool> {
        self.reset.hist()
    }

    /// Between `pre` and `post` the driver issued exactly `op`: the trace
    /// grew by it and each capability's history grew by exactly that
    /// operation's contribution.
    pub open spec fn issued(pre: Self, post: Self, op: Op) -> bool {
        &&& post.trace() == pre.trace().push(op)
        &&& post.spi_hist() == pre.spi_hist() + spi_of(op)
        &&& post.reset_hist() == pre.reset_hist() + reset_of(op)
        &&& post.select_hist() == pre.select_hist() + select_of(op)
        &&& post.done_reads() == pre.done_reads() + done_of(op)
    }

    /// Between `pre` and `post` the driver issued nothing: the trace and
    /// every capability history are unchanged.
    pub open spec fn stalled(pre: Self, post: Self) -> bool {
        &&& post.trace() == pre.trace()
        &&& post.spi_hist() == pre.spi_hist()
        &&& post.reset_hist() == pre.reset_hist()
        &&& post.select_hist() == pre.select_hist()
        &&& post.done_reads() == pre.done_reads()
    }
}

/// Between `pre`/`dpre` and `post`/`dpost`, each capability's history grew
/// by exactly its own projection of the operation sequence `ext`.
pub open spec fn caps_follow<SPI: SpiWriter, SS: OutputLine, DONE: InputLine, RESET: OutputLine, DELAY: DelaySource>(
    pre: Device<SPI, SS, DONE, RESET>,
    post: Device<SPI, SS, DONE, RESET>,
    dpre: DELAY,
    dpost: DELAY,
    ext: Seq<Op>,
) -> bool {
    &&& post.spi_hist() == pre.spi_hist() + spi_part(ext)
    &&& post.reset_hist() == pre.reset_hist() + reset_part(ext)
    &&& post.select_hist() == pre.select_hist() + select_part(ext)
    &&& post.done_reads() == pre.done_reads() + done_part(ext)
    &&& dpost.hist() == dpre.hist() + delay_part(ext)
}

/// The driver, started at `pre`/`dpre`, has issued exactly the first `k`
/// operations of the success plan for `bits` and nothing else.
pub open spec fn mid_run<SPI: SpiWriter, SS: OutputLine, DONE: InputLine, RESET: OutputLine, DELAY: DelaySource>(
    pre: Device<SPI, SS, DONE, RESET>,
    cur: Device<SPI, SS, DONE, RESET>,
    dpre: DELAY,
    dcur: DELAY,
    bits: Seq<u8>,
    k: int,
) -> bool {
    &&& cur.trace() == pre.trace() + success_ops(bits).take(k)
    &&& caps_follow(pre, cur, dpre, dcur, success_ops(bits).take(k))
}

/// A run over `bits` that began at `pre`/`dpre` stopped at step `k` with the
/// capability error `err`: the first `k` operations of the plan were issued,
/// the operation at `k` failed and left no record, nothing was issued after
/// it, and the error kind matches the kind of the failed operation.
pub open spec fn aborted_at<SPI: SpiWriter, SS: OutputLine, DONE: InputLine, RESET: OutputLine, DELAY: DelaySource>(
    pre: Device<SPI, SS, DONE, RESET>,
    post: Device<SPI, SS, DONE, RESET>,
    dpre: DELAY,
    dpost: DELAY,
    bits: Seq<u8>,
    err: Error<SPI::Err, SS::Err>,
    k: int,
) -> bool {
    &&& 0 <= k < success_ops(bits).len()
    &&& post.trace() == pre.trace() + success_ops(bits).take(k)
    &&& caps_follow(pre, post, dpre, dpost, success_ops(bits).take(k))
    &&& err is BusError ==> is_spi_op(success_ops(bits)[k])
    &&& err is IoErr ==> is_line_op(success_ops(bits)[k])
    &&& !(err is ConfigurationFailed)
}

/// One successful non-delay step of the plan advances a mid-run state from
/// `k` to `k + 1`.
proof fn lemma_step_dev<SPI: SpiWriter, SS: OutputLine, DONE: InputLine, RESET: OutputLine, DELAY: DelaySource>(
    pre: Device<SPI, SS, DONE, RESET>,
    mid: Device<SPI, SS, DONE, RESET>,
    post: Device<SPI, SS, DONE, RESET>,
    dpre: DELAY,
    dcur: DELAY,
    bits: Seq<u8>,
    k: int,
)
    requires
        mid_run(pre, mid, dpre, dcur, bits, k),
        0 <= k < success_ops(bits).len(),
        Device::issued(mid, post, success_ops(bits)[k]),
        !(success_ops(bits)[k] is Delay),
    ensures
        mid_run(pre, post, dpre, dcur, bits, k + 1),
        success_ops(bits).take(k + 1) == success_ops(bits).take(k).push(success_ops(bits)[k]),
{
    let plan = success_ops(bits);
    lemma_parts_take_succ(plan, k);
    assert(post.trace() =~= pre.trace() + plan.take(k + 1));
    assert(post.spi_hist() =~= pre.spi_hist() + spi_part(plan.take(k + 1)));
    assert(post.reset_hist() =~= pre.reset_hist() + reset_part(plan.take(k + 1)));
    assert(post.select_hist() =~= pre.select_hist() + select_part(plan.take(k + 1)));
    assert(post.done_reads() =~= pre.done_reads() + done_part(plan.take(k + 1)));
    assert(delay_of(plan[k]) =~= Seq::<u32>::empty());
    assert(dcur.hist() =~= dpre.hist() + delay_part(plan.take(k + 1)));
}

/// One delay step of the plan advances a mid-run state from `k` to `k + 1`:
/// the driver notes the delay in its trace and the delay provider's history
/// grows by the requested duration.
proof fn lemma_step_delay<SPI: SpiWriter, SS: OutputLine, DONE: InputLine, RESET: OutputLine, DELAY: DelaySource>(
    pre: Device<SPI, SS, DONE, RESET>,
    mid: Device<SPI, SS, DONE, RESET>,
    post: Device<SPI, SS, DONE, RESET>,
    dpre: DELAY,
    dmid: DELAY,
    dpost: DELAY,
    bits: Seq<u8>,
    us: u32,
    k: int,
)
    requires
        mid_run(pre, mid, dpre, dmid, bits, k),
        0 <= k < success_ops(bits).len(),
        success_ops(bits)[k] == Op::Delay(us),
        dpost.hist() == dmid.hist().push(us),
        post.trace() == mid.trace().push(success_ops(bits)[k]),
        post.spi_hist() == mid.spi_hist(),
        post.reset_hist() == mid.reset_hist(),
        post.select_hist() == mid.select_hist(),
        post.done_reads() == mid.done_reads(),
    ensures
        mid_run(pre, post, dpre, dpost, bits, k + 1),
{
    let plan = success_ops(bits);
    lemma_parts_take_succ(plan, k);
    assert(post.trace() =~= pre.trace() + plan.take(k + 1));
    assert(post.spi_hist() =~= pre.spi_hist() + spi_part(plan.take(k + 1)));
    assert(post.reset_hist() =~= pre.reset_hist() + reset_part(plan.take(k + 1)));
    assert(post.select_hist() =~= pre.select_hist() + select_part(plan.take(k + 1)));
    assert(post.done_reads() =~= pre.done_reads() + done_part(plan.take(k + 1)));
    assert(dpost.hist() =~= dpre.hist() + delay_part(plan.take(k + 1)));
}

/// A capability failure at step `k` of a mid-run state yields an aborted
/// run, witnessed at `k`.
proof fn lemma_abort<SPI: SpiWriter, SS: OutputLine, DONE: InputLine, RESET: OutputLine, DELAY: DelaySource>(
    pre: Device<SPI, SS, DONE, RESET>,
    mid: Device<SPI, SS, DONE, RESET>,
    post: Device<SPI, SS, DONE, RESET>,
    dpre: DELAY,
    dcur: DELAY,
    bits: Seq<u8>,
    err: Error<SPI::Err, SS::Err>,
    k: int,
)
    requires
        mid_run(pre, mid, dpre, dcur, bits, k),
        0 <= k < success_ops(bits).len(),
        Device::stalled(mid, post),
        err is BusError ==> is_spi_op(success_ops(bits)[k]),
        err is IoErr ==> is_line_op(success_ops(bits)[k]),
        err is BusError || err is IoErr,
    ensures
        aborted_at(pre, post, dpre, dcur, bits, err, k),
        exists|j: int| aborted_at(pre, post, dpre, dcur, bits, err, j),
{
    assert(aborted_at(pre, post, dpre, dcur, bits, err, k));
}

impl<SPI, SS, DONE, RESET> Device<SPI, SS, DONE, RESET> where
    SPI: SpiWriter,
    SS: OutputLine,
    DONE: InputLine<Err = SS::Err>,
    RESET: OutputLine<Err = SS::Err>,
 {
    /// Takes ownership of the four capabilities and builds a driver with an
    /// empty trace.  Never fails.
    pub fn new(spi: SPI, ss: SS, done: DONE, reset: RESET) -> (d: Self)
        ensures
            d.trace() == Seq::<Op>::empty(),
            d.spi_hist() == spi.hist(),
            d.select_hist() == ss.hist(),
            d.done_reads() == done.reads(),
            d.reset_hist() == reset.hist(),
    {
        Device { spi, ss, done, reset, trace: Ghost(Seq::empty()) }
    }

    fn set_reset_low(&mut self) -> (r: Result<(), Error<SPI::Err, SS::Err>>)
        ensures
            r is Ok ==> Self::issued(*old(self), *final(self), Op::ResetLow),
            r is Err ==> Self::stalled(*old(self), *final(self)) && r->Err_0 is IoErr,
    {
        match self.reset.set_low() {
            Ok(()) => {
                self.trace = Ghost(self.trace@.push(Op::ResetLow));
                proof {
                    assert(self.reset_hist() =~= old(self).reset_hist() + reset_of(Op::ResetLow));
                    assert(self.spi_hist() =~= old(self).spi_hist() + spi_of(Op::ResetLow));
                    assert(self.select_hist() =~= old(self).select_hist() + select_of(
                        Op::ResetLow,
                    ));
                    assert(self.done_reads() =~= old(self).done_reads() + done_of(Op::ResetLow));
                }
                Ok(())
            },
            Err(e) => Err(Error::IoErr(e)),
        }
    }

    fn set_reset_high(&mut self) -> (r: Result<(), Error<SPI::Err, SS::Err>>)
        ensures
            r is Ok ==> Self::issued(*old(self), *final(self), Op::ResetHigh),
            r is Err ==> Self::stalled(*old(self), *final(self)) && r->Err_0 is IoErr,
    {
        match self.reset.set_high() {
            Ok(()) => {
                self.trace = Ghost(self.trace@.push(Op::ResetHigh));
                proof {
                    assert(self.reset_hist() =~= old(self).reset_hist() + reset_of(Op::ResetHigh));
                    assert(self.spi_hist() =~= old(self).spi_hist() + spi_of(Op::ResetHigh));
                    assert(self.select_hist() =~= old(self).select_hist() + select_of(
                        Op::ResetHigh,
                    ));
                    assert(self.done_reads() =~= old(self).done_reads() + done_of(Op::ResetHigh));
                }
                Ok(())
            },
            Err(e) => Err(Error::IoErr(e)),
        }
    }

    fn set_ss_low(&mut self) -> (r: Result<(), Error<SPI::Err, SS::Err>>)
        ensures
            r is Ok ==> Self::issued(*old(self), *final(self), Op::SelectLow),
            r is Err ==> Self::stalled(*old(self), *final(self)) && r->Err_0 is IoErr,
    {
        match self.ss.set_low() {
            Ok(()) => {
                self.trace = Ghost(self.trace@.push(Op::SelectLow));
                proof {
                    assert(self.select_hist() =~= old(self).select_hist() + select_of(
                        Op::SelectLow,
                    ));
                    assert(self.spi_hist() =~= old(self).spi_hist() + spi_of(Op::SelectLow));
                    assert(self.reset_hist() =~= old(self).reset_hist() + reset_of(Op::SelectLow));
                    assert(self.done_reads() =~= old(self).done_reads() + done_of(Op::SelectLow));
                }
                Ok(())
            },
            Err(e) => Err(Error::IoErr(e)),
        }
    }

    fn set_ss_high(&mut self) -> (r: Result<(), Error<SPI::Err, SS::Err>>)
        ensures
            r is Ok ==> Self::issued(*old(self), *final(self), Op::SelectHigh),
            r is Err ==> Self::stalled(*old(self), *final(self)) && r->Err_0 is IoErr,
    {
        match self.ss.set_high() {
            Ok(()) => {
                self.trace = Ghost(self.trace@.push(Op::SelectHigh));
                proof {
                    assert(self.select_hist() =~= old(self).select_hist() + select_of(
                        Op::SelectHigh,
                    ));
                    assert(self.spi_hist() =~= old(self).spi_hist() + spi_of(Op::SelectHigh));
                    assert(self.reset_hist() =~= old(self).reset_hist() + reset_of(
                        Op::SelectHigh,
                    ));
                    assert(self.done_reads() =~= old(self).done_reads() + done_of(Op::SelectHigh));
                }
                Ok(())
            },
            Err(e) => Err(Error::IoErr(e)),
        }
    }

    fn is_done(&mut self) -> (r: Result<bool, Error<SPI::Err, SS::Err>>)
        ensures
            r matches Ok(level) ==> Self::issued(*old(self), *final(self), Op::ReadDone(level)),
            r is Err ==> Self::stalled(*old(self), *final(self)) && r->Err_0 is IoErr,
    {
        match self.done.is_high() {
            Ok(level) => {
                self.trace = Ghost(self.trace@.push(Op::ReadDone(level)));
                proof {
                    assert(self.done_reads() =~= old(self).done_reads() + done_of(
                        Op::ReadDone(level),
                    ));
                    assert(self.spi_hist() =~= old(self).spi_hist() + spi_of(Op::ReadDone(level)));
                    assert(self.reset_hist() =~= old(self).reset_hist() + reset_of(
                        Op::ReadDone(level),
                    ));
                    assert(self.select_hist() =~= old(self).select_hist() + select_of(
                        Op::ReadDone(level),
                    ));
                }
                Ok(level)
            },
            Err(e) => Err(Error::IoErr(e)),
        }
    }

    fn bus_write(&mut self, data: &[u8]) -> (r: Result<(), Error<SPI::Err, SS::Err>>)
        ensures
            r is Ok ==> Self::issued(*old(self), *final(self), Op::Write(data@)),
            r is Err ==> Self::stalled(*old(self), *final(self)) && r->Err_0 is BusError,
    {
        match self.spi.write(data) {
            Ok(()) => {
                self.trace = Ghost(self.trace@.push(Op::Write(data@)));
                proof {
                    assert(self.spi_hist() =~= old(self).spi_hist() + spi_of(Op::Write(data@)));
                    assert(self.reset_hist() =~= old(self).reset_hist() + reset_of(
                        Op::Write(data@),
                    ));
                    assert(self.select_hist() =~= old(self).select_hist() + select_of(
                        Op::Write(data@),
                    ));
                    assert(self.done_reads() =~= old(self).done_reads() + done_of(
                        Op::Write(data@),
                    ));
                }
                Ok(())
            },
            Err(e) => Err(Error::BusError(e)),
        }
    }

    fn bus_flush(&mut self) -> (r: Result<(), Error<SPI::Err, SS::Err>>)
        ensures
            r is Ok ==> Self::issued(*old(self), *final(self), Op::Flush),
            r is Err ==> Self::stalled(*old(self), *final(self)) && r->Err_0 is BusError,
    {
        match self.spi.flush() {
            Ok(()) => {
                self.trace = Ghost(self.trace@.push(Op::Flush));
                proof {
                    assert(self.spi_hist() =~= old(self).spi_hist() + spi_of(Op::Flush));
                    assert(self.reset_hist() =~= old(self).reset_hist() + reset_of(Op::Flush));
                    assert(self.select_hist() =~= old(self).select_hist() + select_of(Op::Flush));
                    assert(self.done_reads() =~= old(self).done_reads() + done_of(Op::Flush));
                }
                Ok(())
            },
            Err(e) => Err(Error::BusError(e)),
        }
    }

    /// Runs the full configuration sequence: reset and select the device,
    /// hold, release reset, wait for the configuration memory to clear,
    /// send eight dummy clocks with the device deselected, reselect it,
    /// transfer the bitstream in chunks of at most `CHUNK_BYTES` bytes, clock
    /// out the trailing zeros, check the done line, and on success clock out
    /// the activation zeros.
    ///
    /// The contract pins down the exact operation sequence of every run:
    /// - on success the driver issued exactly `success_ops(bitstream@)`;
    /// - on a verification failure it issued exactly `failure_ops(bitstream@)`
    ///   — it stopped at the low done read and never sent the activation
    ///   zeros;
    /// - on a capability error it stopped at the failing step: it issued
    ///   exactly a proper prefix of the plan, the failed operation's kind
    ///   matches the error's kind, and nothing was issued after it.
    ///
    /// In every case each capability's history grew by exactly its own
    /// projection of the issued operations.
    pub fn configure<DELAY: DelaySource>(&mut self, delay: &mut DELAY, bitstream: &[u8]) -> (r:
        Result<(), Error<SPI::Err, SS::Err>>)
        ensures
            r is Ok ==> final(self).trace() == old(self).trace() + success_ops(bitstream@)
                && caps_follow(
                *old(self),
                *final(self),
                *old(delay),
                *final(delay),
                success_ops(bitstream@),
            ),
            r matches Err(e) && e is ConfigurationFailed ==> final(self).trace() == old(
                self,
            ).trace() + failure_ops(bitstream@) && caps_follow(
                *old(self),
                *final(self),
                *old(delay),
                *final(delay),
                failure_ops(bitstream@),
            ),
            r is Err && !(r->Err_0 is ConfigurationFailed) ==> exists|k: int|
                aborted_at(
                    *old(self),
                    *final(self),
                    *old(delay),
                    *final(delay),
                    bitstream@,
                    r->Err_0,
                    k,
                ),
    {
        let ghost pre = *self;
        let ghost dpre = *delay;
        let ghost plan = success_ops(bitstream@);
        proof {
            lemma_plan_shape(bitstream@);
            assert(plan.take(0) =~= Seq::<Op>::empty());
            assert(pre.trace() + plan.take(0) =~= pre.trace());
            assert(pre.spi_hist() + spi_part(plan.take(0)) =~= pre.spi_hist());
            assert(pre.reset_hist() + reset_part(plan.take(0)) =~= pre.reset_hist());
            assert(pre.select_hist() + select_part(plan.take(0)) =~= pre.select_hist());
            assert(pre.done_reads() + done_part(plan.take(0)) =~= pre.done_reads());
            assert(dpre.hist() + delay_part(plan.take(0)) =~= dpre.hist());
            assert(mid_run(pre, *self, dpre, *delay, bitstream@, 0));
        }
        // Step 1: assert reset.
        let ghost mid = *self;
        match self.set_reset_low() {
            Ok(()) => {
                proof {
                    lemma_step_dev(pre, mid, *self, dpre, *delay, bitstream@, 0);
                }
            },
            Err(e) => {
                proof {
                    lemma_abort(pre, mid, *self, dpre, *delay, bitstream@, e, 0);
                }
                return Err(e);
            },
        }
        // Step 2: select the device.
        let ghost mid = *self;
        match self.set_ss_low() {
            Ok(()) => {
                proof {
                    lemma_step_dev(pre, mid, *self, dpre, *delay, bitstream@, 1);
                }
            },
            Err(e) => {
                proof {
                    lemma_abort(pre, mid, *self, dpre, *delay, bitstream@, e, 1);
                }
                return Err(e);
            },
        }
        // Step 3: hold reset asserted (at least 200 ns).
        let ghost mid = *self;
        let ghost dmid = *delay;
        delay.delay_us(RESET_HOLD_US);
        self.trace = Ghost(self.trace@.push(Op::Delay(RESET_HOLD_US)));
        proof {
            lemma_step_delay(pre, mid, *self, dpre, dmid, *delay, bitstream@, RESET_HOLD_US, 2);
        }
        // Step 4: release reset.
        let ghost mid = *self;
        match self.set_reset_high() {
            Ok(()) => {
                proof {
                    lemma_step_dev(pre, mid, *self, dpre, *delay, bitstream@, 3);
                }
            },
            Err(e) => {
                proof {
                    lemma_abort(pre, mid, *self, dpre, *delay, bitstream@, e, 3);
                }
                return Err(e);
            },
        }
        // Step 5: wait for the internal configuration memory to clear.
        let ghost mid = *self;
        let ghost dmid = *delay;
        delay.delay_us(CLEAR_WAIT_US);
        self.trace = Ghost(self.trace@.push(Op::Delay(CLEAR_WAIT_US)));
        proof {
            lemma_step_delay(pre, mid, *self, dpre, dmid, *delay, bitstream@, CLEAR_WAIT_US, 4);
        }
        // Step 6: deselect and send eight dummy clocks.
        let ghost mid = *self;
        match self.set_ss_high() {
            Ok(()) => {
                proof {
                    lemma_step_dev(pre, mid, *self, dpre, *delay, bitstream@, 5);
                }
            },
            Err(e) => {
                proof {
                    lemma_abort(pre, mid, *self, dpre, *delay, bitstream@, e, 5);
                }
                return Err(e);
            },
        }
        let dummy = zero_vec(1);
        let ghost mid = *self;
        match self.bus_write(dummy.as_slice()) {
            Ok(()) => {
                proof {
                    lemma_step_dev(pre, mid, *self, dpre, *delay, bitstream@, 6);
                }
            },
            Err(e) => {
                proof {
                    lemma_abort(pre, mid, *self, dpre, *delay, bitstream@, e, 6);
                }
                return Err(e);
            },
        }
        let ghost mid = *self;
        match self.bus_flush() {
            Ok(()) => {
                proof {
                    lemma_step_dev(pre, mid, *self, dpre, *delay, bitstream@, 7);
                }
            },
            Err(e) => {
                proof {
                    lemma_abort(pre, mid, *self, dpre, *delay, bitstream@, e, 7);
                }
                return Err(e);
            },
        }
        // Step 7: reselect the device.
        let ghost mid = *self;
        match self.set_ss_low() {
            Ok(()) => {
                proof {
                    lemma_step_dev(pre, mid, *self, dpre, *delay, bitstream@, 8);
                }
            },
            Err(e) => {
                proof {
                    lemma_abort(pre, mid, *self, dpre, *delay, bitstream@, e, 8);
                }
                return Err(e);
            },
        }
        // Step 8: transfer the bitstream in bounded chunks.
        let mut i: usize = 0;
        let ghost mut sent: Seq<Op> = seq![];
        proof {
            assert(bitstream@.skip(0) =~= bitstream@);
            assert(sent + chunk_writes(bitstream@) =~= chunk_writes(bitstream@));
            assert(plan.take(9 + sent.len() as int) =~= plan.take(9) + sent);
        }
        while i < bitstream.len()
            invariant
                pre == *old(self),
                dpre == *old(delay),
                i <= bitstream.len(),
                chunk_writes(bitstream@) == sent + chunk_writes(bitstream@.skip(i as int)),
                plan == success_ops(bitstream@),
                plan.take(9 + sent.len() as int) == plan.take(9) + sent,
                mid_run(pre, *self, dpre, *delay, bitstream@, 9 + sent.len() as int),
            decreases bitstream.len() - i,
        {
            proof {
                lemma_plan_shape(bitstream@);
            }
            let remaining: usize = bitstream.len() - i;
            let c: usize = if remaining < CHUNK_BYTES {
                remaining
            } else {
                CHUNK_BYTES
            };
            let chunk = slice_subrange(bitstream, i, i + c);
            let ghost k: int = 9 + sent.len() as int;
            proof {
                assert(bitstream@.skip(i as int).len() == remaining);
                assert(min(CHUNK_BYTES as int, remaining as int) == c);
                assert(chunk_writes(bitstream@.skip(i as int)) == seq![
                    Op::Write(bitstream@.skip(i as int).take(c as int)),
                ] + chunk_writes(bitstream@.skip(i as int).skip(c as int)));
                assert(bitstream@.skip(i as int).take(c as int) =~= chunk@);
                assert(chunk_writes(bitstream@)[sent.len() as int] == Op::Write(chunk@));
                assert(sent.len() < chunk_writes(bitstream@).len());
                assert(plan[k] == Op::Write(chunk@));
            }
            let ghost mid = *self;
            match self.bus_write(chunk) {
                Ok(()) => {
                    proof {
                        lemma_step_dev(pre, mid, *self, dpre, *delay, bitstream@, k);
                        assert(bitstream@.skip(i as int).skip(c as int) =~= bitstream@.skip(
                            i as int + c as int,
                        ));
                        sent = sent.push(Op::Write(chunk@));
                        assert(chunk_writes(bitstream@) =~= sent + chunk_writes(
                            bitstream@.skip(i as int + c as int),
                        ));
                        assert(plan.take(9 + sent.len() as int) =~= plan.take(9) + sent);
                    }
                    i = i + c;
                },
                Err(e) => {
                    proof {
                        lemma_abort(pre, mid, *self, dpre, *delay, bitstream@, e, k);
                    }
                    return Err(e);
                },
            }
        }
        let ghost cw: int = chunk_writes(bitstream@).len() as int;
        proof {
            assert(bitstream@.skip(bitstream@.len() as int) =~= Seq::<u8>::empty());
            assert(chunk_writes(Seq::<u8>::empty()) =~= Seq::<Op>::empty());
            assert(sent =~= chunk_writes(bitstream@));
            assert(9 + sent.len() as int == 9 + cw);
        }
        // Step 9: trailing clocks so the device can assert its done line.
        let detect = zero_vec(DETECT_ZEROS);
        let ghost mid = *self;
        match self.bus_write(detect.as_slice()) {
            Ok(()) => {
                proof {
                    lemma_step_dev(pre, mid, *self, dpre, *delay, bitstream@, 9 + cw);
                }
            },
            Err(e) => {
                proof {
                    lemma_abort(pre, mid, *self, dpre, *delay, bitstream@, e, 9 + cw);
                }
                return Err(e);
            },
        }
        let ghost mid = *self;
        match self.bus_flush() {
            Ok(()) => {
                proof {
                    lemma_step_dev(pre, mid, *self, dpre, *delay, bitstream@, 10 + cw);
                }
            },
            Err(e) => {
                proof {
                    lemma_abort(pre, mid, *self, dpre, *delay, bitstream@, e, 10 + cw);
                }
                return Err(e);
            },
        }
        // Step 10: verify that the device reports a successful load.
        let ghost mid = *self;
        let cdone = match self.is_done() {
            Ok(level) => level,
            Err(e) => {
                proof {
                    lemma_abort(pre, mid, *self, dpre, *delay, bitstream@, e, 11 + cw);
                }
                return Err(e);
            },
        };
        if !cdone {
            proof {
                lemma_parts_take_succ(plan, 11 + cw);
                lemma_parts_add(plan.take(11 + cw), seq![Op::ReadDone(false)]);
                lemma_parts_one(Op::ReadDone(false));
                assert(failure_ops(bitstream@) =~= plan.take(11 + cw) + seq![Op::ReadDone(false)]);
                assert(self.trace() =~= pre.trace() + failure_ops(bitstream@));
                assert(self.spi_hist() =~= pre.spi_hist() + spi_part(failure_ops(bitstream@)));
                assert(self.reset_hist() =~= pre.reset_hist() + reset_part(
                    failure_ops(bitstream@),
                ));
                assert(self.select_hist() =~= pre.select_hist() + select_part(
                    failure_ops(bitstream@),
                ));
                assert(self.done_reads() =~= pre.done_reads() + done_part(
                    failure_ops(bitstream@),
                ));
                assert(delay.hist() =~= dpre.hist() + delay_part(failure_ops(bitstream@)));
            }
            return Err(Error::ConfigurationFailed);
        }
        proof {
            lemma_step_dev(pre, mid, *self, dpre, *delay, bitstream@, 11 + cw);
        }
        // Step 11: additional clocks to activate the user I/O pins.
        let activate = zero_vec(ACTIVATE_ZEROS);
        let ghost mid = *self;
        match self.bus_write(activate.as_slice()) {
            Ok(()) => {
                proof {
                    lemma_step_dev(pre, mid, *self, dpre, *delay, bitstream@, 12 + cw);
                }
            },
            Err(e) => {
                proof {
                    lemma_abort(pre, mid, *self, dpre, *delay, bitstream@, e, 12 + cw);
                }
                return Err(e);
            },
        }
        let ghost mid = *self;
        match self.bus_flush() {
            Ok(()) => {
                proof {
                    lemma_step_dev(pre, mid, *self, dpre, *delay, bitstream@, 13 + cw);
                }
            },
            Err(e) => {
                proof {
                    lemma_abort(pre, mid, *self, dpre, *delay, bitstream@, e, 13 + cw);
                }
                return Err(e);
            },
        }
        proof {
            assert(plan.take(14 + cw) =~= plan);
        }
        Ok(())
    }

    /// Breaks the driver back down into its SPI channel and pins, with each
    /// capability's history exactly as the driver left it.
    pub fn release(self) -> (r: (SPI, SS, DONE, RESET))
        ensures
            r.0.hist() == self.spi_hist(),
            r.1.hist() == self.select_hist(),
            r.2.reads() == self.done_reads(),
            r.3.hist() == self.reset_hist(),
    {
        let Device { spi, ss, done, reset, trace: _ } = self;
        (spi, ss, done, reset)
    }
}

/// A vector of `n` zero bytes, used for dummy-clock padding.
fn zero_vec(n: usize) -> (v: Vec<u8>)
    ensures
        v@ == zero_bytes(n as nat),
{
    let mut v: Vec<u8> = Vec::new();
    proof {
        assert(v@ =~= zero_bytes(0));
    }
    while v.len() < n
        invariant
            v@ == zero_bytes(v.len() as nat),
            v.len() <= n,
        decreases n - v.len(),
    {
        v.push(0);
        proof {
            assert(v@ =~= zero_bytes(v.len() as nat));
        }
    }
    v
}

} // verus!
