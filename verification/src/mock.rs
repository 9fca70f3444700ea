//! Verified recording doubles for the capability interfaces.
//!
//! Each mock records, as ordinary data, exactly the operations the driver
//! issues through it, and can be armed to fail after a chosen number of
//! successful calls, so that a harness can inject a capability error at any
//! single step of the protocol and inspect afterwards what was issued.

use vstd::prelude::*;
use vstd::slice::slice_to_vec;
use crate::ops::SpiOp;
use crate::hal::OutputLine;
use crate::hal::InputLine;
use crate::hal::SpiWriter;
use crate::hal::DelaySource;

verus! {

/// The error value with which every mock capability fails.
#[derive(Debug, Clone, Copy, PartialEq, Eq)]
pub struct MockFault;

/// A recorded SPI operation: the payload of a write, or a flush.
#[derive(Debug, Clone, PartialEq, Eq)]
pub enum SpiRec {
    Write(Vec<u8>),
    Flush,
}

impl View for SpiRec {
    type V = SpiOp;

    open spec fn view(&self) -> SpiOp {
        match self {
            SpiRec::Write(data) => SpiOp::Write(data@),
            SpiRec::Flush => SpiOp::Flush,
        }
    }
}

/// A recording output line.  Every level successfully driven is appended to
/// `driven`.  With `ok_calls_left` set to `n`, the first `n` calls succeed
/// and every later call fails, recording nothing.
pub struct MockOutput {
    pub driven: Vec<bool>,
    pub ok_calls_left: Option<u32>,
}

impl MockOutput {
    /// A line on which every drive succeeds.
    pub fn new() -> (m: Self)
        ensures
            m.hist() == Seq::<bool>::empty(),
    {
        MockOutput { driven: Vec::new(), ok_calls_left: None }
    }

    /// A line on which the first `n` drives succeed and all later ones fail.
    pub fn failing_after(n: u32) -> (m: Self)
        ensures
            m.hist() == Seq::<bool>::empty(),
    {
        MockOutput { driven: Vec::new(), ok_calls_left: Some(n) }
    }

    fn drive(&mut self, level: bool) -> (r: Result<(), MockFault>)
        ensures
            r is Ok ==> final(self).hist() == old(self).hist().push(level),
            r is Err ==> final(self).hist() == old(self).hist(),
    {
        match self.ok_calls_left {
            None => {
                self.driven.push(level);
                Ok(())
            },
            Some(n) => {
                if n == 0 {
                    Err(MockFault)
                } else {
                    self.ok_calls_left = Some(n - 1);
                    self.driven.push(level);
                    Ok(())
                }
            },
        }
    }
}

impl OutputLine for MockOutput {
    type Err = MockFault;

    open spec fn hist(&self) -> Seq<bool> {
        self.driven@
    }

    fn set_low(&mut self) -> (r: Result<(), MockFault>) {
        self.drive(false)
    }

    fn set_high(&mut self) -> (r: Result<(), MockFault>) {
        self.drive(true)
    }
}

/// A recording input line with a fixed level.  Every successful read
/// observes `level` and appends it to `seen`; with `fail` set, every read
/// fails, recording nothing.
pub struct MockInput {
    pub seen: Vec<bool>,
    pub level: bool,
    pub fail: bool,
}

impl MockInput {
    /// A line that always reads `level`.
    pub fn reading(level: bool) -> (m: Self)
        ensures
            m.reads() == Seq::<bool>::empty(),
            m.level == level,
            !m.fail,
    {
        MockInput { seen: Vec::new(), level, fail: false }
    }

    /// A line on which every read fails.
    pub fn failing() -> (m: Self)
        ensures
            m.reads() == Seq::<bool>::empty(),
            m.fail,
    {
        MockInput { seen: Vec::new(), level: false, fail: true }
    }
}

impl InputLine for MockInput {
    type Err = MockFault;

    open spec fn reads(&self) -> Seq<bool> {
        self.seen@
    }

    fn is_high(&mut self) -> (r: Result<bool, MockFault>) {
        if self.fail {
            Err(MockFault)
        } else {
            let level = self.level;
            self.seen.push(level);
            Ok(level)
        }
    }
}

/// A recording SPI channel.  Every successful write stores a copy of its
/// payload and every successful flush a marker, in order, in `ops`.  With
/// `ok_calls_left` set to `n`, the first `n` calls succeed and every later
/// call fails, recording nothing.
pub struct MockSpi {
    pub ops: Vec<SpiRec>,
    pub ok_calls_left: Option<u32>,
}

impl MockSpi {
    /// A channel on which every call succeeds.
    pub fn new() -> (m: Self)
        ensures
            m.hist() == Seq::<SpiOp>::empty(),
    {
        let m = MockSpi { ops: Vec::new(), ok_calls_left: None };
        proof {
            assert(m.hist() =~= Seq::<SpiOp>::empty());
        }
        m
    }

    /// A channel on which the first `n` calls succeed and all later ones fail.
    pub fn failing_after(n: u32) -> (m: Self)
        ensures
            m.hist() == Seq::<SpiOp>::empty(),
    {
        let m = MockSpi { ops: Vec::new(), ok_calls_left: Some(n) };
        proof {
            assert(m.hist() =~= Seq::<SpiOp>::empty());
        }
        m
    }

    fn take_budget(&mut self) -> (ok: bool)
        ensures
            final(self).ops@ == old(self).ops@,
    {
        match self.ok_calls_left {
            None => true,
            Some(n) => {
                if n == 0 {
                    false
                } else {
                    self.ok_calls_left = Some(n - 1);
                    true
                }
            },
        }
    }
}

impl SpiWriter for MockSpi {
    type Err = MockFault;

    open spec fn hist(&self) -> Seq<SpiOp> {
        Seq::new(self.ops@.len(), |i: int| self.ops@[i]@)
    }

    fn write(&mut self, data: &[u8]) -> (r: Result<(), MockFault>) {
        if self.take_budget() {
            let copy = slice_to_vec(data);
            self.ops.push(SpiRec::Write(copy));
            proof {
                assert(self.hist() =~= old(self).hist().push(SpiOp::Write(data@)));
            }
            Ok(())
        } else {
            proof {
                assert(self.hist() =~= old(self).hist());
            }
            Err(MockFault)
        }
    }

    fn flush(&mut self) -> (r: Result<(), MockFault>) {
        if self.take_budget() {
            self.ops.push(SpiRec::Flush);
            proof {
                assert(self.hist() =~= old(self).hist().push(SpiOp::Flush));
            }
            Ok(())
        } else {
            proof {
                assert(self.hist() =~= old(self).hist());
            }
            Err(MockFault)
        }
    }
}

/// A recording delay provider: every requested duration is appended to
/// `requested`.  It never actually blocks, and never fails.
pub struct MockDelay {
    pub requested: Vec<u32>,
}

impl MockDelay {
    pub fn new() -> (m: Self)
        ensures
            m.hist() == Seq::<u32>::empty(),
    {
        MockDelay { requested: Vec::new() }
    }
}

impl DelaySource for MockDelay {
    open spec fn hist(&self) -> Seq<u32> {
        self.requested@
    }

    fn delay_us(&mut self, us: u32) {
        self.requested.push(us);
    }
}

} // verus!
