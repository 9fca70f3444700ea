//! The configuration protocol as a mathematical plan: the exact sequence of
//! operations that a run of the driver issues, as a function of the bitstream
//! and of the level observed on the configuration-done line.

use vstd::prelude::*;
use vstd::math::min;
use crate::ops::Op;
use crate::ops::SpiOp;
use crate::ops::spi_part;
use crate::ops::reset_part;
use crate::ops::select_part;
use crate::ops::done_part;
use crate::ops::delay_part;
use crate::ops::lemma_parts_add;
use crate::ops::lemma_parts_one;
use crate::ops::lemma_parts_take_succ;

verus! {

/// Largest number of bitstream bytes sent in a single SPI bus transaction.
pub const CHUNK_BYTES: usize = 1024;

/// Number of all-zero bytes clocked out after the bitstream so that the
/// device can assert its done line (at least 100 clock cycles are required).
pub const DETECT_ZEROS: usize = 13;

/// Number of all-zero bytes clocked out after a successful done check to
/// activate the user I/O pins (at least 49 clock cycles are required).
pub const ACTIVATE_ZEROS: usize = 7;

/// Minimum hold time, in microseconds, between asserting reset and releasing
/// it (the device asks for at least 200 ns).
pub const RESET_HOLD_US: u32 = 1;

/// Minimum wait, in microseconds, after releasing reset, for the device to
/// clear its internal configuration memory.
pub const CLEAR_WAIT_US: u32 = 1200;

/// A run of `n` zero bytes.
pub open spec fn zero_bytes(n: nat) -> Seq<u8> {
    Seq::new(n, |i: int| 0u8)
}

/// The bitstream transfer: one SPI write per chunk of at most `CHUNK_BYTES`
/// bytes, taken from the bitstream in order.
pub open spec fn chunk_writes(bits: Seq<u8>) -> Seq<Op>
    decreases bits.len(),
{
    if bits.len() == 0 {
        seq![]
    } else {
        let c = min(CHUNK_BYTES as int, bits.len() as int);
        seq![Op::Write(bits.take(c))] + chunk_writes(bits.skip(c))
    }
}

/// The opening of every run: assert reset and chip-select, hold, release
/// reset, wait for the configuration memory to clear, then send eight dummy
/// clocks with chip-select deasserted and reselect the device.
pub open spec fn preamble_ops() -> Seq<Op> {
    seq![
        Op::ResetLow,
        Op::SelectLow,
        Op::Delay(RESET_HOLD_US),
        Op::ResetHigh,
        Op::Delay(CLEAR_WAIT_US),
        Op::SelectHigh,
        Op::Write(zero_bytes(1 as nat)),
        Op::Flush,
        Op::SelectLow,
    ]
}

/// Everything a run issues before it looks at the done line: the preamble,
/// the chunked bitstream transfer, and the trailing clocks.
pub open spec fn load_ops(bits: Seq<u8>) -> Seq<Op> {
    preamble_ops() + chunk_writes(bits) + seq![Op::Write(zero_bytes(DETECT_ZEROS as nat)), Op::Flush]
}

/// The operations of a run on which every capability call succeeds and the
/// done line reads high: the load, the done check, and the activation clocks.
pub open spec fn success_ops(bits: Seq<u8>) -> Seq<Op> {
    load_ops(bits) + seq![
        Op::ReadDone(true),
        Op::Write(zero_bytes(ACTIVATE_ZEROS as nat)),
        Op::Flush,
    ]
}

/// The operations of a run on which every capability call succeeds but the
/// done line reads low: the run stops at the failed check, and the
/// activation clocks are never sent.
pub open spec fn failure_ops(bits: Seq<u8>) -> Seq<Op> {
    load_ops(bits) + seq![Op::ReadDone(false)]
}

/// The position, counted in operations, of each landmark of the plan, and
/// the operation that stands there.  `success_ops` and `failure_ops` agree
/// up to and including the trailing flush and differ only in the observed
/// done level.
pub proof fn lemma_plan_shape(bits: Seq<u8>)
    ensures
        success_ops(bits).len() == 14 + chunk_writes(bits).len(),
        failure_ops(bits).len() == 12 + chunk_writes(bits).len(),
        success_ops(bits)[0] == Op::ResetLow,
        success_ops(bits)[1] == Op::SelectLow,
        success_ops(bits)[2] == Op::Delay(RESET_HOLD_US),
        success_ops(bits)[3] == Op::ResetHigh,
        success_ops(bits)[4] == Op::Delay(CLEAR_WAIT_US),
        success_ops(bits)[5] == Op::SelectHigh,
        success_ops(bits)[6] == Op::Write(zero_bytes(1 as nat)),
        success_ops(bits)[7] == Op::Flush,
        success_ops(bits)[8] == Op::SelectLow,
        forall|j: int|
            0 <= j < chunk_writes(bits).len() ==> success_ops(bits)[9 + j] == chunk_writes(
                bits,
            )[j],
        success_ops(bits)[9 + chunk_writes(bits).len() as int] == Op::Write(
            zero_bytes(DETECT_ZEROS as nat),
        ),
        success_ops(bits)[10 + chunk_writes(bits).len() as int] == Op::Flush,
        success_ops(bits)[11 + chunk_writes(bits).len() as int] == Op::ReadDone(true),
        success_ops(bits)[12 + chunk_writes(bits).len() as int] == Op::Write(
            zero_bytes(ACTIVATE_ZEROS as nat),
        ),
        success_ops(bits)[13 + chunk_writes(bits).len() as int] == Op::Flush,
        forall|j: int|
            0 <= j < 12 + chunk_writes(bits).len() as int ==> failure_ops(bits)[j] == if j < 11
                + chunk_writes(bits).len() {
                success_ops(bits)[j]
            } else {
                Op::ReadDone(false)
            },
{
}

/// Chunking law: the bitstream transfer issues exactly one SPI write per
/// chunk of at most `CHUNK_BYTES` bytes — `ceil(len / CHUNK_BYTES)` writes in
/// all — and the payload of the `j`-th write is exactly the `j`-th slice of
/// the bitstream, in order.  In particular, concatenating the payloads in
/// the order written reproduces the bitstream with no byte reordered,
/// dropped or duplicated.
pub proof fn lemma_chunks_reassemble(bits: Seq<u8>)
    ensures
        chunk_writes(bits).len() as int == (bits.len() as int + CHUNK_BYTES as int - 1)
            / (CHUNK_BYTES as int),
        forall|j: int|
            0 <= j < chunk_writes(bits).len() ==> chunk_writes(bits)[j] == Op::Write(
                bits.subrange(
                    CHUNK_BYTES as int * j,
                    min(CHUNK_BYTES as int * (j + 1), bits.len() as int),
                ),
            ),
    decreases bits.len(),
{
    let k = CHUNK_BYTES as int;
    let len = bits.len() as int;
    if bits.len() == 0 {
    } else {
        let c = min(k, len);
        lemma_chunks_reassemble(bits.skip(c));
        let rest = chunk_writes(bits.skip(c));
        assert(chunk_writes(bits) == seq![Op::Write(bits.take(c))] + rest);
        if len <= k {
            assert(bits.skip(c).len() == 0);
            assert((len + k - 1) / k == 1) by (nonlinear_arith)
                requires 1 <= len <= k && k == 1024,
            ;
        } else {
            assert((len - k + k - 1) / k + 1 == (len + k - 1) / k) by (nonlinear_arith)
                requires len > k && k == 1024,
            ;
        }
        assert forall|j: int| 0 <= j < chunk_writes(bits).len() implies chunk_writes(bits)[j]
            == Op::Write(bits.subrange(k * j, min(k * (j + 1), len))) by {
            if j == 0 {
                assert(bits.take(c) =~= bits.subrange(0, min(k, len)));
            } else {
                assert(c == k);
                assert(chunk_writes(bits)[j] == rest[j - 1]);
                assert(rest[j - 1] == Op::Write(
                    bits.skip(c).subrange(k * (j - 1), min(k * j, len - c)),
                ));
                assert(bits.skip(c).subrange(k * (j - 1), min(k * j, len - c)) =~= bits.subrange(
                    k * j,
                    min(k * (j + 1), len),
                ));
            }
        }
    }
}

/// The bitstream transfer consists of SPI writes alone: it touches neither
/// line, reads nothing and requests no delay.
proof fn lemma_chunk_parts(bits: Seq<u8>)
    ensures
        reset_part(chunk_writes(bits)) == Seq::<bool>::empty(),
        select_part(chunk_writes(bits)) == Seq::<bool>::empty(),
        done_part(chunk_writes(bits)) == Seq::<bool>::empty(),
        delay_part(chunk_writes(bits)) == Seq::<u32>::empty(),
    decreases bits.len(),
{
    if bits.len() == 0 {
    } else {
        let c = min(CHUNK_BYTES as int, bits.len() as int);
        let head = Op::Write(bits.take(c));
        lemma_chunk_parts(bits.skip(c));
        lemma_parts_add(seq![head], chunk_writes(bits.skip(c)));
        lemma_parts_one(head);
        assert(reset_part(chunk_writes(bits)) =~= Seq::<bool>::empty());
        assert(select_part(chunk_writes(bits)) =~= Seq::<bool>::empty());
        assert(done_part(chunk_writes(bits)) =~= Seq::<bool>::empty());
        assert(delay_part(chunk_writes(bits)) =~= Seq::<u32>::empty());
    }
}

/// What each capability sees over a whole run.  On a successful run the
/// reset line is driven low then high, the chip-select line low, high and
/// low again, the delay provider is asked for the reset hold and then the
/// clear wait, the done line is read once and observed high, and the SPI
/// channel carries the dummy byte, the bitstream chunks, the trailing
/// clocks and the activation clocks.  On a verification failure the line
/// and delay sequences are the same, the single done read observes low,
/// and the SPI channel never carries the activation clocks.
pub proof fn lemma_capability_sequences(bits: Seq<u8>)
    ensures
        reset_part(success_ops(bits)) == seq![false, true],
        select_part(success_ops(bits)) == seq![false, true, false],
        done_part(success_ops(bits)) == seq![true],
        delay_part(success_ops(bits)) == seq![RESET_HOLD_US, CLEAR_WAIT_US],
        spi_part(success_ops(bits)) == seq![SpiOp::Write(zero_bytes(1 as nat)), SpiOp::Flush]
            + spi_part(chunk_writes(bits)) + seq![
            SpiOp::Write(zero_bytes(DETECT_ZEROS as nat)),
            SpiOp::Flush,
            SpiOp::Write(zero_bytes(ACTIVATE_ZEROS as nat)),
            SpiOp::Flush,
        ],
        reset_part(failure_ops(bits)) == seq![false, true],
        select_part(failure_ops(bits)) == seq![false, true, false],
        done_part(failure_ops(bits)) == seq![false],
        delay_part(failure_ops(bits)) == seq![RESET_HOLD_US, CLEAR_WAIT_US],
        spi_part(failure_ops(bits)) == seq![SpiOp::Write(zero_bytes(1 as nat)), SpiOp::Flush]
            + spi_part(chunk_writes(bits)) + seq![
            SpiOp::Write(zero_bytes(DETECT_ZEROS as nat)),
            SpiOp::Flush,
        ],
{
    let pre = preamble_ops();
    lemma_parts_take_succ(pre, 0);
    lemma_parts_take_succ(pre, 1);
    lemma_parts_take_succ(pre, 2);
    lemma_parts_take_succ(pre, 3);
    lemma_parts_take_succ(pre, 4);
    lemma_parts_take_succ(pre, 5);
    lemma_parts_take_succ(pre, 6);
    lemma_parts_take_succ(pre, 7);
    lemma_parts_take_succ(pre, 8);
    assert(pre.take(0) =~= Seq::<Op>::empty());
    assert(pre.take(9) =~= pre);
    assert(reset_part(pre) =~= seq![false, true]);
    assert(select_part(pre) =~= seq![false, true, false]);
    assert(done_part(pre) =~= Seq::<bool>::empty());
    assert(delay_part(pre) =~= seq![RESET_HOLD_US, CLEAR_WAIT_US]);
    assert(spi_part(pre) =~= seq![SpiOp::Write(zero_bytes(1 as nat)), SpiOp::Flush]);
    lemma_chunk_parts(bits);
    let trailing = seq![Op::Write(zero_bytes(DETECT_ZEROS as nat)), Op::Flush];
    lemma_parts_one(Op::Write(zero_bytes(DETECT_ZEROS as nat)));
    lemma_parts_one(Op::Flush);
    assert(trailing =~= seq![Op::Write(zero_bytes(DETECT_ZEROS as nat))] + seq![Op::Flush]);
    lemma_parts_add(seq![Op::Write(zero_bytes(DETECT_ZEROS as nat))], seq![Op::Flush]);
    lemma_parts_add(pre, chunk_writes(bits));
    lemma_parts_add(pre + chunk_writes(bits), trailing);
    assert(load_ops(bits) == pre + chunk_writes(bits) + trailing);
    let closing = seq![
        Op::ReadDone(true),
        Op::Write(zero_bytes(ACTIVATE_ZEROS as nat)),
        Op::Flush,
    ];
    lemma_parts_take_succ(closing, 0);
    lemma_parts_take_succ(closing, 1);
    lemma_parts_take_succ(closing, 2);
    assert(closing.take(0) =~= Seq::<Op>::empty());
    assert(closing.take(3) =~= closing);
    lemma_parts_add(load_ops(bits), closing);
    assert(success_ops(bits) == load_ops(bits) + closing);
    assert(reset_part(success_ops(bits)) =~= seq![false, true]);
    assert(select_part(success_ops(bits)) =~= seq![false, true, false]);
    assert(done_part(success_ops(bits)) =~= seq![true]);
    assert(delay_part(success_ops(bits)) =~= seq![RESET_HOLD_US, CLEAR_WAIT_US]);
    assert(spi_part(success_ops(bits)) =~= seq![
        SpiOp::Write(zero_bytes(1 as nat)),
        SpiOp::Flush,
    ] + spi_part(chunk_writes(bits)) + seq![
        SpiOp::Write(zero_bytes(DETECT_ZEROS as nat)),
        SpiOp::Flush,
        SpiOp::Write(zero_bytes(ACTIVATE_ZEROS as nat)),
        SpiOp::Flush,
    ]);
    lemma_parts_add(load_ops(bits), seq![Op::ReadDone(false)]);
    lemma_parts_one(Op::ReadDone(false));
    assert(failure_ops(bits) == load_ops(bits) + seq![Op::ReadDone(false)]);
    assert(reset_part(failure_ops(bits)) =~= seq![false, true]);
    assert(select_part(failure_ops(bits)) =~= seq![false, true, false]);
    assert(done_part(failure_ops(bits)) =~= seq![false]);
    assert(delay_part(failure_ops(bits)) =~= seq![RESET_HOLD_US, CLEAR_WAIT_US]);
    assert(spi_part(failure_ops(bits)) =~= seq![
        SpiOp::Write(zero_bytes(1 as nat)),
        SpiOp::Flush,
    ] + spi_part(chunk_writes(bits)) + seq![
        SpiOp::Write(zero_bytes(DETECT_ZEROS as nat)),
        SpiOp::Flush,
    ]);
}

/// Statelessness under retry: the operations a successful run issues are a
/// function of the bitstream alone, so two consecutive successful runs over
/// the same bitstream issue the identical operation sequence — the second
/// run's slice of the trace equals the first run's slice.
pub proof fn lemma_retry_identical(bits: Seq<u8>, trace0: Seq<Op>, trace1: Seq<Op>, trace2: Seq<Op>)
    requires
        trace1 == trace0 + success_ops(bits),
        trace2 == trace1 + success_ops(bits),
    ensures
        trace1.subrange(trace0.len() as int, trace1.len() as int) == trace2.subrange(
            trace1.len() as int,
            trace2.len() as int,
        ),
{
    assert(trace1.subrange(trace0.len() as int, trace1.len() as int) =~= success_ops(bits));
    assert(trace2.subrange(trace1.len() as int, trace2.len() as int) =~= success_ops(bits));
}

} // verus!
