//! The vocabulary of observable operations that the driver performs on its
//! hardware capabilities, and the projection of an operation sequence onto
//! each individual capability.

use vstd::prelude::*;

verus! {

/// One observable operation issued by the driver: a level driven on the
/// reset or chip-select line, a blocking delay (in microseconds), an SPI
/// write or flush, or a read of the configuration-done line together with
/// the level that was observed.
pub enum Op {
    ResetLow,
    ResetHigh,
    SelectLow,
    SelectHigh,
    Delay(u32),
    Write(Seq<u8>),
    Flush,
    ReadDone(bool),
}

/// An operation as seen by the SPI channel alone.
pub enum SpiOp {
    Write(Seq<u8>),
    Flush,
}

/// True for operations that go over the SPI bus.
pub open spec fn is_spi_op(op: Op) -> bool {
    op is Write || op is Flush
}

/// True for operations on a GPIO line (output drives and the done-line read).
pub open spec fn is_line_op(op: Op) -> bool {
    op is ResetLow || op is ResetHigh || op is SelectLow || op is SelectHigh || op is ReadDone
}

/// What a single operation contributes to the SPI channel's history.
pub open spec fn spi_of(op: Op) -> Seq<SpiOp> {
    match op {
        Op::Write(data) => seq![SpiOp::Write(data)],
        Op::Flush => seq![SpiOp::Flush],
        _ => seq![],
    }
}

/// What a single operation contributes to the reset line's history of driven levels.
pub open spec fn reset_of(op: Op) -> Seq<bool> {
    match op {
        Op::ResetLow => seq![false],
        Op::ResetHigh => seq![true],
        _ => seq![],
    }
}

/// What a single operation contributes to the chip-select line's history of driven levels.
pub open spec fn select_of(op: Op) -> Seq<bool> {
    match op {
        Op::SelectLow => seq![false],
        Op::SelectHigh => seq![true],
        _ => seq![],
    }
}

/// What a single operation contributes to the history of levels observed on the done line.
pub open spec fn done_of(op: Op) -> Seq<bool> {
    match op {
        Op::ReadDone(level) => seq![level],
        _ => seq![],
    }
}

/// What a single operation contributes to the history of requested delays.
pub open spec fn delay_of(op: Op) -> Seq<u32> {
    match op {
        Op::Delay(us) => seq![us],
        _ => seq![],
    }
}

/// The SPI channel's view of an operation sequence.
pub open spec fn spi_part(ops: Seq<Op>) -> Seq<SpiOp>
    decreases ops.len(),
{
    if ops.len() == 0 {
        seq![]
    } else {
        spi_of(ops[0]) + spi_part(ops.drop_first())
    }
}

/// The reset line's view of an operation sequence.
pub open spec fn reset_part(ops: Seq<Op>) -> Seq<bool>
    decreases ops.len(),
{
    if ops.len() == 0 {
        seq![]
    } else {
        reset_of(ops[0]) + reset_part(ops.drop_first())
    }
}

/// The chip-select line's view of an operation sequence.
pub open spec fn select_part(ops: Seq<Op>) -> Seq<bool>
    decreases ops.len(),
{
    if ops.len() == 0 {
        seq![]
    } else {
        select_of(ops[0]) + select_part(ops.drop_first())
    }
}

/// The done line's view of an operation sequence.
pub open spec fn done_part(ops: Seq<Op>) -> Seq<bool>
    decreases ops.len(),
{
    if ops.len() == 0 {
        seq![]
    } else {
        done_of(ops[0]) + done_part(ops.drop_first())
    }
}

/// The delay provider's view of an operation sequence.
pub open spec fn delay_part(ops: Seq<Op>) -> Seq<u32>
    decreases ops.len(),
{
    if ops.len() == 0 {
        seq![]
    } else {
        delay_of(ops[0]) + delay_part(ops.drop_first())
    }
}

/// All five capability projections distribute over concatenation.
pub proof fn lemma_parts_add(a: Seq<Op>, b: Seq<Op>)
    ensures
        spi_part(a + b) == spi_part(a) + spi_part(b),
        reset_part(a + b) == reset_part(a) + reset_part(b),
        select_part(a + b) == select_part(a) + select_part(b),
        done_part(a + b) == done_part(a) + done_part(b),
        delay_part(a + b) == delay_part(a) + delay_part(b),
    decreases a.len(),
{
    if a.len() == 0 {
        assert(a + b =~= b);
        assert(spi_part(a + b) =~= spi_part(a) + spi_part(b));
        assert(reset_part(a + b) =~= reset_part(a) + reset_part(b));
        assert(select_part(a + b) =~= select_part(a) + select_part(b));
        assert(done_part(a + b) =~= done_part(a) + done_part(b));
        assert(delay_part(a + b) =~= delay_part(a) + delay_part(b));
    } else {
        lemma_parts_add(a.drop_first(), b);
        assert((a + b).drop_first() =~= a.drop_first() + b);
        assert((a + b)[0] == a[0]);
        assert(spi_part(a + b) =~= spi_part(a) + spi_part(b));
        assert(reset_part(a + b) =~= reset_part(a) + reset_part(b));
        assert(select_part(a + b) =~= select_part(a) + select_part(b));
        assert(done_part(a + b) =~= done_part(a) + done_part(b));
        assert(delay_part(a + b) =~= delay_part(a) + delay_part(b));
    }
}

/// On a single operation, each projection yields exactly that operation's contribution.
pub proof fn lemma_parts_one(op: Op)
    ensures
        spi_part(seq![op]) == spi_of(op),
        reset_part(seq![op]) == reset_of(op),
        select_part(seq![op]) == select_of(op),
        done_part(seq![op]) == done_of(op),
        delay_part(seq![op]) == delay_of(op),
{
    reveal_with_fuel(spi_part, 2);
    reveal_with_fuel(reset_part, 2);
    reveal_with_fuel(select_part, 2);
    reveal_with_fuel(done_part, 2);
    reveal_with_fuel(delay_part, 2);
    assert(seq![op].drop_first() =~= Seq::<Op>::empty());
    assert(spi_part(seq![op]) =~= spi_of(op));
    assert(reset_part(seq![op]) =~= reset_of(op));
    assert(select_part(seq![op]) =~= select_of(op));
    assert(done_part(seq![op]) =~= done_of(op));
    assert(delay_part(seq![op]) =~= delay_of(op));
}

/// Extending a prefix of an operation sequence by its next element extends each
/// projection by that element's contribution.
pub proof fn lemma_parts_take_succ(ops: Seq<Op>, k: int)
    requires
        0 <= k < ops.len(),
    ensures
        ops.take(k + 1) == ops.take(k).push(ops[k]),
        spi_part(ops.take(k + 1)) == spi_part(ops.take(k)) + spi_of(ops[k]),
        reset_part(ops.take(k + 1)) == reset_part(ops.take(k)) + reset_of(ops[k]),
        select_part(ops.take(k + 1)) == select_part(ops.take(k)) + select_of(ops[k]),
        done_part(ops.take(k + 1)) == done_part(ops.take(k)) + done_of(ops[k]),
        delay_part(ops.take(k + 1)) == delay_part(ops.take(k)) + delay_of(ops[k]),
{
    assert(ops.take(k + 1) =~= ops.take(k).push(ops[k]));
    assert(ops.take(k + 1) =~= ops.take(k) + seq![ops[k]]);
    lemma_parts_add(ops.take(k), seq![ops[k]]);
    lemma_parts_one(ops[k]);
}

} // verus!
