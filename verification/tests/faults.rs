use ice40::Device;
use ice40::MockDelay;
use ice40::MockInput;
use ice40::MockOutput;
use ice40::MockSpi;
use ice40::SpiRec;
use ice40::Error;

#[test]
fn reset_failure_stops_run_immediately() {
    let bits = [0xAAu8, 0x55];
    let mut device = Device::new(
        MockSpi::new(),
        MockOutput::new(),
        MockInput::reading(true),
        MockOutput::failing_after(0),
    );
    let mut delay = MockDelay::new();
    let r = device.configure(&mut delay, &bits);
    assert!(matches!(r, Err(Error::IoErr(_))));
    let (spi, ss, done, reset) = device.release();
    assert!(reset.driven.is_empty());
    assert!(ss.driven.is_empty());
    assert!(spi.ops.is_empty());
    assert!(done.seen.is_empty());
    assert!(delay.requested.is_empty());
}

#[test]
fn select_failure_stops_run_after_reset() {
    let bits = [0xAAu8, 0x55];
    let mut device = Device::new(
        MockSpi::new(),
        MockOutput::failing_after(0),
        MockInput::reading(true),
        MockOutput::new(),
    );
    let mut delay = MockDelay::new();
    let r = device.configure(&mut delay, &bits);
    assert!(matches!(r, Err(Error::IoErr(_))));
    let (spi, ss, done, reset) = device.release();
    assert_eq!(reset.driven, vec![false]);
    assert!(ss.driven.is_empty());
    assert!(spi.ops.is_empty());
    assert!(done.seen.is_empty());
    assert!(delay.requested.is_empty());
}

#[test]
fn select_reassert_failure_stops_run_before_transfer() {
    let bits = [0xAAu8, 0x55];
    let mut device = Device::new(
        MockSpi::new(),
        MockOutput::failing_after(2),
        MockInput::reading(true),
        MockOutput::new(),
    );
    let mut delay = MockDelay::new();
    let r = device.configure(&mut delay, &bits);
    assert!(matches!(r, Err(Error::IoErr(_))));
    let (spi, ss, done, reset) = device.release();
    // The chip-select line failed on its third drive, after the dummy
    // clocks: the bitstream itself was never sent.
    assert_eq!(reset.driven, vec![false, true]);
    assert_eq!(ss.driven, vec![false, true]);
    assert_eq!(spi.ops, vec![SpiRec::Write(vec![0]), SpiRec::Flush]);
    assert!(done.seen.is_empty());
    assert_eq!(delay.requested, vec![1, 1200]);
}

#[test]
fn bus_failure_on_dummy_write_stops_run() {
    let bits = [0xAAu8, 0x55];
    let mut device = Device::new(
        MockSpi::failing_after(0),
        MockOutput::new(),
        MockInput::reading(true),
        MockOutput::new(),
    );
    let mut delay = MockDelay::new();
    let r = device.configure(&mut delay, &bits);
    assert!(matches!(r, Err(Error::BusError(_))));
    let (spi, ss, done, reset) = device.release();
    assert_eq!(reset.driven, vec![false, true]);
    assert_eq!(ss.driven, vec![false, true]);
    assert!(spi.ops.is_empty());
    assert!(done.seen.is_empty());
    assert_eq!(delay.requested, vec![1, 1200]);
}

#[test]
fn bus_failure_mid_bitstream_stops_run() {
    let bits: Vec<u8> = (0..2048u32).map(|i| (i % 253) as u8).collect();
    let mut device = Device::new(
        MockSpi::failing_after(3),
        MockOutput::new(),
        MockInput::reading(true),
        MockOutput::new(),
    );
    let mut delay = MockDelay::new();
    let r = device.configure(&mut delay, &bits);
    assert!(matches!(r, Err(Error::BusError(_))));
    let (spi, _, done, _) = device.release();
    // The dummy write, its flush and the first chunk went through; the
    // second chunk failed and nothing was issued after it.
    assert_eq!(spi.ops.len(), 3);
    assert_eq!(spi.ops[0], SpiRec::Write(vec![0]));
    assert_eq!(spi.ops[1], SpiRec::Flush);
    assert_eq!(spi.ops[2], SpiRec::Write(bits[..1024].to_vec()));
    assert!(done.seen.is_empty());
}

#[test]
fn done_read_failure_stops_run_before_activation() {
    let bits = [0xAAu8, 0x55];
    let mut device = Device::new(
        MockSpi::new(),
        MockOutput::new(),
        MockInput::failing(),
        MockOutput::new(),
    );
    let mut delay = MockDelay::new();
    let r = device.configure(&mut delay, &bits);
    assert!(matches!(r, Err(Error::IoErr(_))));
    let (spi, ss, done, reset) = device.release();
    assert!(done.seen.is_empty());
    // Everything up to and including the trailing clocks was issued, and
    // the activation write never was.
    assert_eq!(
        spi.ops,
        vec![
            SpiRec::Write(vec![0]),
            SpiRec::Flush,
            SpiRec::Write(vec![0xAA, 0x55]),
            SpiRec::Write(vec![0; 13]),
            SpiRec::Flush,
        ]
    );
    assert_eq!(reset.driven, vec![false, true]);
    assert_eq!(ss.driven, vec![false, true, false]);
}

#[test]
fn activation_write_failure_reports_bus_error() {
    let bits = [0xAAu8];
    // Five successful bus calls: dummy write, flush, one chunk, trailing
    // clocks, flush.  The activation write is the sixth and fails.
    let mut device = Device::new(
        MockSpi::failing_after(5),
        MockOutput::new(),
        MockInput::reading(true),
        MockOutput::new(),
    );
    let mut delay = MockDelay::new();
    let r = device.configure(&mut delay, &bits);
    assert!(matches!(r, Err(Error::BusError(_))));
    let (spi, _, done, _) = device.release();
    assert_eq!(done.seen, vec![true]);
    assert_eq!(spi.ops.len(), 5);
    assert_eq!(spi.ops[4], SpiRec::Flush);
}
