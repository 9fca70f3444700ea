use ice40::Device;
use ice40::MockDelay;
use ice40::MockInput;
use ice40::MockOutput;
use ice40::MockSpi;
use ice40::SpiRec;
use ice40::Error;

#[test]
fn configure_success_sequence() {
    let bits = [0xAAu8, 0x55, 0x0F];
    let mut device = Device::new(
        MockSpi::new(),
        MockOutput::new(),
        MockInput::reading(true),
        MockOutput::new(),
    );
    let mut delay = MockDelay::new();
    let r = device.configure(&mut delay, &bits);
    assert!(r.is_ok());
    let (spi, ss, done, reset) = device.release();
    assert_eq!(reset.driven, vec![false, true]);
    assert_eq!(ss.driven, vec![false, true, false]);
    assert_eq!(done.seen, vec![true]);
    assert!(delay.requested[0] >= 1);
    assert!(delay.requested[1] >= 1200);
    assert_eq!(delay.requested, vec![1, 1200]);
    assert_eq!(
        spi.ops,
        vec![
            SpiRec::Write(vec![0]),
            SpiRec::Flush,
            SpiRec::Write(vec![0xAA, 0x55, 0x0F]),
            SpiRec::Write(vec![0; 13]),
            SpiRec::Flush,
            SpiRec::Write(vec![0; 7]),
            SpiRec::Flush,
        ]
    );
}

#[test]
fn configure_reports_failure_when_done_low() {
    let bits = [0xAAu8, 0x55, 0x0F];
    let mut device = Device::new(
        MockSpi::new(),
        MockOutput::new(),
        MockInput::reading(false),
        MockOutput::new(),
    );
    let mut delay = MockDelay::new();
    let r = device.configure(&mut delay, &bits);
    assert!(matches!(r, Err(Error::ConfigurationFailed)));
    let (spi, ss, done, reset) = device.release();
    // The run stops right after the low done read: the seven-byte
    // activation write is never issued.
    assert_eq!(done.seen, vec![false]);
    assert_eq!(
        spi.ops,
        vec![
            SpiRec::Write(vec![0]),
            SpiRec::Flush,
            SpiRec::Write(vec![0xAA, 0x55, 0x0F]),
            SpiRec::Write(vec![0; 13]),
            SpiRec::Flush,
        ]
    );
    assert_eq!(reset.driven, vec![false, true]);
    assert_eq!(ss.driven, vec![false, true, false]);
    assert_eq!(delay.requested, vec![1, 1200]);
}

#[test]
fn empty_bitstream_issues_no_chunk_writes() {
    let bits: [u8; 0] = [];
    let mut device = Device::new(
        MockSpi::new(),
        MockOutput::new(),
        MockInput::reading(true),
        MockOutput::new(),
    );
    let mut delay = MockDelay::new();
    let r = device.configure(&mut delay, &bits);
    assert!(r.is_ok());
    let (spi, _, _, _) = device.release();
    assert_eq!(
        spi.ops,
        vec![
            SpiRec::Write(vec![0]),
            SpiRec::Flush,
            SpiRec::Write(vec![0; 13]),
            SpiRec::Flush,
            SpiRec::Write(vec![0; 7]),
            SpiRec::Flush,
        ]
    );
}

#[test]
fn exact_chunk_boundary_single_write() {
    let bits: Vec<u8> = (0..1024u32).map(|i| (i % 256) as u8).collect();
    let mut device = Device::new(
        MockSpi::new(),
        MockOutput::new(),
        MockInput::reading(true),
        MockOutput::new(),
    );
    let mut delay = MockDelay::new();
    let r = device.configure(&mut delay, &bits);
    assert!(r.is_ok());
    let (spi, _, _, _) = device.release();
    // Exactly one chunk write, carrying the whole bitstream.
    assert_eq!(spi.ops.len(), 7);
    assert_eq!(spi.ops[2], SpiRec::Write(bits));
}

#[test]
fn chunking_splits_large_bitstream_in_order() {
    let bits: Vec<u8> = (0..2500u32).map(|i| (i % 251) as u8).collect();
    let mut device = Device::new(
        MockSpi::new(),
        MockOutput::new(),
        MockInput::reading(true),
        MockOutput::new(),
    );
    let mut delay = MockDelay::new();
    let r = device.configure(&mut delay, &bits);
    assert!(r.is_ok());
    let (spi, _, _, _) = device.release();
    // One write per chunk of at most 1024 bytes: 1024 + 1024 + 452.
    assert_eq!(spi.ops.len(), 9);
    let mut reassembled: Vec<u8> = Vec::new();
    let mut sizes: Vec<usize> = Vec::new();
    for op in &spi.ops[2..5] {
        match op {
            SpiRec::Write(data) => {
                sizes.push(data.len());
                reassembled.extend_from_slice(data);
            }
            SpiRec::Flush => panic!("unexpected flush between bitstream chunks"),
        }
    }
    assert_eq!(sizes, vec![1024, 1024, 452]);
    // No byte reordered, dropped or duplicated.
    assert_eq!(reassembled, bits);
    assert_eq!(spi.ops[5], SpiRec::Write(vec![0; 13]));
}

#[test]
fn retry_reissues_identical_sequence() {
    let bits = [0x12u8, 0x34, 0x56, 0x78];
    let mut device = Device::new(
        MockSpi::new(),
        MockOutput::new(),
        MockInput::reading(true),
        MockOutput::new(),
    );
    let mut delay = MockDelay::new();
    assert!(device.configure(&mut delay, &bits).is_ok());
    assert!(device.configure(&mut delay, &bits).is_ok());
    let (spi, ss, done, reset) = device.release();
    // The second run issued exactly the same operations as the first.
    assert_eq!(spi.ops.len(), 14);
    assert_eq!(&spi.ops[..7], &spi.ops[7..]);
    assert_eq!(reset.driven, vec![false, true, false, true]);
    assert_eq!(ss.driven, vec![false, true, false, false, true, false]);
    assert_eq!(done.seen, vec![true, true]);
    assert_eq!(delay.requested, vec![1, 1200, 1, 1200]);
}

#[test]
fn release_returns_capabilities_untouched() {
    let spi = MockSpi::new();
    let ss = MockOutput {
        driven: vec![true],
        ok_calls_left: None,
    };
    let done = MockInput::reading(true);
    let reset = MockOutput::new();
    let device = Device::new(spi, ss, done, reset);
    let (spi, ss, done, reset) = device.release();
    assert!(spi.ops.is_empty());
    assert_eq!(ss.driven, vec![true]);
    assert!(done.seen.is_empty());
    assert!(reset.driven.is_empty());
}

#[test]
fn chunk_boundary_plus_one_splits_in_two() {
    let bits: Vec<u8> = (0..1025u32).map(|i| (i % 256) as u8).collect();
    let mut device = Device::new(
        MockSpi::new(),
        MockOutput::new(),
        MockInput::reading(true),
        MockOutput::new(),
    );
    let mut delay = MockDelay::new();
    let r = device.configure(&mut delay, &bits);
    assert!(r.is_ok());
    let (spi, _, _, _) = device.release();
    assert_eq!(spi.ops.len(), 8);
    assert_eq!(spi.ops[2], SpiRec::Write(bits[..1024].to_vec()));
    assert_eq!(spi.ops[3], SpiRec::Write(vec![bits[1024]]));
}
