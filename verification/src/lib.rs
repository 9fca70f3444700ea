//! Driver for loading a configuration bitstream into a Lattice iCE40 FPGA
//! over its SPI slave configuration interface.
//!
//! The driver owns four hardware capabilities — an SPI transfer channel, a
//! chip-select output line, a configuration-done input line and a reset
//! output line — and issues the vendor-prescribed sequence of reset pulses,
//! dummy clocks, bitstream writes and completion checks.  Every capability
//! records the operations driven through it, and the contracts of the driver
//! pin down the exact operation sequence of every run, successful or not.

pub mod device;
pub mod hal;
pub mod mock;
pub mod ops;
pub mod plan;

pub use device::Device;
pub use device::Error;
pub use hal::DelaySource;
pub use hal::InputLine;
pub use hal::OutputLine;
pub use hal::SpiWriter;
pub use mock::MockDelay;
pub use mock::MockFault;
pub use mock::MockInput;
pub use mock::MockOutput;
pub use mock::MockSpi;
pub use mock::SpiRec;
pub use ops::Op;
pub use ops::SpiOp;
