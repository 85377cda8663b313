//! Driver core for a serial-attached bit-banging bus adapter.
//!
//! The adapter speaks I2C and 1-Wire over a single UART link. This crate
//! holds the protocol logic: the mode state machine, binary framing for
//! bulk transfers, and the scratchpad/verify/copy algorithm for paged
//! EEPROM writes. The raw byte transport is an external collaborator,
//! reached only through the [`transport::Transport`] interface.

pub mod bitbang;
pub mod codec;
pub mod i2c;
pub mod onewire;
pub mod transport;

pub use bitbang::enter_bitbang_mode;
pub use bitbang::BitBangMode;
pub use bitbang::Config;
pub use bitbang::DeviceAddress;
pub use bitbang::Eeprom;
pub use bitbang::Error;
pub use bitbang::Mode;
pub use i2c::Ack;
pub use i2c::I2C;
pub use onewire::OneWire;
pub use transport::Delay;
pub use transport::SimTransport;
pub use transport::Transport;
pub use transport::TransportError;
pub use transport::TransportModel;
