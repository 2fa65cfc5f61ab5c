//! The error types of the drivers' interfaces.

use vstd::prelude::*;

verus! {

/// Errors of the Wi-Fi driver.
#[derive(Copy, Clone, Debug, PartialEq, Eq, Structural)]
pub enum Cyw43Error {
    /// The chip is not initialized (firmware not yet up).
    NotReady,
    /// A control-plane (SDPCM/CDC ioctl) transaction failed.
    IoctlFailed,
    /// The scan could not be started.
    ScanFailed,
    /// The requested scan-result index is out of range.
    InvalidIndex,
    /// The driver server died and restarted mid-call.
    ServerRestarted,
}

/// Errors of the real-time clock driver.
#[derive(Copy, Clone, Debug, PartialEq, Eq, Structural)]
pub enum Ds1302Error {
    /// A field in the packed time was out of range (e.g. hour > 23).
    BadArg,
}

/// Errors of the GPIO driver.
#[derive(Copy, Clone, Debug, PartialEq, Eq, Structural)]
pub enum GpioError {
    /// Pin number is out of the supported range (Bank 0, pins 0-31).
    InvalidPin,
}

/// Errors of the ADC driver.
#[derive(Copy, Clone, Debug, PartialEq, Eq, Structural)]
pub enum AdcError {
    /// No such channel.
    InvalidChannel,
}

/// Errors of the I2C driver.
#[derive(Copy, Clone, Debug, PartialEq, Eq, Structural)]
pub enum I2cError {
    /// The addressed device did not ACK (or aborted the transfer).
    Nak,
    /// The controller did not complete the transfer in time.
    Timeout,
}

/// Errors of the I2S driver.
#[derive(Copy, Clone, Debug, PartialEq, Eq, Structural)]
pub enum I2sError {
    /// Malformed argument (rate/frequency out of range).
    BadArg,
    /// The state machine did not drain its FIFO; the write was dropped.
    Stalled,
    /// No card or no such file.
    OpenFailed,
    /// The file is not a playable WAV/FLAC/MP3.
    BadFile,
    /// The file's sample rate is outside the DAC's 32-48 kHz window.
    BadRate,
    /// The server died or was restarted mid-call.
    ServerDied,
}

/// Errors of the PWM driver.
#[derive(Copy, Clone, Debug, PartialEq, Eq, Structural)]
pub enum PwmError {
    /// Slice > 11 or percent > 100.
    BadArg,
    /// The named file could not be opened.
    OpenFailed,
    /// The file is not a supported WAV.
    BadWav,
    /// The server died or was restarted mid-call.
    ServerDied,
}

/// Errors of the SD card driver.
#[derive(Copy, Clone, Debug, PartialEq, Eq, Structural)]
pub enum SdError {
    /// A step of the power-on init handshake failed.
    Init,
    /// A card operation did not complete within its bounded retry budget.
    Timeout,
    /// The card returned an unexpected command response (R1 error bits set).
    Cmd,
    /// The card returned a data error token instead of the start token.
    DataError,
    /// A block operation was attempted before a successful `init`.
    NotInitialized,
}

impl SdError {
    /// The number by which the interface reports the error.
    pub open spec fn number(self) -> u32 {
        match self {
            SdError::Init => 1,
            SdError::Timeout => 2,
            SdError::Cmd => 3,
            SdError::DataError => 4,
            SdError::NotInitialized => 5,
        }
    }

    /// The number by which the interface reports the error.
    pub fn code(self) -> (r: u32)
        ensures
            r == self.number(),
    {
        match self {
            SdError::Init => 1,
            SdError::Timeout => 2,
            SdError::Cmd => 3,
            SdError::DataError => 4,
            SdError::NotInitialized => 5,
        }
    }
}

/// Errors of the display driver.
#[derive(Copy, Clone, Debug, PartialEq, Eq, Structural)]
pub enum St7789Error {
    /// Coordinates/geometry out of range.
    BadArg,
    /// The server died or was restarted mid-call.
    ServerDied,
}

/// Errors of the addressable LED driver.
#[derive(Copy, Clone, Debug, PartialEq, Eq, Structural)]
pub enum Ws2812Error {
    /// Malformed argument.
    BadArg,
    /// The state machine did not drain its FIFO.
    Stalled,
}

/// Errors of the flash driver.
#[derive(Copy, Clone, Debug, PartialEq, Eq, Structural)]
pub enum FlashError {
    /// Outside the flash.
    BadAddress,
    /// Not aligned to a sector, or across a page boundary.
    BadAlignment,
    /// The chip stayed busy.
    Timeout,
}

/// Error of a block-device adapter.
#[derive(Copy, Clone, Debug, PartialEq, Eq, Structural)]
pub enum Error {
    /// A block read or write failed.
    Io,
}

} // verus!
