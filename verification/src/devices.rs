//! Small device-facing pieces: the audio codec driver's handle, an SPI
//! device adapter and a delay that works in whole milliseconds.
use vstd::prelude::*;

verus! {

/// A failure of the audio codec driver. No function of this library makes
/// one, and none can be made outside it: creating the driver cannot fail.
#[derive(Debug)]
pub struct DriverError {
    cannot_occur: (),
}

/// The VS1053 audio codec: its SPI device, its two chip selects and its
/// data-request line.
pub struct Vs1053Driver<SPI, MP3CS, XDCS, DREQ> {
    pub spi: SPI,
    pub mp3cs: MP3CS,
    pub xdcs: XDCS,
    pub dreq: DREQ,
}

impl<SPI, MP3CS, XDCS, DREQ> Vs1053Driver<SPI, MP3CS, XDCS, DREQ> {
    /// A driver over the given device and lines; this always succeeds.
    pub fn new(spi: SPI, mp3cs: MP3CS, xdcs: XDCS, dreq: DREQ) -> (r: Result<Self, DriverError>)
        ensures
            r matches Ok(d) && d.spi == spi && d.mp3cs == mp3cs && d.xdcs == xdcs && d.dreq == dreq,
    {
        Ok(Vs1053Driver { spi, mp3cs, xdcs, dreq })
    }
}

/// Wraps an SPI device so that it can be handed on as another SPI device.
pub struct SpiDeviceAdapter<T> {
    wrapped: T,
}

impl<T> SpiDeviceAdapter<T> {
    /// The wrapped device.
    pub closed spec fn inner(&self) -> T {
        self.wrapped
    }

    /// Wraps `wrapped`.
    pub fn new(wrapped: T) -> (r: Self)
        ensures
            r.inner() == wrapped,
    {
        Self { wrapped }
    }

    /// The wrapped device, for the operations that are passed on to it.
    pub fn wrapped(&mut self) -> (r: &mut T)
        ensures
            *r == old(self).inner(),
            final(self).inner() == *final(r),
    {
        &mut self.wrapped
    }
}

/// A delay that waits whole milliseconds.
pub struct AsyncDelay;

impl AsyncDelay {
    /// The delay.
    pub fn new() -> (r: Self) {
        AsyncDelay
    }

    /// The whole milliseconds waited for a delay of `ns` nanoseconds: the
    /// nanoseconds divided by a million, rounded up, so that the wait is at
    /// least `ns` nanoseconds and less than a millisecond more.
    pub fn millis_for_ns(ns: u32) -> (ms: u64)
        ensures
            ms == (ns + 999_999) / 1_000_000,
            ms * 1_000_000 >= ns,
            ms * 1_000_000 < ns + 1_000_000,
    {
        let ms = (ns as u64 + 999_999) / 1_000_000;
        assert(ms * 1_000_000 >= ns && ms * 1_000_000 < ns + 1_000_000) by (nonlinear_arith)
            requires
                ms == (ns + 999_999) / 1_000_000,
        ;
        ms
    }
}

} // verus!
