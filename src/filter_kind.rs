//! Kinds of filter response and of window, as chosen for the modem's filters.
use vstd::prelude::*;

verus! {

/// Window applied to a windowed-sinc filter kernel.
#[derive(Clone, Copy, Debug, PartialEq, Eq, Hash, Structural)]
pub enum Window {
    Rectangular,
    Bartlett,
    Hann,
    Hamming,
    Blackman,
    Nuttall,
    BlackmanNuttall,
    BlackmanHarris,
}

/// Which band a filter passes.
#[derive(Clone, Copy, Debug, PartialEq, Eq, Hash, Structural)]
pub enum FilterType {
    LowPass,
    HighPass,
    BandPass,
    BandStop,
}

impl FilterType {
    /// Whether this filter is defined by a band: band-pass or band-stop.
    pub fn is_band(self) -> (r: bool)
        ensures
            r == (self == FilterType::BandPass || self == FilterType::BandStop),
    {
        match self {
            FilterType::BandPass | FilterType::BandStop => true,
            FilterType::LowPass | FilterType::HighPass => false,
        }
    }

    /// Whether this is a band-pass filter.
    pub fn is_band_pass(self) -> (r: bool)
        ensures
            r == (self == FilterType::BandPass),
    {
        match self {
            FilterType::BandPass => true,
            _ => false,
        }
    }

    /// Whether this is a high-pass filter.
    pub fn is_high_pass(self) -> (r: bool)
        ensures
            r == (self == FilterType::HighPass),
    {
        match self {
            FilterType::HighPass => true,
            _ => false,
        }
    }

    /// Whether this is a low-pass filter.
    pub fn is_low_pass(self) -> (r: bool)
        ensures
            r == (self == FilterType::LowPass),
    {
        match self {
            FilterType::LowPass => true,
            _ => false,
        }
    }
}

} // verus!
