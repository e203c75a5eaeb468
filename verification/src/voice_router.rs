//! Acoustic occlusion materials and voice routing errors.
use vstd::prelude::*;

verus! {

/// Occluding material between a voice emitter and a listener.
#[derive(Debug, Clone, Copy, PartialEq, Eq, Structural)]
pub enum AcousticMaterial {
    /// Stone foundation or masonry (-24 dB transmission loss, 400 Hz cutoff).
    Stone,
    /// Timber or wooden paneling (-12 dB transmission loss, 800 Hz cutoff).
    Wood,
    /// Metal plating or reinforced iron (-26 dB transmission loss, 350 Hz cutoff).
    Metal,
    /// Open door frame, window or archway (-3 dB transmission loss, 3000 Hz cutoff).
    OpenOpening,
    /// Foliage, bushes or canopy (-1.5 dB transmission loss, 5000 Hz cutoff).
    Foliage,
}

impl AcousticMaterial {
    /// Low-pass cutoff frequency in Hz applied by the material.
    pub open spec fn spec_cutoff_frequency_hz(self) -> u16 {
        match self {
            AcousticMaterial::Stone => 400,
            AcousticMaterial::Wood => 800,
            AcousticMaterial::Metal => 350,
            AcousticMaterial::OpenOpening => 3000,
            AcousticMaterial::Foliage => 5000,
        }
    }

    /// Returns the low-pass cutoff frequency in Hz applied by this material.
    pub fn cutoff_frequency_hz(&self) -> (hz: u16)
        ensures
            hz == self.spec_cutoff_frequency_hz(),
    {
        match self {
            AcousticMaterial::Stone => 400,
            AcousticMaterial::Wood => 800,
            AcousticMaterial::Metal => 350,
            AcousticMaterial::OpenOpening => 3000,
            AcousticMaterial::Foliage => 5000,
        }
    }
}

/// Errors raised by the spatial voice router.
#[derive(Debug, Clone, Copy, PartialEq, Eq)]
pub enum VoiceError {
    /// Listener capacity reached.
    ListenerLimitReached,
    /// Emitter capacity reached.
    EmitterLimitReached,
    /// Listener identifier is unknown.
    ListenerNotFound,
    /// Emitter identifier is unknown.
    EmitterNotFound,
    /// A routing parameter is out of range.
    InvalidParameter(&'static str),
}

} // verus!
