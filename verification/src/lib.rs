//! ATRAC3 bitstream, sound-unit, container and tonal-layout logic, verified with Verus.

pub mod bitstream;
pub mod container;
pub mod encoding;
pub mod error;
pub mod gain;
pub mod inspect;
pub mod laws;
pub mod mdct;
pub mod oracle;
pub mod prototype;
pub mod quant;
pub mod quant_sony;
pub mod quant_tonal;
pub mod settings;
pub mod sony_lb;
pub mod sound_unit;
pub mod text;
