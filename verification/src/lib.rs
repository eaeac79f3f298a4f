//! An 8-bit minifloat: one sign bit, a 3-bit biased exponent and a 4-bit
//! significand packed into a single byte, with saturating arithmetic and
//! exact or lossy conversion paths from a decoded wider float.

pub mod f8;
