//! Deterministic pseudo-random hash over integer coordinates.
//!
//! The core is a five-round avalanche mix of one 32-bit value with a 32-bit
//! seed. Layered on top are coordinate linearizers (folding 2-4 coordinates
//! into one index), typed derivers (unsigned/signed 32- and 64-bit values,
//! range-bounded and capped integers), and a small stateful generator that
//! streams draws by auto-incrementing a position counter. Every output is a
//! pure function of (coordinate, seed); all arithmetic wraps silently.

pub mod mix;
pub mod noise;
pub mod rng;
pub mod rounding;

pub use mix::squirrel_noise5;
pub use noise::{
    i32_1d, i32_2d, i32_3d, i32_4d, i32_cap_1d, i32_cap_2d, i32_cap_3d, i32_cap_4d, i32_range_1d,
    i32_range_2d, i32_range_3d, i32_range_4d, i64_1d, i64_2d, i64_3d, i64_4d, u32_1d, u32_2d,
    u32_3d, u32_4d, u32_cap_1d, u32_cap_2d, u32_cap_3d, u32_cap_4d, u32_range_1d, u32_range_2d,
    u32_range_3d, u32_range_4d, u64_1d, u64_2d, u64_3d, u64_4d,
};
pub use rng::SquirrelRng;
