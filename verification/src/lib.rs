//! Verified core of a vector-quantization library: seeded deterministic
//! draws, packed binary codes, product-quantization code layout and the
//! input-validation rules shared by every quantizer.

pub mod binary;
pub mod code;
pub mod error;
pub mod metric;
pub mod product;
pub mod rng;
pub mod validate;

pub use crate::code::{BqCode, PqCode, Sq8Code};
pub use crate::error::{ConfigReason, QuantizeError, Scheme};
pub use crate::metric::Metric;
pub use crate::product::{PqConfig, PqLayout};
pub use crate::rng::SplitMix64;
pub use crate::validate::VectorShape;
