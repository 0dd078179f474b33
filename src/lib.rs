//! Cross-table-lookup orchestration for a Keccak-256 STARK: the table order,
//! the lookup column descriptors, the limb packing between the sponge and the
//! permutation table, the transcript binding of the trace commitments, the
//! proving schedule, and the global grand-product check of the verifier.
pub mod error;
pub mod table;
pub mod packing;
pub mod field;
pub mod column;
pub mod keccak_permutation;
pub mod cross_table_lookup;
pub mod challenges;
pub mod ctl_data;
pub mod grand_product;
pub mod verifier_ctl;
pub mod prover_ctl;

pub use crate::error::CtlError;
pub use crate::keccak_permutation::{ctl_data, ctl_filter};
pub use crate::packing::u32_to_u64_reverse;
pub use crate::table::{Table, NUM_TABLES};
pub use crate::verifier_ctl::verify_proof;
