//! Translator between two quantum-chemistry program conventions.
//!
//! The crate reads a driver's fixed-format calculation request, the loose
//! text files a quantum-chemistry engine leaves behind (an energy line in a
//! log, whitespace-separated field and Hessian values), and re-emits those
//! results in the fixed-width text layout the driver expects back.
//!
//! All text is handled as raw ASCII bytes (`Vec<u8>`), and every numeric
//! value travels through the crate as a validated byte token.  Parsing a
//! token to a machine float, scaling it by the unit-conversion factor and
//! rendering it with twelve fractional digits are floating-point steps that
//! the verifier does not cover; they belong to the thin unverified shell
//! around this library.  Everything else — tokenization, the request
//! grammar, the energy-line scan, the triangular Hessian reindexing and the
//! fixed-width output grammar — is specified and proved here.

pub mod energy;
pub mod errors;
pub mod hessian;
pub mod numbers;
pub mod pipeline;
pub mod request;
pub mod text;
pub mod writer;

pub use energy::extract_energy;
pub use errors::TranslateError;
pub use hessian::reindex_hessian;
pub use numbers::{parse_float_tokens, parse_nums_from_str};
pub use pipeline::{prepare_translation, TranslationPlan};
pub use request::{parse_gau_ein, Calculation, CoordTriple};
pub use text::{split_lines_exec, split_whitespace_tokens, trim_bytes};
pub use writer::{assemble_output, pad_field, zero_field};
