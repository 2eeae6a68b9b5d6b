//! Self-describing fuzz-input envelopes for a generated, sectioned binary
//! module format.
//!
//! A generative fuzzer turns raw seed bytes into a binary module. Because the
//! mapping from seed to module drifts as the generator evolves, a stored seed
//! loses its meaning over time. The envelope scheme here couples a generated
//! module with the exact seed bytes that produced it, by appending one custom
//! section with a reserved name to the module. The execution pipeline detects
//! such envelopes and prefers the stored module over a freshly generated one;
//! the mutation pipeline strips an envelope down to its seed before mutating
//! and re-wraps the mutated seed when the result fits.

pub mod codec;
pub mod pipeline;

pub use codec::{encode_module, extract_fuzz_input, FuzzInput, NotEnveloped};
pub use pipeline::{
    apply_envelope, de_envelope, execute, final_validity, mutate, select_module, Harness,
    KnownValid, MutateHarness,
};
