//! Execution and mutation pipelines around the envelope codec.
//!
//! Both pipelines work with collaborators supplied by the embedding fuzz
//! harness: a seed-to-configuration decoder, a module generator, the fuzz
//! target itself and the engine's base byte mutator. They are modelled as
//! traits that the harness implements; this crate states nothing about what
//! the collaborators compute, except for the base mutator's size contract,
//! which the engine guarantees.

use crate::codec::{
    encode_module, extract_bounds, extract_fuzz_input, is_well_formed, spec_encode, spec_extract,
};
use vstd::prelude::*;

verus! {

/// Whether a module is known to be well-formed under the current generator's
/// guarantees.
#[derive(Debug, Clone, Copy, PartialEq, Eq, Structural)]
pub enum KnownValid {
    /// The module is known to be valid, so the target may assert that, for
    /// example, compilation succeeds.
    Yes,
    /// No such guarantee holds: the module may have come from an envelope
    /// written under a different, possibly stale, generator.
    No,
}

/// Collaborators of the execution pipeline, implemented by the embedding
/// fuzz harness. The harness owns the cursor over the working seed: it
/// builds the cursor in `decode_config` and consumes more of it in
/// `gen_module`.
pub trait Harness<'a> {
    /// The configuration decoded from the front of the seed.
    type Config;

    /// What one execution of the fuzz target returns.
    type Output;

    /// The collaborators' shared error type.
    type Error;

    /// Build the cursor over the working seed and decode a configuration
    /// from it. A failure is fatal for the current call: there is then no
    /// module to run.
    fn decode_config(&mut self, seed: &'a [u8]) -> Result<Self::Config, Self::Error>;

    /// Generate a module from the configuration and the rest of the cursor,
    /// together with the validity guarantee the generator gives for it. A
    /// failure is fatal for the current call.
    fn gen_module(&mut self, config: &mut Self::Config) -> Result<
        (Vec<u8>, KnownValid),
        Self::Error,
    >;

    /// Whether a diagnostic snapshot of the enveloped input is wanted for
    /// this call.
    fn wants_snapshot(&self) -> bool;

    /// Receive the snapshot: the chosen module enveloped with the working
    /// seed.
    fn snapshot(&mut self, envelope: &[u8]);

    /// Execute the fuzz target. Its result, failure included, is the reason
    /// the pipeline runs and is returned untouched.
    fn run(&mut self, module: &[u8], validity: KnownValid, config: Self::Config) -> Result<
        Self::Output,
        Self::Error,
    >;
}

/// Collaborators of the mutation pipeline, implemented by the embedding
/// fuzz harness.
pub trait MutateHarness {
    /// Decode a configuration from the seed and generate a module from it,
    /// in one step; `None` when either part fails. The failure is swallowed
    /// by `mutate`: the corpus entry then stays a bare seed.
    fn try_generate(&mut self, seed: &[u8]) -> Option<(Vec<u8>, KnownValid)>;

    /// The engine's base byte mutator: it may grow, shrink or rearrange the
    /// first `size` bytes within the buffer, and returns the new size. The
    /// engine guarantees that the result stays within `max_size` and that
    /// the buffer keeps its length.
    fn base_mutate(&mut self, data: &mut Vec<u8>, size: usize, max_size: usize) -> (r: usize)
        requires
            size <= max_size,
            max_size <= old(data)@.len(),
        ensures
            final(data)@.len() == old(data)@.len(),
            r <= max_size,
    ;
}

/// The validity finally reported for the executed module: `No` whenever the
/// module was taken out of an envelope, whatever the generator reported.
pub open spec fn spec_final_validity(from_envelope: bool, generated: KnownValid) -> KnownValid {
    if from_envelope {
        KnownValid::No
    } else {
        generated
    }
}

/// Choose the validity to report: an enveloped module carries no guarantee
/// from the current generator, so it is never reported valid.
pub fn final_validity(from_envelope: bool, generated: KnownValid) -> (r: KnownValid)
    ensures
        r == spec_final_validity(from_envelope, generated),
{
    if from_envelope {
        KnownValid::No
    } else {
        generated
    }
}

/// Choose the module to execute: the one found in the envelope when there
/// was one, else the freshly generated one.
pub fn select_module<'a>(module_in_input: Option<&'a [u8]>, generated: &'a [u8]) -> (r: &'a [u8])
    ensures
        match module_in_input {
            Some(m) => r@ == m@,
            None => r@ == generated@,
        },
{
    match module_in_input {
        Some(m) => m,
        None => generated,
    }
}

/// Drift resilience: enveloping a well-formed module `m` with the seed `s`
/// that once produced it, then running the execution pipeline over the
/// envelope, yields `m` unchanged and validity `No` — whatever module
/// `generated` and validity `generated_validity` the current generator would
/// derive from `s` today.
pub proof fn lemma_drift_resilience(
    m: Seq<u8>,
    s: Seq<u8>,
    generated: Seq<u8>,
    generated_validity: KnownValid,
)
    requires
        is_well_formed(m),
        s.len() + 20 < 0x1_0000_0000,
    ensures
        ({
            let extracted = spec_extract(spec_encode(m, s));
            &&& extracted == Some((m, s))
            &&& match extracted {
                Some((module_in_input, seed)) => module_in_input == m && seed == s,
                None => false,
            }
            &&& spec_final_validity(extracted is Some, generated_validity) == KnownValid::No
        }),
{
    crate::codec::lemma_round_trip(m, s);
}

/// Execute one raw fuzz input.
///
/// When the input decodes as an envelope, the working seed is the envelope's
/// payload and the module to execute is the one stored in the envelope;
/// otherwise the whole input is the seed and the module is freshly
/// generated. Either way the configuration is decoded and the generator is
/// run, so that a failure of either aborts the call exactly as it would for
/// a bare seed. The module choice and the reported validity follow the
/// contracts of `select_module` and `final_validity`; what the call returns
/// is decided by the harness's `run` and is passed through untouched.
pub fn execute<'a, H: Harness<'a>>(input: &'a [u8], harness: &mut H) -> (r: Result<
    H::Output,
    H::Error,
>) {
    let (fuzz_data, module_in_input): (&'a [u8], Option<&'a [u8]>) = match extract_fuzz_input(
        input,
    ) {
        Ok(f) => (f.fuzz_data, Some(f.module)),
        Err(_) => (input, None),
    };
    let mut config = match harness.decode_config(fuzz_data) {
        Ok(c) => c,
        Err(e) => {
            return Err(e);
        },
    };
    let (generated, generated_validity) = match harness.gen_module(&mut config) {
        Ok(g) => g,
        Err(e) => {
            return Err(e);
        },
    };
    let module = select_module(module_in_input, generated.as_slice());
    if harness.wants_snapshot() {
        // The seed's length is far below the section-size limit for every
        // input an engine can hand in; the check keeps the encoder total.
        if (fuzz_data.len() as u64) < 0x1_0000_0000u64 - 20 {
            let envelope = encode_module(module, fuzz_data);
            harness.snapshot(envelope.as_slice());
        }
    }
    let validity = final_validity(module_in_input.is_some(), generated_validity);
    harness.run(module, validity, config)
}

/// Strip an envelope down to its seed, in place: when `data[0 .. size]`
/// decodes as an envelope, shift the seed bytes to the front of the buffer
/// and return the seed's length; otherwise leave the buffer untouched and
/// return `size`. The shift copies forward, so the overlapping source and
/// destination ranges are safe.
pub fn de_envelope(data: &mut Vec<u8>, size: usize) -> (r: usize)
    requires
        size <= old(data)@.len(),
    ensures
        final(data)@.len() == old(data)@.len(),
        r <= size,
        match spec_extract(old(data)@.take(size as int)) {
            Some((module, seed)) => r == seed.len() && final(data)@.take(r as int) == seed,
            None => r == size && final(data)@ == old(data)@,
        },
{
    let bounds = extract_bounds(vstd::slice::slice_subrange(data.as_slice(), 0, size));
    match bounds {
        None => size,
        Some((_module_end, lo, hi)) => {
            let n = hi - lo;
            let mut i: usize = 0;
            while i < n
                invariant
                    i <= n,
                    lo + n <= size <= data@.len(),
                    data@.len() == old(data)@.len(),
                    n == hi - lo,
                    forall|k: int| i <= k < data@.len() ==> data@[k] == old(data)@[k],
                    forall|k: int| 0 <= k < i ==> data@[k] == old(data)@[lo + k],
                decreases n - i,
            {
                let b = data[lo + i];
                data[i] = b;
                i += 1;
            }
            proof {
                let prefix = old(data)@.take(size as int);
                match spec_extract(prefix) {
                    Some((module, seed)) => {
                        assert(seed == prefix.subrange(lo as int, hi as int));
                        assert(data@.take(n as int) =~= seed);
                    },
                    None => {},
                }
            }
            n
        },
    }
}

/// Re-wrap a mutated seed: envelope the generated `module` with the seed
/// `data[0 .. new_size]` and, when the envelope fits strictly below
/// `max_size`, overwrite the front of the buffer with it and return its
/// length. An envelope that does not fit is never written, not even
/// partially — a truncated envelope could silently corrupt the section's
/// claimed length — and `new_size` is returned with the buffer untouched.
pub fn apply_envelope(data: &mut Vec<u8>, new_size: usize, max_size: usize, module: &[u8]) -> (r:
    usize)
    requires
        new_size <= max_size,
        max_size <= old(data)@.len(),
        new_size + 20 < 0x1_0000_0000,
    ensures
        final(data)@.len() == old(data)@.len(),
        ({
            let envelope = spec_encode(module@, old(data)@.take(new_size as int));
            if envelope.len() < max_size {
                &&& r == envelope.len()
                &&& final(data)@.take(r as int) == envelope
                &&& final(data)@.skip(r as int) == old(data)@.skip(r as int)
            } else {
                r == new_size && final(data)@ == old(data)@
            }
        }),
{
    let envelope = encode_module(module, vstd::slice::slice_subrange(data.as_slice(), 0, new_size));
    if envelope.len() < max_size {
        let n = envelope.len();
        let mut i: usize = 0;
        while i < n
            invariant
                i <= n,
                n == envelope@.len(),
                n < max_size <= data@.len(),
                data@.len() == old(data)@.len(),
                forall|k: int| i <= k < data@.len() ==> data@[k] == old(data)@[k],
                forall|k: int| 0 <= k < i ==> data@[k] == envelope@[k],
            decreases n - i,
        {
            let b = envelope[i];
            data[i] = b;
            i += 1;
        }
        proof {
            assert(data@.take(n as int) =~= envelope@);
            assert(data@.skip(n as int) =~= old(data)@.skip(n as int));
        }
        n
    } else {
        new_size
    }
}

/// Mutate one raw fuzz input in place, returning its new size.
///
/// The buffer is first stripped down to its seed (`de_envelope`), so the
/// base mutator always works on the bytes that have generative meaning, not
/// on their expansion. The mutated seed is then run through the generator;
/// when that succeeds and the resulting envelope fits, the buffer becomes
/// the envelope (`apply_envelope`), otherwise it stays the bare mutated
/// seed. The result never exceeds `max_size` and the buffer never changes
/// its length, as the engine owning the buffer requires.
pub fn mutate<H: MutateHarness>(
    data: &mut Vec<u8>,
    size: usize,
    max_size: usize,
    harness: &mut H,
) -> (r: usize)
    requires
        size <= max_size,
        max_size <= old(data)@.len(),
    ensures
        r <= max_size,
        final(data)@.len() == old(data)@.len(),
{
    let seed_size = de_envelope(data, size);
    let new_size = harness.base_mutate(data, seed_size, max_size);
    let generated = harness.try_generate(vstd::slice::slice_subrange(data.as_slice(), 0, new_size));
    match generated {
        None => new_size,
        Some((module, _validity)) => {
            // A seed longer than the section-size limit cannot be enveloped;
            // fall back to the bare seed as for any envelope that does not
            // fit.
            if (new_size as u64) < 0x1_0000_0000u64 - 20 {
                apply_envelope(data, new_size, max_size, module.as_slice())
            } else {
                new_size
            }
        },
    }
}

} // verus!
