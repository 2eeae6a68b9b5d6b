//! The pipelines driven by a real generator: configurations decoded with
//! `arbitrary` and modules generated by `wasm-smith`, as an embedding fuzz
//! harness would wire them up.

use arbitrary::{Arbitrary, Unstructured};
use rand::rngs::SmallRng;
use rand::{RngCore, SeedableRng};
use single_module_fuzzer::{execute, mutate, Harness, KnownValid, MutateHarness};
use std::marker::PhantomData;

/// An execution harness generic over the configuration type, with a
/// generator that derives a module from the rest of the seed.
struct SmithHarness<'a, T> {
    cursor: Option<Unstructured<'a>>,
    config: PhantomData<T>,
}

impl<'a, T> SmithHarness<'a, T> {
    fn new() -> SmithHarness<'a, T> {
        SmithHarness { cursor: None, config: PhantomData }
    }
}

impl<'a, T: for<'b> Arbitrary<'b>> Harness<'a> for SmithHarness<'a, T> {
    type Config = T;
    type Output = (Vec<u8>, KnownValid);
    type Error = arbitrary::Error;

    fn decode_config(&mut self, seed: &'a [u8]) -> Result<T, arbitrary::Error> {
        let mut cursor = Unstructured::new(seed);
        let config = cursor.arbitrary()?;
        self.cursor = Some(cursor);
        Ok(config)
    }

    fn gen_module(&mut self, _config: &mut T) -> Result<(Vec<u8>, KnownValid), arbitrary::Error> {
        let cursor = self.cursor.as_mut().unwrap();
        let module = cursor.arbitrary::<wasm_smith::Module>()?.to_bytes();
        Ok((module, KnownValid::Yes))
    }

    fn wants_snapshot(&self) -> bool {
        false
    }

    fn snapshot(&mut self, _envelope: &[u8]) {}

    fn run(
        &mut self,
        module: &[u8],
        validity: KnownValid,
        _config: T,
    ) -> Result<(Vec<u8>, KnownValid), arbitrary::Error> {
        Ok((module.to_vec(), validity))
    }
}

/// The matching mutation harness, with a no-op base mutator.
struct SmithMutateHarness<T> {
    config: PhantomData<T>,
}

impl<T: for<'b> Arbitrary<'b>> MutateHarness for SmithMutateHarness<T> {
    fn try_generate(&mut self, seed: &[u8]) -> Option<(Vec<u8>, KnownValid)> {
        let mut cursor = Unstructured::new(seed);
        let _config: T = cursor.arbitrary().ok()?;
        let module = cursor.arbitrary::<wasm_smith::Module>().ok()?.to_bytes();
        Some((module, KnownValid::Yes))
    }

    fn base_mutate(&mut self, _data: &mut Vec<u8>, size: usize, _max_size: usize) -> usize {
        size
    }
}

#[test]
fn changing_configuration_does_not_change_module() {
    // If the static configuration associated with a module changes, the
    // module as sourced from the original fuzz input must not change: that
    // is the point of the envelope format. Each iteration generates a
    // module from fresh random data, "mutates" it with a no-op mutation to
    // serialize it into the envelope, then executes the envelope under a
    // different configuration type. On both runs the module must be the
    // same.
    let mut rng = SmallRng::seed_from_u64(0);
    let max_size = 4096;
    let seed_size = 128;
    let mut buf = vec![0; max_size];
    let mut compares = 0;
    for _ in 0..200 {
        rng.fill_bytes(&mut buf[..seed_size]);

        let input1 = buf[..seed_size].to_vec();
        let mut run1 = SmithHarness::<u32>::new();
        if let Ok((module, known_valid)) = execute(&input1, &mut run1) {
            assert_eq!(known_valid, KnownValid::Yes);
            let mut mutator = SmithMutateHarness::<u32> { config: PhantomData };
            let new_size = mutate(&mut buf, seed_size, max_size, &mut mutator);
            let input2 = buf[..new_size].to_vec();
            let mut run2 = SmithHarness::<(u32, u32)>::new();
            if let Ok((module2, known_valid)) = execute(&input2, &mut run2) {
                assert_eq!(known_valid, KnownValid::No);
                compares += 1;
                if module != module2 {
                    panic!("modules differ");
                }
            }
        }
    }

    // At least one iteration should have succeeded in the fuzz generation
    // above.
    assert!(compares > 0);
}
