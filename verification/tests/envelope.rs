//! Tests of the envelope codec: exact encodings, round trips, rejections,
//! and agreement with the reference encoder and parser for the container
//! format.

use single_module_fuzzer::{encode_module, extract_fuzz_input};
use wasm_encoder::Section;

const SECTION_NAME: &str = "wasmtime-fuzz-input";

/// The minimal valid container: magic and version, no sections.
fn minimal_module() -> Vec<u8> {
    vec![0x00, 0x61, 0x73, 0x6d, 0x01, 0x00, 0x00, 0x00]
}

fn reference_encode(module: &[u8], seed: &[u8]) -> Vec<u8> {
    let mut out = module.to_vec();
    wasm_encoder::CustomSection {
        name: SECTION_NAME.into(),
        data: std::borrow::Cow::Borrowed(seed),
    }
    .append_to(&mut out);
    out
}

#[test]
fn concrete_envelope_bytes() {
    // Seed of sixteen zero bytes around the minimal module: the envelope is
    // the module, then one custom section: id 0, payload size 36 (one byte
    // of name length, nineteen name bytes, sixteen payload bytes), the name
    // length 19, the name, and the seed verbatim.
    let module = minimal_module();
    let seed = [0u8; 16];
    let encoded = encode_module(&module, &seed);
    let mut expected = module.clone();
    expected.push(0x00);
    expected.push(36);
    expected.push(19);
    expected.extend_from_slice(SECTION_NAME.as_bytes());
    expected.extend_from_slice(&seed);
    assert_eq!(encoded, expected);

    let decoded = extract_fuzz_input(&encoded).unwrap();
    assert_eq!(decoded.module, &module[..]);
    assert_eq!(decoded.fuzz_data, &seed[..]);
}

#[test]
fn round_trip_empty_seed() {
    let module = minimal_module();
    let seed: [u8; 0] = [];
    let encoded = encode_module(&module, &seed);
    let decoded = extract_fuzz_input(&encoded).unwrap();
    assert_eq!(decoded.module, &module[..]);
    assert_eq!(decoded.fuzz_data, &seed[..]);
}

#[test]
fn round_trip_multi_section_module() {
    // A module with an empty type section and an unknown-purpose custom
    // section in the middle keeps both through a round trip.
    let mut module = minimal_module();
    // custom section named "x" with two payload bytes
    module.extend_from_slice(&[0x00, 4, 1, b'x', 0xaa, 0xbb]);
    // type section with an empty vector of types
    module.extend_from_slice(&[0x01, 1, 0]);
    let seed: Vec<u8> = (0..200).map(|i| i as u8).collect();
    let encoded = encode_module(&module, &seed);
    let decoded = extract_fuzz_input(&encoded).unwrap();
    assert_eq!(decoded.module, &module[..]);
    assert_eq!(decoded.fuzz_data, &seed[..]);
}

#[test]
fn round_trip_module_with_inner_reserved_section() {
    // A reserved-name section that is not the trailing section of the final
    // buffer is carried through untouched: only the appended one is taken.
    let module = reference_encode(&minimal_module(), &[1, 2, 3]);
    let seed = [9u8, 8, 7];
    let encoded = encode_module(&module, &seed);
    let decoded = extract_fuzz_input(&encoded).unwrap();
    assert_eq!(decoded.module, &module[..]);
    assert_eq!(decoded.fuzz_data, &seed[..]);
}

#[test]
fn encode_matches_reference_encoder() {
    for seed_len in [0usize, 1, 16, 127, 128, 200, 5000] {
        let seed: Vec<u8> = (0..seed_len).map(|i| (i * 7) as u8).collect();
        let mut module = minimal_module();
        module.extend_from_slice(&[0x01, 1, 0]);
        assert_eq!(
            encode_module(&module, &seed),
            reference_encode(&module, &seed),
            "seed length {seed_len}"
        );
    }
}

#[test]
fn envelope_of_valid_module_stays_valid() {
    // Appending the trailing custom section must not invalidate the
    // container format.
    let module = minimal_module();
    let encoded = encode_module(&module, &[0u8; 16]);
    wasmparser::validate(&encoded).unwrap();
}

#[test]
fn rejects_empty_and_truncated_inputs() {
    assert!(extract_fuzz_input(&[]).is_err());
    assert!(extract_fuzz_input(&[0x00, 0x61, 0x73]).is_err());
    let encoded = encode_module(&minimal_module(), &[0u8; 16]);
    assert!(extract_fuzz_input(&encoded[..encoded.len() - 1]).is_err());
}

#[test]
fn rejects_bad_header() {
    let mut encoded = encode_module(&minimal_module(), &[0u8; 16]);
    encoded[0] = 0x01;
    assert!(extract_fuzz_input(&encoded).is_err());
}

#[test]
fn rejects_module_without_reserved_section() {
    assert!(extract_fuzz_input(&minimal_module()).is_err());
    let mut module = minimal_module();
    module.extend_from_slice(&[0x01, 1, 0]);
    assert!(extract_fuzz_input(&module).is_err());
}

#[test]
fn rejects_wrongly_named_trailing_section() {
    let mut module = minimal_module();
    // trailing custom section named "x"
    module.extend_from_slice(&[0x00, 4, 1, b'x', 0xaa, 0xbb]);
    assert!(extract_fuzz_input(&module).is_err());
}

#[test]
fn rejects_reserved_section_that_is_not_last() {
    let mut data = encode_module(&minimal_module(), &[0u8; 16]);
    // an empty-named, empty custom section after the reserved one
    data.extend_from_slice(&[0x00, 1, 0]);
    assert!(extract_fuzz_input(&data).is_err());
}

#[test]
fn decode_agrees_with_reference_parser() {
    // On inputs where the reference parser reports a structural error, our
    // decoder must report "not enveloped" too.
    let samples: Vec<Vec<u8>> = vec![
        vec![0x00, 0x61, 0x73, 0x6d, 0x01, 0x00, 0x00, 0x00, 0x00],
        vec![0x00, 0x61, 0x73, 0x6d, 0x01, 0x00, 0x00, 0x00, 0x00, 0xff],
        vec![0x00, 0x61, 0x73, 0x6d, 0x01, 0x00, 0x00, 0x00, 0x00, 0x02, 0x05],
    ];
    for sample in samples {
        let reference_failed = wasmparser::Parser::new(0)
            .parse_all(&sample)
            .any(|payload| payload.is_err());
        assert!(reference_failed);
        assert!(extract_fuzz_input(&sample).is_err());
    }
}
