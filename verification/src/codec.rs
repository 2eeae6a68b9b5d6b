//! Envelope codec: encode and decode between `(module bytes, seed bytes)` and
//! one combined byte buffer.
//!
//! An envelope is a binary module followed by one trailing custom section
//! whose name is the reserved constant `"wasmtime-fuzz-input"` and whose
//! payload is the seed verbatim. The module format is the usual sectioned
//! container: an 8-byte header (magic plus version), then sections, each a
//! one-byte id, a LEB128-encoded 32-bit size, and that many payload bytes. A
//! custom section (id 0) begins its payload with a LEB128 name length and the
//! name bytes; the rest is opaque data.
//!
//! Decoding scans the sections in order and succeeds exactly when it meets a
//! custom section with the reserved name whose end is the end of the whole
//! input; everything before that section is the module and the section's data
//! is the seed. Both are returned as borrowed sub-slices: decoding copies
//! nothing and never mutates its input.

use vstd::prelude::*;

verus! {

/// The reserved custom-section name, `"wasmtime-fuzz-input"`, as bytes.
pub open spec fn section_name() -> Seq<u8> {
    seq![
        0x77u8, 0x61u8, 0x73u8, 0x6du8, 0x74u8, 0x69u8, 0x6du8, 0x65u8, 0x2du8, 0x66u8, 0x75u8,
        0x7au8, 0x7au8, 0x2du8, 0x69u8, 0x6eu8, 0x70u8, 0x75u8, 0x74u8,
    ]
}

/// The fixed 8-byte container header: magic `\0asm` and version 1.
pub open spec fn header() -> Seq<u8> {
    seq![0x00u8, 0x61u8, 0x73u8, 0x6du8, 0x01u8, 0x00u8, 0x00u8, 0x00u8]
}

/// Minimal LEB128 encoding of `n`, as the encoder emits it.
pub open spec fn spec_leb(n: nat) -> Seq<u8>
    decreases n,
{
    if n < 128 {
        seq![n as u8]
    } else {
        seq![(128 + n % 128) as u8] + spec_leb(n / 128)
    }
}

/// Parse a LEB128-encoded 32-bit number at `off`, `count` bytes of it already
/// consumed by the caller. Returns the value and the offset just past it.
/// At most five bytes are read, and in the fifth the bits beyond 32 must be
/// clear; non-minimal encodings are accepted.
pub open spec fn parse_leb_rec(data: Seq<u8>, off: nat, count: nat) -> Option<(nat, nat)>
    decreases 5 - count,
{
    if count >= 5 || off >= data.len() {
        None
    } else {
        let b = data[off as int];
        if b < 128 {
            if count == 4 && b >= 16 {
                None
            } else {
                Some((b as nat, (off + 1) as nat))
            }
        } else {
            match parse_leb_rec(data, off + 1, count + 1) {
                None => None,
                Some((v, end)) => Some((((b - 128) + 128 * v) as nat, end)),
            }
        }
    }
}

/// Upper bound on the value of a LEB128 number whose first `count` bytes were
/// already consumed; `leb_max(0)` is `2^32`.
pub open spec fn leb_max(count: nat) -> nat
    decreases 5 - count,
{
    if count >= 4 {
        16
    } else {
        128 * leb_max(count + 1)
    }
}

/// The values of `leb_max` at every reachable `count`.
proof fn lemma_leb_max_values()
    ensures
        leb_max(5) == 16,
        leb_max(4) == 16,
        leb_max(3) == 2048,
        leb_max(2) == 262144,
        leb_max(1) == 33554432,
        leb_max(0) == 0x1_0000_0000,
{
    assert(leb_max(5) == 16);
    assert(leb_max(4) == 16);
    assert(leb_max(3) == 128 * leb_max(4));
    assert(leb_max(2) == 128 * leb_max(3));
    assert(leb_max(1) == 128 * leb_max(2));
    assert(leb_max(0) == 128 * leb_max(1));
}

proof fn lemma_parse_leb_bound(data: Seq<u8>, off: nat, count: nat)
    ensures
        parse_leb_rec(data, off, count) matches Some(r) ==> r.0 < leb_max(count) && off < r.1
            <= data.len(),
    decreases 5 - count,
{
    lemma_leb_max_values();
    if count < 5 && off < data.len() {
        let b = data[off as int];
        if b >= 128 {
            lemma_parse_leb_bound(data, off + 1, count + 1);
            match parse_leb_rec(data, off + 1, count + 1) {
                Some((v, end)) => {
                    assert(128 * v <= 128 * (leb_max(count + 1) - 1)) by (nonlinear_arith)
                        requires
                            v <= leb_max(count + 1) - 1,
                    ;
                    assert(count == 0 || count == 1 || count == 2 || count == 3 || count == 4);
                    assert(leb_max(count) == 128 * leb_max(count + 1));
                },
                None => {},
            }
        } else {
            if count < 4 {
                assert(count == 0 || count == 1 || count == 2 || count == 3);
                assert(leb_max(count) >= 128);
            }
        }
    }
}

/// Executable LEB128 parser, proven equal to `parse_leb_rec`.
fn parse_leb(data: &[u8], off: usize, count: usize) -> (r: Option<(u64, usize)>)
    requires
        count <= 5,
    ensures
        match r {
            Some((v, end)) => parse_leb_rec(data@, off as nat, count as nat) == Some(
                (v as nat, end as nat),
            ) && off < end <= data@.len() && v < 0x1_0000_0000u64,
            None => parse_leb_rec(data@, off as nat, count as nat) is None,
        },
    decreases 5 - count,
{
    if count >= 5 || off >= data.len() {
        return None;
    }
    let b = *vstd::slice::slice_index_get(data, off);
    if b < 128 {
        if count == 4 && b >= 16 {
            None
        } else {
            Some((b as u64, off + 1))
        }
    } else {
        proof {
            lemma_parse_leb_bound(data@, (off + 1) as nat, (count + 1) as nat);
        }
        match parse_leb(data, off + 1, count + 1) {
            None => None,
            Some((v, end)) => {
                proof {
                    lemma_leb_max_values();
                    lemma_parse_leb_bound(data@, off as nat, count as nat);
                    assert(count == 0 || count == 1 || count == 2 || count == 3 || count == 4);
                }
                Some(((b - 128) as u64 + 128 * v, end))
            },
        }
    }
}

/// Parse the section starting at `off`: its id byte, its LEB128 size and, for
/// a custom section, the name carried at the front of its payload. Returns
/// `(end, reserved, payload_start)`: the offset just past the section,
/// whether it is a custom section named with the reserved constant, and where
/// its opaque payload begins (for a non-custom section, where its payload
/// begins). `None` is a structural error.
pub open spec fn parse_section(data: Seq<u8>, off: nat) -> Option<(nat, bool, nat)> {
    if off >= data.len() {
        None
    } else {
        match parse_leb_rec(data, off + 1, 0) {
            None => None,
            Some((size, size_end)) => {
                if size_end + size > data.len() {
                    None
                } else {
                    let sec_end = (size_end + size) as nat;
                    if data[off as int] == 0 {
                        match parse_leb_rec(data, size_end, 0) {
                            None => None,
                            Some((nl, nl_end)) => {
                                if nl_end + nl > sec_end {
                                    None
                                } else {
                                    Some(
                                        (
                                            sec_end,
                                            data.subrange(nl_end as int, (nl_end + nl) as int)
                                                == section_name(),
                                            (nl_end + nl) as nat,
                                        ),
                                    )
                                }
                            },
                        }
                    } else {
                        Some((sec_end, false, size_end))
                    }
                }
            },
        }
    }
}

/// Scan the sections from `off` on. Succeeds exactly when a custom section
/// with the reserved name ends exactly at the end of `data`; the module is
/// then everything before that section and the seed is its payload.
pub open spec fn scan(data: Seq<u8>, off: nat) -> Option<(Seq<u8>, Seq<u8>)>
    decreases data.len() - off,
{
    if off >= data.len() {
        None
    } else {
        match parse_section(data, off) {
            None => None,
            Some((end, reserved, payload_start)) => {
                if reserved && end == data.len() {
                    Some(
                        (data.take(off as int), data.subrange(payload_start as int, end as int)),
                    )
                } else if off < end <= data.len() {
                    scan(data, end)
                } else {
                    None
                }
            },
        }
    }
}

/// What decoding returns: the module and the seed, or nothing.
pub open spec fn spec_extract(data: Seq<u8>) -> Option<(Seq<u8>, Seq<u8>)> {
    if data.len() >= 8 && data.take(8) == header() {
        scan(data, 8)
    } else {
        None
    }
}

/// The bytes of one custom section with the reserved name and `payload` as
/// its data, as the encoder appends them.
pub open spec fn spec_custom_section(payload: Seq<u8>) -> Seq<u8> {
    let body = spec_leb(section_name().len()) + section_name() + payload;
    seq![0u8] + spec_leb(body.len()) + body
}

/// An envelope: the module followed by the seed-carrying custom section.
pub open spec fn spec_encode(module: Seq<u8>, seed: Seq<u8>) -> Seq<u8> {
    module + spec_custom_section(seed)
}

/// The sections from `off` tile the rest of `data` exactly, each of them
/// structurally parseable.
pub open spec fn wf_sections(data: Seq<u8>, off: nat) -> bool
    decreases data.len() - off,
{
    if off == data.len() {
        true
    } else if off > data.len() {
        false
    } else {
        match parse_section(data, off) {
            None => false,
            Some((end, reserved, payload_start)) => off < end <= data.len() && wf_sections(
                data,
                end,
            ),
        }
    }
}

/// A syntactically well-formed container: the fixed header followed by a
/// tiling sequence of sections.
pub open spec fn is_well_formed(m: Seq<u8>) -> bool {
    m.len() >= 8 && m.take(8) == header() && wf_sections(m, 8)
}

/// The last of the sections from `off` is a custom section with the reserved
/// name.
pub open spec fn ends_with_reserved(data: Seq<u8>, off: nat) -> bool
    decreases data.len() - off,
{
    if off >= data.len() {
        false
    } else {
        match parse_section(data, off) {
            None => false,
            Some((end, reserved, payload_start)) => {
                if end == data.len() {
                    reserved
                } else {
                    off < end <= data.len() && ends_with_reserved(data, end)
                }
            },
        }
    }
}

/// The reserved section name as a vector, for byte comparisons.
fn section_name_bytes() -> (r: Vec<u8>)
    ensures
        r@ == section_name(),
{
    let mut v: Vec<u8> = Vec::new();
    v.push(0x77);
    v.push(0x61);
    v.push(0x73);
    v.push(0x6d);
    v.push(0x74);
    v.push(0x69);
    v.push(0x6d);
    v.push(0x65);
    v.push(0x2d);
    v.push(0x66);
    v.push(0x75);
    v.push(0x7a);
    v.push(0x7a);
    v.push(0x2d);
    v.push(0x69);
    v.push(0x6e);
    v.push(0x70);
    v.push(0x75);
    v.push(0x74);
    proof {
        assert(v@ =~= section_name());
    }
    v
}

/// The fixed container header as a vector.
fn header_bytes() -> (r: Vec<u8>)
    ensures
        r@ == header(),
{
    let mut v: Vec<u8> = Vec::new();
    v.push(0x00);
    v.push(0x61);
    v.push(0x73);
    v.push(0x6d);
    v.push(0x01);
    v.push(0x00);
    v.push(0x00);
    v.push(0x00);
    proof {
        assert(v@ =~= header());
    }
    v
}

/// Whether `data[off .. off + expect.len()]` equals `expect`.
fn bytes_eq_at(data: &[u8], off: usize, expect: &Vec<u8>) -> (r: bool)
    requires
        off + expect@.len() <= data@.len(),
    ensures
        r <==> data@.subrange(off as int, off as int + expect@.len() as int) == expect@,
{
    let dn = data.len();
    let n = expect.len();
    let mut j: usize = 0;
    while j < n
        invariant
            j <= n,
            n == expect@.len(),
            dn == data@.len(),
            off + n <= data@.len(),
            forall|k: int| 0 <= k < j ==> data@[off + k] == expect@[k],
        decreases n - j,
    {
        if *vstd::slice::slice_index_get(data, off + j) != expect[j] {
            proof {
                assert(data@.subrange(off as int, off as int + n as int)[j as int] != expect@[
                j as int]);
            }
            return false;
        }
        j += 1;
    }
    proof {
        assert(data@.subrange(off as int, off as int + n as int) =~= expect@);
    }
    true
}

/// A decoding failure: the input is not a well-formed container carrying a
/// trailing custom section with the reserved name.
#[derive(Debug, Clone, Copy, PartialEq, Eq, Structural)]
pub struct NotEnveloped;

/// An envelope taken apart: borrowed views into the input.
pub struct FuzzInput<'a> {
    /// The module, without the seed-carrying custom section.
    pub module: &'a [u8],
    /// The contents of the seed-carrying custom section.
    pub fuzz_data: &'a [u8],
}

/// Decode `data` as an envelope, returning offsets instead of slices:
/// `(module_end, seed_start, seed_end)`. The offset form lets a caller that
/// owns the buffer move the seed bytes around afterwards.
pub fn extract_bounds(data: &[u8]) -> (r: Option<(usize, usize, usize)>)
    ensures
        match r {
            Some((module_end, lo, hi)) => module_end <= lo <= hi <= data@.len() && spec_extract(
                data@,
            ) == Some((data@.take(module_end as int), data@.subrange(lo as int, hi as int))),
            None => spec_extract(data@) is None,
        },
{
    let n = data.len();
    if n < 8 {
        return None;
    }
    let hdr = header_bytes();
    if !bytes_eq_at(data, 0, &hdr) {
        proof {
            assert(data@.take(8) == data@.subrange(0, 8));
        }
        return None;
    }
    proof {
        assert(data@.take(8) == data@.subrange(0, 8));
    }
    let name = section_name_bytes();
    let mut off: usize = 8;
    loop
        invariant
            8 <= off <= n,
            n == data@.len(),
            name@ == section_name(),
            data@.len() >= 8 && data@.take(8) == header(),
            scan(data@, 8) == scan(data@, off as nat),
        decreases n - off,
    {
        if off >= n {
            return None;
        }
        let id = *vstd::slice::slice_index_get(data, off);
        let (size, size_end) = match parse_leb(data, off + 1, 0) {
            None => {
                return None;
            },
            Some(p) => p,
        };
        if size > ((n - size_end) as u64) {
            return None;
        }
        let sec_end = size_end + (size as usize);
        if id == 0 {
            let (nl, nl_end) = match parse_leb(data, size_end, 0) {
                None => {
                    return None;
                },
                Some(p) => p,
            };
            if nl_end > sec_end || nl > ((sec_end - nl_end) as u64) {
                return None;
            }
            let name_end = nl_end + (nl as usize);
            let reserved = nl as usize == name.len() && bytes_eq_at(data, nl_end, &name);
            proof {
                if nl as usize != name.len() {
                    assert(data@.subrange(nl_end as int, name_end as int).len() != section_name(
                    ).len());
                }
                assert(reserved <==> data@.subrange(nl_end as int, name_end as int)
                    == section_name());
            }
            if reserved && sec_end == n {
                return Some((off, name_end, sec_end));
            }
            off = sec_end;
        } else {
            off = sec_end;
        }
    }
}

/// Decode `data` as an envelope: the module bytes and the seed bytes, both
/// borrowed sub-slices of `data`, or `NotEnveloped`. Succeeds exactly when a
/// custom section named with the reserved constant ends exactly at the end of
/// `data`; a structural error anywhere before that degrades to `NotEnveloped`.
pub fn extract_fuzz_input<'a>(data: &'a [u8]) -> (r: Result<FuzzInput<'a>, NotEnveloped>)
    ensures
        match r {
            Ok(f) => spec_extract(data@) == Some((f.module@, f.fuzz_data@)),
            Err(_) => spec_extract(data@) is None,
        },
{
    match extract_bounds(data) {
        Some((module_end, lo, hi)) => {
            proof {
                assert(data@.take(module_end as int) == data@.subrange(0, module_end as int));
            }
            Ok(
                FuzzInput {
                    module: vstd::slice::slice_subrange(data, 0, module_end),
                    fuzz_data: vstd::slice::slice_subrange(data, lo, hi),
                },
            )
        },
        None => Err(NotEnveloped),
    }
}

/// Append the minimal LEB128 encoding of `n` to `out`.
fn push_leb(out: &mut Vec<u8>, n: u64)
    ensures
        final(out)@ == old(out)@ + spec_leb(n as nat),
{
    let mut val = n;
    while val >= 128
        invariant
            old(out)@ + spec_leb(n as nat) == out@ + spec_leb(val as nat),
        decreases val,
    {
        let ghost prev = val as nat;
        out.push((val % 128) as u8 + 128);
        val = val / 128;
        proof {
            assert(spec_leb(prev) == seq![(128 + prev % 128) as u8] + spec_leb(prev / 128));
            assert(old(out)@ + spec_leb(n as nat) =~= out@ + spec_leb(val as nat));
        }
    }
    out.push(val as u8);
    proof {
        assert(spec_leb(val as nat) == seq![val as u8]);
        assert(final(out)@ =~= old(out)@ + spec_leb(n as nat));
    }
}

/// Append a copy of `src` to `out`.
fn push_bytes(out: &mut Vec<u8>, src: &[u8])
    ensures
        final(out)@ == old(out)@ + src@,
{
    let n = src.len();
    let mut i: usize = 0;
    while i < n
        invariant
            i <= n,
            n == src@.len(),
            out@ == old(out)@ + src@.take(i as int),
        decreases n - i,
    {
        out.push(*vstd::slice::slice_index_get(src, i));
        i += 1;
        proof {
            assert(out@ =~= old(out)@ + src@.take(i as int));
        }
    }
    proof {
        assert(src@.take(n as int) =~= src@);
    }
}

/// Append one custom section with the reserved name and `fuzz_data` as its
/// payload to a copy of `module`, making an envelope. The seed may be empty;
/// its length is capped only by the section size being a 32-bit number.
pub fn encode_module(module: &[u8], fuzz_data: &[u8]) -> (r: Vec<u8>)
    requires
        fuzz_data@.len() + 20 < 0x1_0000_0000,
    ensures
        r@ == spec_encode(module@, fuzz_data@),
{
    let mut out: Vec<u8> = Vec::new();
    push_bytes(&mut out, module);
    out.push(0);
    let body_len: u64 = fuzz_data.len() as u64 + 20;
    push_leb(&mut out, body_len);
    out.push(19);
    let name = section_name_bytes();
    push_bytes(&mut out, name.as_slice());
    push_bytes(&mut out, fuzz_data);
    proof {
        assert(section_name().len() == 19);
        assert(spec_leb(19) == seq![19u8]);
        let body = spec_leb(section_name().len()) + section_name() + fuzz_data@;
        assert(body.len() == body_len as nat);
        assert(out@ =~= spec_encode(module@, fuzz_data@));
    }
    out
}

proof fn lemma_parse_leb_ext(d: Seq<u8>, t: Seq<u8>, off: nat, count: nat)
    requires
        parse_leb_rec(d, off, count) is Some,
    ensures
        parse_leb_rec(d + t, off, count) == parse_leb_rec(d, off, count),
    decreases 5 - count,
{
    assert((d + t)[off as int] == d[off as int]);
    let b = d[off as int];
    if b >= 128 {
        lemma_parse_leb_ext(d, t, off + 1, count + 1);
    }
}

proof fn lemma_parse_section_ext(d: Seq<u8>, t: Seq<u8>, off: nat)
    requires
        parse_section(d, off) is Some,
    ensures
        parse_section(d + t, off) == parse_section(d, off),
{
    lemma_parse_leb_ext(d, t, off + 1, 0);
    match parse_leb_rec(d, off + 1, 0) {
        Some((size, size_end)) => {
            let sec_end = size_end + size;
            assert((d + t)[off as int] == d[off as int]);
            if d[off as int] == 0 {
                lemma_parse_leb_ext(d, t, size_end, 0);
                match parse_leb_rec(d, size_end, 0) {
                    Some((nl, nl_end)) => {
                        if nl_end + nl <= sec_end {
                            assert(d.subrange(nl_end as int, (nl_end + nl) as int) =~= (d
                                + t).subrange(nl_end as int, (nl_end + nl) as int));
                        }
                    },
                    None => {},
                }
            }
        },
        None => {},
    }
}

/// Parsing reads back exactly what the minimal LEB128 encoding wrote.
proof fn lemma_leb_parse(data: Seq<u8>, off: nat, count: nat, n: nat)
    requires
        count <= 4,
        n < leb_max(count),
        off + spec_leb(n).len() <= data.len(),
        data.subrange(off as int, (off + spec_leb(n).len()) as int) == spec_leb(n),
    ensures
        parse_leb_rec(data, off, count) == Some((n, (off + spec_leb(n).len()) as nat)),
    decreases n,
{
    lemma_leb_max_values();
    if n < 128 {
        assert(spec_leb(n) == seq![n as u8]);
        assert(data[off as int] == data.subrange(off as int, (off + 1) as int)[0]);
    } else {
        assert(count == 0 || count == 1 || count == 2 || count == 3 || count == 4);
        assert(count < 4);
        let first = (128 + n % 128) as u8;
        let rest = spec_leb(n / 128);
        assert(spec_leb(n) == seq![first] + rest);
        assert(data[off as int] == data.subrange(
            off as int,
            (off + spec_leb(n).len()) as int,
        )[0]);
        assert(data[off as int] == first);
        assert(n / 128 < leb_max(count + 1)) by (nonlinear_arith)
            requires
                n < 128 * leb_max(count + 1),
        ;
        assert forall|i: int| 0 <= i < rest.len() implies data[off + 1 + i] == rest[i] by {
            assert(data.subrange(off as int, (off + spec_leb(n).len()) as int)[i + 1] == data[off
                + 1 + i]);
            assert((seq![first] + rest)[i + 1] == rest[i]);
        }
        assert(data.subrange((off + 1) as int, (off + 1 + rest.len()) as int) =~= rest);
        lemma_leb_parse(data, off + 1, count + 1, n / 128);
        vstd::arithmetic::div_mod::lemma_fundamental_div_mod(n as int, 128);
    }
}

proof fn lemma_scan_prefix(m: Seq<u8>, t: Seq<u8>, off: nat)
    requires
        wf_sections(m, off),
        off <= m.len(),
        t.len() > 0,
    ensures
        scan(m + t, off) == scan(m + t, m.len()),
    decreases m.len() - off,
{
    if off < m.len() {
        match parse_section(m, off) {
            Some((end, reserved, payload_start)) => {
                lemma_parse_section_ext(m, t, off);
                assert(end < (m + t).len());
                lemma_scan_prefix(m, t, end);
            },
            None => {},
        }
    }
}

/// Scanning an envelope from the start of its trailing custom section finds
/// exactly the module and the seed.
proof fn lemma_scan_at_section(m: Seq<u8>, s: Seq<u8>)
    requires
        s.len() + 20 < 0x1_0000_0000,
    ensures
        scan(m + spec_custom_section(s), m.len()) == Some((m, s)),
{
    lemma_leb_max_values();
    let name = section_name();
    assert(name.len() == 19);
    let body = spec_leb(19) + name + s;
    let body_len = body.len();
    assert(spec_leb(19) == seq![19u8]);
    assert(body_len == 20 + s.len());
    let sz = spec_leb(body_len);
    let cs = spec_custom_section(s);
    assert(cs == seq![0u8] + sz + body);
    let d = m + cs;
    let off = m.len();
    assert(d.len() == off + 1 + sz.len() + body_len);
    assert(d[off as int] == 0);
    // the section size
    assert forall|i: int| 0 <= i < sz.len() implies d[off + 1 + i] == sz[i] by {
        assert((seq![0u8] + sz + body)[1 + i] == sz[i]);
    }
    assert(d.subrange((off + 1) as int, (off + 1 + sz.len()) as int) =~= sz);
    lemma_leb_parse(d, off + 1, 0, body_len);
    let size_end = off + 1 + sz.len();
    // the name length
    assert(d[size_end as int] == (seq![0u8] + sz + body)[1 + sz.len() as int]);
    assert(body[0] == 19u8);
    assert(d[size_end as int] == 19u8);
    assert(d.subrange(size_end as int, (size_end + 1) as int) =~= spec_leb(19));
    lemma_leb_parse(d, size_end, 0, 19);
    let nl_end = size_end + 1;
    // the name itself
    assert forall|i: int| 0 <= i < 19 implies d[nl_end + i] == name[i] by {
        assert((seq![0u8] + sz + body)[1 + sz.len() as int + 1 + i] == body[1 + i]);
        assert((spec_leb(19) + name + s)[1 + i] == name[i]);
    }
    assert(d.subrange(nl_end as int, (nl_end + 19) as int) =~= name);
    // the payload
    assert(parse_section(d, off) == Some((d.len(), true, (nl_end + 19) as nat)));
    assert(d.take(off as int) =~= m);
    assert forall|i: int| 0 <= i < s.len() implies d[nl_end + 19 + i] == s[i] by {
        assert((seq![0u8] + sz + body)[1 + sz.len() as int + 20 + i] == body[20 + i]);
        assert((spec_leb(19) + name + s)[20 + i] == s[i]);
    }
    assert(d.subrange((nl_end + 19) as int, d.len() as int) =~= s);
}

/// Round-trip: decoding an envelope gives back exactly the module and the
/// seed it was built from, for every syntactically well-formed module and
/// every seed. In particular a module already carrying a reserved-name
/// section somewhere inside is still recovered unchanged, since only a
/// section ending at the very end of the input is taken as the envelope's.
pub proof fn lemma_round_trip(m: Seq<u8>, s: Seq<u8>)
    requires
        is_well_formed(m),
        s.len() + 20 < 0x1_0000_0000,
    ensures
        spec_extract(spec_encode(m, s)) == Some((m, s)),
{
    let cs = spec_custom_section(s);
    assert(cs.len() > 0);
    let d = m + cs;
    assert(d.take(8) =~= m.take(8));
    lemma_scan_prefix(m, cs, 8);
    lemma_scan_at_section(m, s);
}

/// Appending the seed-carrying custom section never invalidates the
/// container: an envelope built on a well-formed module is itself
/// well-formed, and its last section is the reserved one.
pub proof fn lemma_encode_well_formed(m: Seq<u8>, s: Seq<u8>)
    requires
        is_well_formed(m),
        s.len() + 20 < 0x1_0000_0000,
    ensures
        is_well_formed(spec_encode(m, s)),
        ends_with_reserved(spec_encode(m, s), 8),
{
    lemma_round_trip(m, s);
    lemma_extract_characterization(spec_encode(m, s));
}

proof fn lemma_scan_none(m: Seq<u8>, off: nat)
    requires
        wf_sections(m, off),
        off <= m.len(),
        !ends_with_reserved(m, off),
    ensures
        scan(m, off) is None,
    decreases m.len() - off,
{
    if off < m.len() {
        match parse_section(m, off) {
            Some((end, reserved, payload_start)) => {
                if end < m.len() {
                    lemma_scan_none(m, end);
                } else {
                    assert(!reserved);
                    assert(scan(m, end) is None);
                }
            },
            None => {},
        }
    }
}

/// Rejection: a well-formed container whose last section is not a custom
/// section with the reserved name never decodes as an envelope. Together
/// with the definition of `spec_extract` (a bad header or a structural error
/// also yield `None`) this pins down every failing input.
pub proof fn lemma_rejection(m: Seq<u8>)
    requires
        is_well_formed(m),
        !ends_with_reserved(m, 8),
    ensures
        spec_extract(m) is None,
{
    lemma_scan_none(m, 8);
}

proof fn lemma_scan_some(m: Seq<u8>, off: nat)
    requires
        wf_sections(m, off),
        off <= m.len(),
        ends_with_reserved(m, off),
    ensures
        scan(m, off) is Some,
    decreases m.len() - off,
{
    if off < m.len() {
        match parse_section(m, off) {
            Some((end, reserved, payload_start)) => {
                if end < m.len() {
                    lemma_scan_some(m, end);
                }
            },
            None => {},
        }
    }
}

proof fn lemma_scan_implies_wf(m: Seq<u8>, off: nat)
    requires
        scan(m, off) is Some,
        off <= m.len(),
    ensures
        wf_sections(m, off),
        ends_with_reserved(m, off),
    decreases m.len() - off,
{
    match parse_section(m, off) {
        Some((end, reserved, payload_start)) => {
            lemma_parse_leb_bound(m, off + 1, 0);
            assert(off < end);
            if reserved && end == m.len() {
                assert(wf_sections(m, end));
            } else {
                lemma_scan_implies_wf(m, end);
            }
        },
        None => {},
    }
}

/// What decodes, exactly: an input decodes as an envelope if and only if it
/// is a syntactically well-formed container whose final section is a custom
/// section with the reserved name.
pub proof fn lemma_extract_characterization(data: Seq<u8>)
    ensures
        spec_extract(data) is Some <==> is_well_formed(data) && ends_with_reserved(data, 8),
{
    if data.len() >= 8 && data.take(8) == header() {
        if scan(data, 8) is Some {
            lemma_scan_implies_wf(data, 8);
        }
        if wf_sections(data, 8) && ends_with_reserved(data, 8) {
            lemma_scan_some(data, 8);
        }
    }
}

} // verus!
