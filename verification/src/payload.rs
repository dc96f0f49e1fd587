//! The remote payload: the exact bytes written into a stopped victim to
//! reopen its descriptors. The blob is self-contained and position
//! independent: the packed case records, their total byte length, and the
//! string table come first, then x86-64 code that walks the cases - for each
//! one reading the old descriptor's flags (`fcntl`), opening the replacement
//! path with those flags (`open`), replacing the slot (`dup2`) and closing
//! the scratch descriptor (`close`) - and ends in a debug trap.

use vstd::prelude::*;

use crate::replace::ReplaceCase;

verus! {

/// A 64-bit value as its eight little-endian bytes.
pub open spec fn le64(v: u64) -> Seq<u8> {
    seq![
        (v & 0xff) as u8,
        ((v >> 8) & 0xff) as u8,
        ((v >> 16) & 0xff) as u8,
        ((v >> 24) & 0xff) as u8,
        ((v >> 32) & 0xff) as u8,
        ((v >> 40) & 0xff) as u8,
        ((v >> 48) & 0xff) as u8,
        ((v >> 56) & 0xff) as u8,
    ]
}

/// A 32-bit value as its four little-endian bytes.
pub open spec fn le32(v: u32) -> Seq<u8> {
    seq![
        (v & 0xff) as u8,
        ((v >> 8) & 0xff) as u8,
        ((v >> 16) & 0xff) as u8,
        ((v >> 24) & 0xff) as u8,
    ]
}

/// The two's-complement encoding of `-m` as a 32-bit displacement.
pub open spec fn neg32(m: int) -> u32
    recommends
        1 <= m <= 0x7fff_ffff,
{
    (0x1_0000_0000 - m) as u32
}

/// The packed encoding of the case records: two little-endian 64-bit words
/// per case, the descriptor then the path offset, with no padding.
pub open spec fn cases_bytes(cs: Seq<(u64, u64)>) -> Seq<u8>
    decreases cs.len(),
{
    if cs.len() == 0 {
        Seq::empty()
    } else {
        le64(cs[0].0) + le64(cs[0].1) + cases_bytes(cs.skip(1))
    }
}

/// Each case occupies exactly sixteen bytes.
pub proof fn lemma_cases_bytes_len(cs: Seq<(u64, u64)>)
    ensures
        cases_bytes(cs).len() == 16 * cs.len(),
    decreases cs.len(),
{
    if cs.len() > 0 {
        lemma_cases_bytes_len(cs.skip(1));
    }
}

/// Encoding one more case at the end.
pub proof fn lemma_cases_bytes_snoc(cs: Seq<(u64, u64)>, c: (u64, u64))
    ensures
        cases_bytes(cs.push(c)) == cases_bytes(cs) + le64(c.0) + le64(c.1),
    decreases cs.len(),
{
    let t = cs.push(c);
    assert(t.len() > 0);
    if cs.len() == 0 {
        assert(t[0] == c);
        assert(t.skip(1) =~= cs);
        assert(cases_bytes(t.skip(1)) =~= Seq::<u8>::empty());
        assert(cases_bytes(t) =~= cases_bytes(cs) + le64(c.0) + le64(c.1));
    } else {
        assert(t[0] == cs[0]);
        assert(t.skip(1) =~= cs.skip(1).push(c));
        lemma_cases_bytes_snoc(cs.skip(1), c);
        assert(cases_bytes(t) =~= cases_bytes(cs) + le64(c.0) + le64(c.1));
    }
}

/// The code up to the patched displacement of the case array.
pub open spec fn code_a() -> Seq<u8> {
    seq![0x4du8, 0x31u8, 0xffu8, 0x4cu8, 0x8du8, 0x35u8]
}

/// The code between the case-array and string-table displacements: the jump
/// to the loop test, then `fcntl` and the start of `open`.
pub open spec fn code_b() -> Seq<u8> {
    seq![0xe9u8, 0x52u8, 0x00u8, 0x00u8, 0x00u8, 0x48u8, 0xc7u8, 0xc0u8, 0x48u8, 0x00u8, 0x00u8, 0x00u8, 0x4bu8, 0x8bu8, 0x3cu8, 0x3eu8, 0x48u8, 0xc7u8, 0xc6u8, 0x03u8, 0x00u8, 0x00u8, 0x00u8, 0x48u8, 0xc7u8, 0xc2u8, 0x00u8, 0x00u8, 0x00u8, 0x00u8, 0x0fu8, 0x05u8, 0x48u8, 0x89u8, 0xc6u8, 0x48u8, 0xc7u8, 0xc0u8, 0x02u8, 0x00u8, 0x00u8, 0x00u8, 0x48u8, 0x8du8, 0x3du8]
}

/// The code between the string-table and case-length displacements: the rest
/// of `open`, then `dup2`, `close` and the stride.
pub open spec fn code_c() -> Seq<u8> {
    seq![0x4bu8, 0x03u8, 0x7cu8, 0x3eu8, 0x08u8, 0x0fu8, 0x05u8, 0x50u8, 0x48u8, 0x89u8, 0xc7u8, 0x48u8, 0xc7u8, 0xc0u8, 0x21u8, 0x00u8, 0x00u8, 0x00u8, 0x4bu8, 0x8bu8, 0x34u8, 0x3eu8, 0x0fu8, 0x05u8, 0x48u8, 0xc7u8, 0xc0u8, 0x03u8, 0x00u8, 0x00u8, 0x00u8, 0x5fu8, 0x0fu8, 0x05u8, 0x49u8, 0x83u8, 0xc7u8, 0x10u8, 0x4cu8, 0x8bu8, 0x2du8]
}

/// The loop test and the closing debug trap.
pub open spec fn code_d() -> Seq<u8> {
    seq![0x4du8, 0x39u8, 0xefu8, 0x0fu8, 0x82u8, 0x9eu8, 0xffu8, 0xffu8, 0xffu8, 0xccu8]
}

/// The whole code section: the fixed template with its three patched
/// RIP-relative displacements - back to the case array (`d_cases`), to the
/// string table (`d_paths`) and to the stored case-array length (`d_len`).
pub open spec fn code_bytes(d_cases: u32, d_paths: u32, d_len: u32) -> Seq<u8> {
    code_a() + le32(d_cases) + code_b() + le32(d_paths) + code_c() + le32(d_len) + code_d()
}

/// Where execution starts inside the payload: right after the static data.
pub open spec fn payload_entry(cs: Seq<(u64, u64)>, table: Seq<u8>) -> int {
    16 * cs.len() as int + 8 + table.len() as int
}

/// The whole payload: case records, their byte length as a 64-bit word, the
/// string table, then the code, contiguous and in this order.
pub open spec fn payload_spec(cs: Seq<(u64, u64)>, table: Seq<u8>) -> Seq<u8> {
    cases_bytes(cs) + le64((16 * cs.len()) as u64) + table + code_bytes(
        neg32(16 * cs.len() as int + table.len() as int + 18),
        neg32(table.len() as int + 59),
        neg32(table.len() as int + 112),
    )
}

/// Append the little-endian bytes of a 64-bit word.
fn push_le64(out: &mut Vec<u8>, v: u64)
    ensures
        final(out)@ == old(out)@ + le64(v),
{
    proof {
        assert((v & 0xff) < 256 && ((v >> 8) & 0xff) < 256 && ((v >> 16) & 0xff) < 256
            && ((v >> 24) & 0xff) < 256 && ((v >> 32) & 0xff) < 256
            && ((v >> 40) & 0xff) < 256 && ((v >> 48) & 0xff) < 256
            && ((v >> 56) & 0xff) < 256) by (bit_vector);
    }
    out.push((v & 0xff) as u8);
    out.push(((v >> 8) & 0xff) as u8);
    out.push(((v >> 16) & 0xff) as u8);
    out.push(((v >> 24) & 0xff) as u8);
    out.push(((v >> 32) & 0xff) as u8);
    out.push(((v >> 40) & 0xff) as u8);
    out.push(((v >> 48) & 0xff) as u8);
    out.push(((v >> 56) & 0xff) as u8);
    proof {
        assert(final(out)@ =~= old(out)@ + le64(v));
    }
}

/// Append the little-endian bytes of a 32-bit word.
fn push_le32(out: &mut Vec<u8>, v: u32)
    ensures
        final(out)@ == old(out)@ + le32(v),
{
    proof {
        assert((v & 0xff) < 256 && ((v >> 8) & 0xff) < 256 && ((v >> 16) & 0xff) < 256
            && ((v >> 24) & 0xff) < 256) by (bit_vector);
    }
    out.push((v & 0xff) as u8);
    out.push(((v >> 8) & 0xff) as u8);
    out.push(((v >> 16) & 0xff) as u8);
    out.push(((v >> 24) & 0xff) as u8);
    proof {
        assert(final(out)@ =~= old(out)@ + le32(v));
    }
}

/// The displacement `-m`, computed as an unsigned 32-bit word.
fn neg32_exec(m: usize) -> (r: u32)
    requires
        1 <= m <= 0x7fff_ffff,
    ensures
        r == neg32(m as int),
{
    let v: u64 = 0x1_0000_0000u64 - (m as u64);
    v as u32
}


/// Append the fixed template chunk `code_a`.
fn push_code_a(out: &mut Vec<u8>)
    ensures
        final(out)@ == old(out)@ + code_a(),
{
    out.push(0x4d);
    out.push(0x31);
    out.push(0xff);
    out.push(0x4c);
    out.push(0x8d);
    out.push(0x35);
    proof {
        assert(final(out)@ =~= old(out)@ + code_a());
    }
}

/// Append the fixed template chunk `code_b`.
fn push_code_b(out: &mut Vec<u8>)
    ensures
        final(out)@ == old(out)@ + code_b(),
{
    out.push(0xe9);
    out.push(0x52);
    out.push(0x00);
    out.push(0x00);
    out.push(0x00);
    out.push(0x48);
    out.push(0xc7);
    out.push(0xc0);
    out.push(0x48);
    out.push(0x00);
    out.push(0x00);
    out.push(0x00);
    out.push(0x4b);
    out.push(0x8b);
    out.push(0x3c);
    out.push(0x3e);
    out.push(0x48);
    out.push(0xc7);
    out.push(0xc6);
    out.push(0x03);
    out.push(0x00);
    out.push(0x00);
    out.push(0x00);
    out.push(0x48);
    out.push(0xc7);
    out.push(0xc2);
    out.push(0x00);
    out.push(0x00);
    out.push(0x00);
    out.push(0x00);
    out.push(0x0f);
    out.push(0x05);
    out.push(0x48);
    out.push(0x89);
    out.push(0xc6);
    out.push(0x48);
    out.push(0xc7);
    out.push(0xc0);
    out.push(0x02);
    out.push(0x00);
    out.push(0x00);
    out.push(0x00);
    out.push(0x48);
    out.push(0x8d);
    out.push(0x3d);
    proof {
        assert(final(out)@ =~= old(out)@ + code_b());
    }
}

/// Append the fixed template chunk `code_c`.
fn push_code_c(out: &mut Vec<u8>)
    ensures
        final(out)@ == old(out)@ + code_c(),
{
    out.push(0x4b);
    out.push(0x03);
    out.push(0x7c);
    out.push(0x3e);
    out.push(0x08);
    out.push(0x0f);
    out.push(0x05);
    out.push(0x50);
    out.push(0x48);
    out.push(0x89);
    out.push(0xc7);
    out.push(0x48);
    out.push(0xc7);
    out.push(0xc0);
    out.push(0x21);
    out.push(0x00);
    out.push(0x00);
    out.push(0x00);
    out.push(0x4b);
    out.push(0x8b);
    out.push(0x34);
    out.push(0x3e);
    out.push(0x0f);
    out.push(0x05);
    out.push(0x48);
    out.push(0xc7);
    out.push(0xc0);
    out.push(0x03);
    out.push(0x00);
    out.push(0x00);
    out.push(0x00);
    out.push(0x5f);
    out.push(0x0f);
    out.push(0x05);
    out.push(0x49);
    out.push(0x83);
    out.push(0xc7);
    out.push(0x10);
    out.push(0x4c);
    out.push(0x8b);
    out.push(0x2d);
    proof {
        assert(final(out)@ =~= old(out)@ + code_c());
    }
}

/// Append the fixed template chunk `code_d`.
fn push_code_d(out: &mut Vec<u8>)
    ensures
        final(out)@ == old(out)@ + code_d(),
{
    out.push(0x4d);
    out.push(0x39);
    out.push(0xef);
    out.push(0x0f);
    out.push(0x82);
    out.push(0x9e);
    out.push(0xff);
    out.push(0xff);
    out.push(0xff);
    out.push(0xcc);
    proof {
        assert(final(out)@ =~= old(out)@ + code_d());
    }
}

/// Append the whole code section with its three patched displacements.
fn push_code(out: &mut Vec<u8>, d_cases: u32, d_paths: u32, d_len: u32)
    ensures
        final(out)@ == old(out)@ + code_bytes(d_cases, d_paths, d_len),
{
    push_code_a(out);
    push_le32(out, d_cases);
    proof {
        assert(out@ =~= old(out)@ + (code_a() + le32(d_cases)));
    }
    push_code_b(out);
    push_le32(out, d_paths);
    proof {
        assert(out@ =~= old(out)@ + (code_a() + le32(d_cases) + code_b() + le32(d_paths)));
    }
    push_code_c(out);
    push_le32(out, d_len);
    push_code_d(out);
    proof {
        assert(final(out)@ =~= old(out)@ + code_bytes(d_cases, d_paths, d_len));
    }
}

/// Build the payload for one victim: the entry offset and the bytes. The
/// result is exactly `payload_spec` of the cases and the string table.
pub fn build_payload(cases: &Vec<ReplaceCase>, new_paths: &Vec<u8>) -> (r: (u64, Vec<u8>))
    requires
        16 * cases@.len() + new_paths@.len() + 130 <= 0x7fff_ffff,
    ensures
        ({
            let cs = cases@.map_values(|c: ReplaceCase| c@);
            &&& r.0 as int == payload_entry(cs, new_paths@)
            &&& r.1@ == payload_spec(cs, new_paths@)
        }),
{
    let ghost cs = cases@.map_values(|c: ReplaceCase| c@);
    let mut out: Vec<u8> = Vec::new();

    // The packed case records.
    let n = cases.len();
    let mut i: usize = 0;
    while i < n
        invariant
            n == cases@.len(),
            cs == cases@.map_values(|c: ReplaceCase| c@),
            0 <= i <= n,
            out@ == cases_bytes(cs.subrange(0, i as int)),
        decreases n - i,
    {
        let c = &cases[i];
        push_le64(&mut out, c.fd);
        push_le64(&mut out, c.new_path_offset);
        proof {
            assert(cs.subrange(0, i + 1) =~= cs.subrange(0, i as int).push(cs[i as int]));
            lemma_cases_bytes_snoc(cs.subrange(0, i as int), cs[i as int]);
            assert(cs[i as int] == (c.fd, c.new_path_offset));
            assert(out@ =~= cases_bytes(cs.subrange(0, i + 1)));
        }
        i += 1;
    }
    proof {
        assert(cs.subrange(0, n as int) =~= cs);
    }

    // The byte length of the case array, as the payload's loop bound.
    let cb: usize = 16 * n;
    push_le64(&mut out, cb as u64);
    let ghost head = cases_bytes(cs) + le64((16 * cs.len()) as u64);
    proof {
        assert(out@ =~= head);
    }

    // The string table.
    let t = new_paths.len();
    let mut k: usize = 0;
    while k < t
        invariant
            t == new_paths@.len(),
            0 <= k <= t,
            out@ == head + new_paths@.subrange(0, k as int),
        decreases t - k,
    {
        out.push(new_paths[k]);
        proof {
            assert(out@ =~= head + new_paths@.subrange(0, k + 1));
        }
        k += 1;
    }
    proof {
        assert(new_paths@.subrange(0, t as int) =~= new_paths@);
    }
    let ghost head2 = head + new_paths@;
    proof {
        assert(out@ =~= head2);
    }

    // The three patched displacements.
    let d_cases = neg32_exec(cb + t + 18);
    let d_paths = neg32_exec(t + 59);
    let d_len = neg32_exec(t + 112);

    // The code template.
    push_code(&mut out, d_cases, d_paths, d_len);
    proof {
        assert(out@ =~= head2 + code_bytes(d_cases, d_paths, d_len));
        assert(d_cases == neg32(16 * cs.len() as int + new_paths@.len() as int + 18));
        assert(d_paths == neg32(new_paths@.len() as int + 59));
        assert(d_len == neg32(new_paths@.len() as int + 112));
        assert(out@ =~= payload_spec(cs, new_paths@));
    }

    let entry: u64 = (cb + 8 + t) as u64;
    (entry, out)
}

/// The payload's layout: the case records sit at offset zero, their byte
/// length follows them, then the string table, then the code; execution
/// starts at the code, and the last byte is the debug trap that signals
/// completion.
pub proof fn lemma_payload_layout(cs: Seq<(u64, u64)>, table: Seq<u8>)
    ensures
        payload_spec(cs, table).len() == payload_entry(cs, table) + 114,
        payload_spec(cs, table).subrange(0, 16 * cs.len() as int) == cases_bytes(cs),
        payload_spec(cs, table).subrange(
            16 * cs.len() as int,
            16 * cs.len() as int + 8,
        ) == le64((16 * cs.len()) as u64),
        payload_spec(cs, table).subrange(
            16 * cs.len() as int + 8,
            payload_entry(cs, table),
        ) == table,
        payload_spec(cs, table).last() == 0xcc,
{
    let p = payload_spec(cs, table);
    lemma_cases_bytes_len(cs);
    assert(p.subrange(0, 16 * cs.len() as int) =~= cases_bytes(cs));
    assert(p.subrange(16 * cs.len() as int, 16 * cs.len() as int + 8)
        =~= le64((16 * cs.len()) as u64));
    assert(p.subrange(16 * cs.len() as int + 8, payload_entry(cs, table)) =~= table);
    assert(p.last() == code_d().last());
}

} // verus!
