//! Memory Patcher: guarded byte writes into a modeled span of the host's
//! address space.
//!
//! The span is held as plain bytes; the embedding layer performs the same
//! writes on the real pages.  The outcome of the page-protection change is
//! an event handed in by the caller, so every consequence of either
//! outcome is stated and proved here.

use vstd::prelude::*;

verus! {

/// One span of the host's address space: `bytes[i]` stands for the byte
/// at absolute address `base + i`.
pub struct MemoryImage {
    pub base: usize,
    pub bytes: Vec<u8>,
}

/// Little-endian byte image of a 32-bit value.
pub open spec fn u32_le_bytes(v: u32) -> Seq<u8> {
    let r1 = (v as nat) / 256;
    let r2 = r1 / 256;
    let r3 = r2 / 256;
    seq![
        ((v as nat) % 256) as u8,
        (r1 % 256) as u8,
        (r2 % 256) as u8,
        (r3 % 256) as u8,
    ]
}

/// Unsigned value of a little-endian byte string.
pub open spec fn le_value(s: Seq<u8>) -> nat
    decreases s.len(),
{
    if s.len() == 0 {
        0
    } else {
        s[0] as nat + 256 * le_value(s.drop_first())
    }
}

/// A 32-bit value survives the round trip through its byte image.
pub proof fn lemma_le_value_roundtrip(v: u32)
    ensures
        le_value(u32_le_bytes(v)) == v,
{
    let s = u32_le_bytes(v);
    let b0 = (v as nat) % 256;
    let r1 = (v as nat) / 256;
    let b1 = r1 % 256;
    let r2 = r1 / 256;
    let b2 = r2 % 256;
    let r3 = r2 / 256;
    let b3 = r3 % 256;
    vstd::arithmetic::div_mod::lemma_fundamental_div_mod(v as int, 256);
    vstd::arithmetic::div_mod::lemma_fundamental_div_mod(r1 as int, 256);
    vstd::arithmetic::div_mod::lemma_fundamental_div_mod(r2 as int, 256);
    assert(r3 < 256) by (nonlinear_arith)
        requires
            r3 == ((v as nat) / 256) / 256 / 256,
            v < 0x1_0000_0000,
    ;
    vstd::arithmetic::div_mod::lemma_small_mod(r3, 256);
    let s1 = seq![s[1], s[2], s[3]];
    let s2 = seq![s[2], s[3]];
    let s3 = seq![s[3]];
    assert(s.drop_first() =~= s1);
    assert(s1.drop_first() =~= s2);
    assert(s2.drop_first() =~= s3);
    assert(s3.drop_first() =~= Seq::<u8>::empty());
    assert(le_value(Seq::<u8>::empty()) == 0);
    assert(le_value(s3) == b3);
    assert(le_value(s2) == b2 + 256 * b3);
    assert(le_value(s1) == b1 + 256 * (b2 + 256 * b3));
    assert(le_value(s) == b0 + 256 * (b1 + 256 * (b2 + 256 * b3)));
}

/// A prefix of the byte image denotes the value's low bytes: a
/// `w`-byte write stores `v` reduced modulo `pow256(w)`, and a read of
/// those bytes yields that remainder.
pub proof fn lemma_le_bytes_take(v: u32, w: int)
    requires
        0 <= w <= 4,
    ensures
        le_value(u32_le_bytes(v).take(w)) == (v as int) % (pow256(w as nat) as int),
{
    let s = u32_le_bytes(v);
    let b0 = (v as nat) % 256;
    let r1 = (v as nat) / 256;
    let b1 = r1 % 256;
    let r2 = r1 / 256;
    let b2 = r2 % 256;
    let r3 = r2 / 256;
    vstd::arithmetic::div_mod::lemma_fundamental_div_mod(v as int, 256);
    vstd::arithmetic::div_mod::lemma_fundamental_div_mod(r1 as int, 256);
    vstd::arithmetic::div_mod::lemma_fundamental_div_mod(r2 as int, 256);
    assert(r3 < 256) by (nonlinear_arith)
        requires
            r3 == ((v as nat) / 256) / 256 / 256,
            v < 0x1_0000_0000,
    ;
    vstd::arithmetic::div_mod::lemma_small_mod(r3, 256);
    assert(pow256(0) == 1);
    assert(pow256(1) == 256);
    assert(pow256(2) == 0x1_0000);
    assert(pow256(3) == 0x100_0000);
    assert(pow256(4) == 0x1_0000_0000);
    if w == 0 {
        assert(s.take(0) =~= Seq::<u8>::empty());
        vstd::arithmetic::div_mod::lemma_fundamental_div_mod_converse(v as int, 1, v as int, 0);
    } else if w == 1 {
        assert(s.take(1) =~= seq![s[0]]);
        assert(seq![s[0]].drop_first() =~= Seq::<u8>::empty());
        assert(le_value(Seq::<u8>::empty()) == 0);
        assert(le_value(seq![s[0]]) == b0);
        assert(le_value(s.take(1)) == b0);
    } else if w == 2 {
        assert(s.take(2) =~= seq![s[0], s[1]]);
        assert(seq![s[0], s[1]].drop_first() =~= seq![s[1]]);
        assert(seq![s[1]].drop_first() =~= Seq::<u8>::empty());
        assert(le_value(Seq::<u8>::empty()) == 0);
        assert(le_value(seq![s[1]]) == b1);
        assert(le_value(seq![s[0], s[1]]) == b0 + 256 * b1);
        assert(le_value(s.take(2)) == b0 + 256 * b1);
        vstd::arithmetic::div_mod::lemma_fundamental_div_mod_converse(
            v as int,
            0x1_0000,
            r2 as int,
            (b0 + 256 * b1) as int,
        );
    } else if w == 3 {
        assert(s.take(3) =~= seq![s[0], s[1], s[2]]);
        assert(seq![s[0], s[1], s[2]].drop_first() =~= seq![s[1], s[2]]);
        assert(seq![s[1], s[2]].drop_first() =~= seq![s[2]]);
        assert(seq![s[2]].drop_first() =~= Seq::<u8>::empty());
        assert(le_value(Seq::<u8>::empty()) == 0);
        assert(le_value(seq![s[2]]) == b2);
        assert(le_value(seq![s[1], s[2]]) == b1 + 256 * b2);
        assert(le_value(seq![s[0], s[1], s[2]]) == b0 + 256 * (b1 + 256 * b2));
        assert(le_value(s.take(3)) == b0 + 256 * (b1 + 256 * b2));
        vstd::arithmetic::div_mod::lemma_fundamental_div_mod_converse(
            v as int,
            0x100_0000,
            r3 as int,
            (b0 + 256 * b1 + 0x1_0000 * b2) as int,
        );
    } else {
        assert(s.take(4) =~= s);
        lemma_le_value_roundtrip(v);
        vstd::arithmetic::div_mod::lemma_small_mod(v as nat, 0x1_0000_0000);
    }
}

/// Round trip through the span: a full-width write leaves exactly the
/// value's byte image in its slot, so reading the slot back yields the
/// written value.
pub proof fn lemma_write_then_read(bytes: Seq<u8>, off: int, value: u32)
    requires
        0 <= off,
        off + 4 <= bytes.len(),
    ensures
        write_spec(bytes, off, value, 4).subrange(off, off + 4) == u32_le_bytes(value),
        le_value(write_spec(bytes, off, value, 4).subrange(off, off + 4)) == value,
{
    assert(write_spec(bytes, off, value, 4).subrange(off, off + 4) =~= u32_le_bytes(value));
    lemma_le_value_roundtrip(value);
}

/// Builds the 4-byte little-endian image of a value.
pub fn value_bytes(v: u32) -> (r: Vec<u8>)
    ensures
        r@ == u32_le_bytes(v),
        r@.len() == 4,
{
    let mut r: Vec<u8> = Vec::new();
    let x1: u32 = v / 256;
    let x2: u32 = x1 / 256;
    let x3: u32 = x2 / 256;
    r.push((v % 256) as u8);
    r.push((x1 % 256) as u8);
    r.push((x2 % 256) as u8);
    r.push((x3 % 256) as u8);
    proof {
        assert(r@ =~= u32_le_bytes(v));
    }
    r
}

/// Start of the memory page containing `addr`, for a page size of
/// `page_size` bytes.
pub fn page_base(addr: usize, page_size: usize) -> (r: usize)
    requires
        page_size > 0,
    ensures
        r == addr - (addr % page_size),
        r <= addr,
        addr < r + page_size,
{
    proof {
        vstd::arithmetic::div_mod::lemma_mod_decreases(addr as nat, page_size as nat);
    }
    addr - addr % page_size
}

/// Byte image of `bytes` after the low `width` bytes of `value` are
/// copied at offset `off`.
pub open spec fn write_spec(bytes: Seq<u8>, off: int, value: u32, width: int) -> Seq<u8> {
    Seq::new(
        bytes.len(),
        |i: int|
            if off <= i < off + width {
                u32_le_bytes(value)[i - off]
            } else {
                bytes[i]
            },
    )
}

/// What one guarded write reports: whether it went through, and the start
/// of the page whose protection was to be changed.
#[derive(Clone, Copy, Debug, PartialEq, Eq, Structural)]
pub struct WriteOutcome {
    pub ok: bool,
    pub page_start: usize,
}

/// One guarded write of the low `width` bytes of `value` at absolute
/// address `addr`.
///
/// `prot_ok` is the outcome of the protection change on the page
/// containing `addr` (the real change is made by the embedding layer; the
/// page stays writable afterwards).  A failed change leaves the span
/// untouched and reports failure; a successful one is followed by the
/// byte copy, which overwrites exactly `[addr, addr + width)` and nothing
/// else.
pub fn safe_write(
    mem: &mut MemoryImage,
    addr: usize,
    value: u32,
    width: usize,
    page_size: usize,
    prot_ok: bool,
) -> (r: WriteOutcome)
    requires
        page_size > 0,
        1 <= width <= 4,
        old(mem).base <= addr,
        addr - old(mem).base + width <= old(mem).bytes@.len(),
        addr % page_size + width <= page_size,
    ensures
        final(mem).base == old(mem).base,
        final(mem).bytes@.len() == old(mem).bytes@.len(),
        r.page_start == addr - (addr % page_size),
        r.ok == prot_ok,
        !prot_ok ==> final(mem).bytes@ == old(mem).bytes@,
        prot_ok ==> final(mem).bytes@ == write_spec(
            old(mem).bytes@,
            addr - old(mem).base,
            value,
            width as int,
        ),
{
    let page_start = page_base(addr, page_size);
    if !prot_ok {
        return WriteOutcome { ok: false, page_start };
    }
    let off = addr - mem.base;
    let n = mem.bytes.len();
    let b = value_bytes(value);
    let mut i: usize = 0;
    while i < width
        invariant
            i <= width,
            1 <= width <= 4,
            n == old(mem).bytes@.len(),
            off + width <= n,
            b@ == u32_le_bytes(value),
            b@.len() == 4,
            mem.base == old(mem).base,
            mem.bytes@.len() == old(mem).bytes@.len(),
            off == addr - old(mem).base,
            off + width <= mem.bytes@.len(),
            forall|j: int| 0 <= j < i ==> mem.bytes@[off + j] == u32_le_bytes(value)[j],
            forall|j: int|
                0 <= j < mem.bytes@.len() && !(off <= j < off + i) ==> mem.bytes@[j] == old(
                    mem,
                ).bytes@[j],
        decreases width - i,
    {
        mem.bytes[off + i] = b[i];
        i += 1;
    }
    proof {
        assert(mem.bytes@ =~= write_spec(old(mem).bytes@, off as int, value, width as int));
    }
    WriteOutcome { ok: true, page_start }
}

/// Reads back the `width`-byte little-endian value at absolute address
/// `addr`.
pub fn read_le(mem: &MemoryImage, addr: usize, width: usize) -> (r: u32)
    requires
        1 <= width <= 4,
        mem.base <= addr,
        addr - mem.base + width <= mem.bytes@.len(),
    ensures
        r as nat == le_value(mem.bytes@.subrange(addr - mem.base, addr - mem.base + width)),
{
    let off = addr - mem.base;
    let n = mem.bytes.len();
    let mut r: u32 = 0;
    let mut k: usize = width;
    while k > 0
        invariant
            k <= width,
            1 <= width <= 4,
            mem.base <= addr,
            off == addr - mem.base,
            n == mem.bytes@.len(),
            off + width <= n,
            r as nat == le_value(mem.bytes@.subrange(off + k, off + width)),
            r < pow256((width - k) as nat),
        decreases k,
    {
        k = k - 1;
        let byte = mem.bytes[off + k];
        proof {
            let s = mem.bytes@.subrange(off + k, off + width);
            assert(s.drop_first() =~= mem.bytes@.subrange(off + k + 1, off + width));
            lemma_pow256_le_4((width - k) as nat);
        }
        r = byte as u32 + 256 * r;
        proof {
            lemma_le_value_bound(mem.bytes@.subrange(off + k, off + width));
        }
    }
    proof {
        assert(mem.bytes@.subrange(off as int, off + width) =~= mem.bytes@.subrange(
            off + k,
            off + width,
        ));
    }
    r
}

/// 256 raised to a small power; the count of byte strings of that length.
pub open spec fn pow256(n: nat) -> nat
    decreases n,
{
    if n == 0 {
        1
    } else {
        256 * pow256((n - 1) as nat)
    }
}

proof fn lemma_pow256_le_4(n: nat)
    requires
        n <= 4,
    ensures
        pow256(n) <= 0x1_0000_0000,
{
    assert(pow256(0) == 1);
    assert(pow256(1) == 256);
    assert(pow256(2) == 0x1_0000);
    assert(pow256(3) == 0x100_0000);
    assert(pow256(4) == 0x1_0000_0000);
}

/// A little-endian byte string of length `n` denotes a value below
/// `pow256(n)`.
pub proof fn lemma_le_value_bound(s: Seq<u8>)
    ensures
        le_value(s) < pow256(s.len()),
    decreases s.len(),
{
    if s.len() > 0 {
        lemma_le_value_bound(s.drop_first());
    }
}

} // verus!
