//! Profile Runner: applies a profile's entries to the modeled span in
//! their fixed order, driven by the configuration text.

use vstd::prelude::*;
use crate::memory::MemoryImage;
use crate::memory::safe_write;
use crate::memory::write_spec;
use crate::profile::PatchEntry;
use crate::profile::Profile;
use crate::profile::profile_entries;
use crate::profile::spec_profile_entries;
use crate::values::DerivedValues;
use crate::values::client_num_from_text;
use crate::values::spec_client_num;
use crate::values::spec_derive;
use crate::values::view_text;

verus! {

/// Whether one entry lies inside the span and inside one protection page.
pub open spec fn entry_in_range(e: PatchEntry, base: int, len: int, page_size: int) -> bool {
    &&& 1 <= e.width <= 4
    &&& base <= e.addr
    &&& e.addr - base + e.width <= len
    &&& (e.addr as int) % page_size + e.width <= page_size
}

pub open spec fn entries_in_range(es: Seq<PatchEntry>, base: int, len: int, page_size: int) -> bool {
    forall|i: int| 0 <= i < es.len() ==> entry_in_range(es[i], base, len, page_size)
}

/// Bytes of the span after the entries are applied in order; `prot[i]`
/// is the outcome of the protection change for entry `i`, and a failed
/// entry writes nothing.
pub open spec fn apply_spec(bytes: Seq<u8>, base: int, es: Seq<PatchEntry>, prot: Seq<bool>) -> Seq<
    u8,
>
    decreases es.len(),
{
    if es.len() == 0 {
        bytes
    } else {
        let prev = apply_spec(bytes, base, es.drop_last(), prot.drop_last());
        if prot[es.len() - 1] {
            write_spec(prev, es.last().addr - base, es.last().value, es.last().width as int)
        } else {
            prev
        }
    }
}

/// The page starts of the entries whose protection change failed, in
/// entry order: the addresses the diagnostics name.
pub open spec fn spec_failed_pages(es: Seq<PatchEntry>, prot: Seq<bool>, page_size: int) -> Seq<
    usize,
>
    decreases es.len(),
{
    if es.len() == 0 {
        Seq::empty()
    } else {
        let rest = spec_failed_pages(es.drop_last(), prot.drop_last(), page_size);
        if !prot[es.len() - 1] {
            rest.push((es.last().addr - (es.last().addr as int % page_size)) as usize)
        } else {
            rest
        }
    }
}

/// Applying entries never changes the span's length.
pub proof fn lemma_apply_spec_len(bytes: Seq<u8>, base: int, es: Seq<PatchEntry>, prot: Seq<bool>)
    ensures
        apply_spec(bytes, base, es, prot).len() == bytes.len(),
    decreases es.len(),
{
    if es.len() > 0 {
        lemma_apply_spec_len(bytes, base, es.drop_last(), prot.drop_last());
    }
}

/// Applies each entry of the table in order, ignoring individual
/// failures; returns the page starts of the failed protection changes,
/// for the embedding layer's diagnostics.
pub fn run_profile(
    mem: &mut MemoryImage,
    entries: &Vec<PatchEntry>,
    prot: &Vec<bool>,
    page_size: usize,
) -> (failed_pages: Vec<usize>)
    requires
        page_size > 0,
        prot@.len() == entries@.len(),
        entries_in_range(
            entries@,
            old(mem).base as int,
            old(mem).bytes@.len() as int,
            page_size as int,
        ),
    ensures
        final(mem).base == old(mem).base,
        final(mem).bytes@.len() == old(mem).bytes@.len(),
        final(mem).bytes@ == apply_spec(old(mem).bytes@, old(mem).base as int, entries@, prot@),
        failed_pages@ == spec_failed_pages(entries@, prot@, page_size as int),
{
    let mut failed: Vec<usize> = Vec::new();
    let mut i: usize = 0;
    while i < entries.len()
        invariant
            i <= entries@.len(),
            page_size > 0,
            prot@.len() == entries@.len(),
            entries_in_range(
                entries@,
                old(mem).base as int,
                old(mem).bytes@.len() as int,
                page_size as int,
            ),
            mem.base == old(mem).base,
            mem.bytes@.len() == old(mem).bytes@.len(),
            mem.bytes@ == apply_spec(
                old(mem).bytes@,
                old(mem).base as int,
                entries@.take(i as int),
                prot@.take(i as int),
            ),
            failed@ == spec_failed_pages(entries@.take(i as int), prot@.take(i as int), page_size as int),
        decreases entries@.len() - i,
    {
        let e = entries[i];
        let r = safe_write(mem, e.addr, e.value, e.width, page_size, prot[i]);
        if !r.ok {
            failed.push(r.page_start);
        }
        proof {
            assert(entries@.take(i + 1).drop_last() =~= entries@.take(i as int));
            assert(prot@.take(i + 1).drop_last() =~= prot@.take(i as int));
            assert(entries@.take(i + 1).last() == entries@[i as int]);
            assert(prot@.take(i + 1)[i as int] == prot@[i as int]);
        }
        i += 1;
    }
    proof {
        assert(entries@.take(entries@.len() as int) =~= entries@);
        assert(prot@.take(entries@.len() as int) =~= prot@);
    }
    failed
}

/// Whether the entry writes the byte at offset `i` of the span.
pub open spec fn covers(e: PatchEntry, base: int, i: int) -> bool {
    e.addr - base <= i < e.addr - base + e.width
}

/// Whether some entry whose protection change went through writes the
/// byte at offset `i` of the span.
pub open spec fn covered(es: Seq<PatchEntry>, prot: Seq<bool>, base: int, i: int) -> bool {
    exists|j: int| 0 <= j < es.len() && prot[j] && covers(#[trigger] es[j], base, i)
}

proof fn lemma_apply_spec_byte_uncovered(
    bytes: Seq<u8>,
    base: int,
    es: Seq<PatchEntry>,
    prot: Seq<bool>,
    i: int,
)
    requires
        es.len() == prot.len(),
        0 <= i < bytes.len(),
        !covered(es, prot, base, i),
    ensures
        apply_spec(bytes, base, es, prot)[i] == bytes[i],
    decreases es.len(),
{
    if es.len() > 0 {
        let es1 = es.drop_last();
        let prot1 = prot.drop_last();
        assert(!covered(es1, prot1, base, i)) by {
            if covered(es1, prot1, base, i) {
                let j = choose|j: int|
                    0 <= j < es1.len() && prot1[j] && covers(#[trigger] es1[j], base, i);
                assert(prot[j] && covers(es[j], base, i));
            }
        };
        lemma_apply_spec_byte_uncovered(bytes, base, es1, prot1, i);
        lemma_apply_spec_len(bytes, base, es1, prot1);
        if prot[es.len() - 1] {
            assert(!covers(es.last(), base, i));
        }
    }
}

proof fn lemma_apply_spec_byte_covered(
    m1: Seq<u8>,
    m2: Seq<u8>,
    base: int,
    es: Seq<PatchEntry>,
    prot: Seq<bool>,
    i: int,
)
    requires
        es.len() == prot.len(),
        m1.len() == m2.len(),
        0 <= i < m1.len(),
        covered(es, prot, base, i),
    ensures
        apply_spec(m1, base, es, prot)[i] == apply_spec(m2, base, es, prot)[i],
    decreases es.len(),
{
    let es1 = es.drop_last();
    let prot1 = prot.drop_last();
    lemma_apply_spec_len(m1, base, es1, prot1);
    lemma_apply_spec_len(m2, base, es1, prot1);
    if !(prot[es.len() - 1] && covers(es.last(), base, i)) {
        assert(covered(es1, prot1, base, i)) by {
            let j = choose|j: int|
                0 <= j < es.len() && prot[j] && covers(#[trigger] es[j], base, i);
            assert(j != es.len() - 1);
            assert(prot1[j] && covers(es1[j], base, i));
        };
        lemma_apply_spec_byte_covered(m1, m2, base, es1, prot1, i);
    }
}

/// Applying a table of entries twice, with the same protection outcomes,
/// leaves the same bytes as applying it once: every write is a full
/// overwrite of its slot, never a relative update.
pub proof fn lemma_apply_idempotent(bytes: Seq<u8>, base: int, es: Seq<PatchEntry>, prot: Seq<bool>)
    requires
        es.len() == prot.len(),
    ensures
        apply_spec(apply_spec(bytes, base, es, prot), base, es, prot) == apply_spec(
            bytes,
            base,
            es,
            prot,
        ),
{
    let once = apply_spec(bytes, base, es, prot);
    let twice = apply_spec(once, base, es, prot);
    lemma_apply_spec_len(bytes, base, es, prot);
    lemma_apply_spec_len(once, base, es, prot);
    assert forall|i: int| 0 <= i < once.len() implies twice[i] == once[i] by {
        if covered(es, prot, base, i) {
            lemma_apply_spec_byte_covered(once, bytes, base, es, prot, i);
        } else {
            lemma_apply_spec_byte_uncovered(once, base, es, prot, i);
        }
    };
    assert(twice =~= once);
}

/// What one run of the hook did: whether patching was attempted, with
/// which client count, and which protection changes failed.
pub struct RunOutcome {
    pub patched: bool,
    pub client_num: u32,
    pub failed_pages: Vec<usize>,
}

/// The load-time hook, on the modeled span: reads the configuration from
/// the environment text, and either returns untouched (not configured)
/// or derives the patch values and applies the profile's table in order.
///
/// The embedding layer runs this exactly once per process load, before
/// any other thread exists, and prints one diagnostic per failed page
/// plus one summary line when `patched` is set.
pub fn run_hook(
    profile: Profile,
    env_text: Option<&Vec<u8>>,
    mem: &mut MemoryImage,
    prot: &Vec<bool>,
    page_size: usize,
) -> (r: RunOutcome)
    requires
        page_size > 0,
        prot@.len() == 5,
        forall|v: DerivedValues|
            entries_in_range(
                #[trigger] spec_profile_entries(profile, v),
                old(mem).base as int,
                old(mem).bytes@.len() as int,
                page_size as int,
            ),
    ensures
        final(mem).base == old(mem).base,
        final(mem).bytes@.len() == old(mem).bytes@.len(),
        r.patched == (spec_client_num(view_text(env_text)) is Some),
        spec_client_num(view_text(env_text)) is None ==> {
            &&& final(mem).bytes@ == old(mem).bytes@
            &&& r.failed_pages@ == Seq::<usize>::empty()
        },
        spec_client_num(view_text(env_text)) matches Some(n) ==> {
            &&& r.client_num == n
            &&& final(mem).bytes@ == apply_spec(
                old(mem).bytes@,
                old(mem).base as int,
                spec_profile_entries(profile, spec_derive(n)),
                prot@,
            )
            &&& r.failed_pages@ == spec_failed_pages(
                spec_profile_entries(profile, spec_derive(n)),
                prot@,
                page_size as int,
            )
        },
{
    match client_num_from_text(env_text) {
        Option::None => RunOutcome { patched: false, client_num: 0, failed_pages: Vec::new() },
        Option::Some(n) => {
            let v = crate::values::derive(n);
            let entries = profile_entries(profile, &v);
            let failed = run_profile(mem, &entries, prot, page_size);
            RunOutcome { patched: true, client_num: n, failed_pages: failed }
        },
    }
}

} // verus!
