//! Patch profiles: the fixed tables of (address, value, width) writes,
//! one table per supported host executable variant.
//!
//! Addresses are absolute virtual addresses valid only in one specific
//! host build; the tables are data, not logic.

use vstd::prelude::*;
use crate::values::DerivedValues;

verus! {

/// The host executable variant a build patches.
#[derive(Clone, Copy, Debug, PartialEq, Eq, Structural)]
pub enum Profile {
    Channel,
    Bridge,
}

/// One unit of memory overwrite: `width` bytes of `value` at absolute
/// address `addr`.
#[derive(Clone, Copy, Debug, PartialEq, Eq, Structural)]
pub struct PatchEntry {
    pub addr: usize,
    pub value: u32,
    pub width: usize,
}

/// The fixed, ordered entry table of a profile, filled with the derived
/// values.
pub open spec fn spec_profile_entries(profile: Profile, v: DerivedValues) -> Seq<PatchEntry> {
    match profile {
        Profile::Channel => seq![
            PatchEntry { addr: 0x0805380D, value: v.scaled_limit, width: 4 },
            PatchEntry { addr: 0x0805381C, value: v.raw_count, width: 4 },
            PatchEntry { addr: 0x08053829, value: v.raw_count_minus_one, width: 4 },
            PatchEntry { addr: 0x080538A4, value: v.raw_count, width: 4 },
            PatchEntry { addr: 0x08053964, value: v.raw_count_minus_one, width: 4 },
        ],
        Profile::Bridge => seq![
            PatchEntry { addr: 0x08058207, value: v.scaled_limit, width: 4 },
            PatchEntry { addr: 0x08058216, value: v.raw_count, width: 4 },
            PatchEntry { addr: 0x08058223, value: v.raw_count_minus_one, width: 4 },
            PatchEntry { addr: 0x0805829E, value: v.raw_count, width: 4 },
            PatchEntry { addr: 0x0805835E, value: v.raw_count_minus_one, width: 4 },
        ],
    }
}

/// Builds the entry table of a profile, in its fixed order.
pub fn profile_entries(profile: Profile, v: &DerivedValues) -> (r: Vec<PatchEntry>)
    ensures
        r@ == spec_profile_entries(profile, *v),
        r@.len() == 5,
{
    let mut r: Vec<PatchEntry> = Vec::new();
    match profile {
        Profile::Channel => {
            r.push(PatchEntry { addr: 0x0805380D, value: v.scaled_limit, width: 4 });
            r.push(PatchEntry { addr: 0x0805381C, value: v.raw_count, width: 4 });
            r.push(PatchEntry { addr: 0x08053829, value: v.raw_count_minus_one, width: 4 });
            r.push(PatchEntry { addr: 0x080538A4, value: v.raw_count, width: 4 });
            r.push(PatchEntry { addr: 0x08053964, value: v.raw_count_minus_one, width: 4 });
        },
        Profile::Bridge => {
            r.push(PatchEntry { addr: 0x08058207, value: v.scaled_limit, width: 4 });
            r.push(PatchEntry { addr: 0x08058216, value: v.raw_count, width: 4 });
            r.push(PatchEntry { addr: 0x08058223, value: v.raw_count_minus_one, width: 4 });
            r.push(PatchEntry { addr: 0x0805829E, value: v.raw_count, width: 4 });
            r.push(PatchEntry { addr: 0x0805835E, value: v.raw_count_minus_one, width: 4 });
        },
    }
    proof {
        assert(r@ =~= spec_profile_entries(profile, *v));
    }
    r
}

} // verus!
