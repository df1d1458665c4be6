//! Value Deriver: turns the one external configuration parameter into the
//! replacement values a patch profile writes.

use vstd::prelude::*;

verus! {

/// Offset folded into the scaled limit; fixed by the host executable's layout.
pub const BASE_CONSTANT: u32 = 4;

/// Per-client stride of the scaled limit; fixed by the host executable's layout.
pub const STRIDE_CONSTANT: u32 = 0x140060;

/// Client counts at or below this floor leave the host unpatched.
pub const CLIENT_FLOOR: u32 = 2;

pub open spec fn is_dec_digit(b: u8) -> bool {
    48 <= b && b <= 57
}

pub open spec fn digit_val(b: u8) -> nat
    recommends
        is_dec_digit(b),
{
    (b - 48) as nat
}

pub open spec fn all_dec_digits(s: Seq<u8>) -> bool {
    forall|i: int| 0 <= i < s.len() ==> is_dec_digit(s[i])
}

/// Value of a string of decimal digits, most significant first.
pub open spec fn dec_value(s: Seq<u8>) -> nat
    decreases s.len(),
{
    if s.len() == 0 {
        0
    } else {
        dec_value(s.drop_last()) * 10 + digit_val(s.last())
    }
}

/// The digits of the text, after an optional leading plus sign.
pub open spec fn digits_part(s: Seq<u8>) -> Seq<u8> {
    if s.len() > 0 && s[0] == 43 {
        s.drop_first()
    } else {
        s
    }
}

/// Whether the text is a decimal rendering of a 32-bit unsigned integer.
pub open spec fn parses_as_u32(s: Seq<u8>) -> bool {
    &&& digits_part(s).len() > 0
    &&& all_dec_digits(digits_part(s))
    &&& dec_value(digits_part(s)) <= u32::MAX
}

pub open spec fn spec_parse_u32(s: Seq<u8>) -> Option<u32> {
    if parses_as_u32(s) {
        Some(dec_value(digits_part(s)) as u32)
    } else {
        None
    }
}

proof fn lemma_dec_value_take_le(s: Seq<u8>, k: int)
    requires
        0 <= k <= s.len(),
    ensures
        dec_value(s.take(k)) <= dec_value(s),
    decreases s.len(),
{
    if k == s.len() {
        assert(s.take(k) =~= s);
    } else {
        assert(s.drop_last().take(k) =~= s.take(k));
        lemma_dec_value_take_le(s.drop_last(), k);
    }
}

/// Parses a decimal rendering of a 32-bit unsigned integer, with an
/// optional leading plus sign; anything else (empty, other characters,
/// a value past `u32::MAX`) is rejected.
pub fn parse_u32(s: &Vec<u8>) -> (r: Option<u32>)
    ensures
        r == spec_parse_u32(s@),
{
    let ghost d = digits_part(s@);
    let start: usize = if s.len() > 0 && s[0] == 43 {
        1
    } else {
        0
    };
    proof {
        assert(d =~= s@.skip(start as int));
    }
    if s.len() == start {
        return None;
    }
    let mut acc: u32 = 0;
    let mut i: usize = start;
    while i < s.len()
        invariant
            start <= i <= s@.len(),
            d == digits_part(s@),
            d == s@.skip(start as int),
            d.len() == s@.len() - start,
            forall|j: int| 0 <= j < i - start ==> is_dec_digit(d[j]),
            acc == dec_value(d.take(i - start)),
        decreases s@.len() - i,
    {
        let b = s[i];
        proof {
            assert(d[i - start] == s@[i as int]);
        }
        if b < 48 || b > 57 {
            proof {
                assert(!is_dec_digit(d[i - start]));
                assert(!all_dec_digits(d));
                assert(spec_parse_u32(s@) is None);
            }
            return None;
        }
        let digit: u32 = (b - 48) as u32;
        proof {
            assert(d.take(i - start + 1).drop_last() =~= d.take(i - start));
            assert(d.take(i - start + 1).last() == d[i - start]);
        }
        if acc > (u32::MAX - digit) / 10 {
            proof {
                assert(dec_value(d.take(i - start + 1)) == acc * 10 + digit);
                assert(acc * 10 + digit > u32::MAX) by {
                    vstd::arithmetic::div_mod::lemma_fundamental_div_mod(
                        (u32::MAX - digit) as int,
                        10,
                    );
                };
                lemma_dec_value_take_le(d, i - start + 1);
                assert(dec_value(d) > u32::MAX);
                assert(spec_parse_u32(s@) is None);
            }
            return None;
        }
        acc = acc * 10 + digit;
        i += 1;
    }
    proof {
        assert(d.take(s@.len() - start) =~= d);
    }
    Some(acc)
}

/// Configuration as seen by the runner: `None` when the text is absent,
/// not a number, or at or below the floor.
pub open spec fn spec_client_num(text: Option<Seq<u8>>) -> Option<u32> {
    match text {
        Option::None => Option::None,
        Option::Some(s) => match spec_parse_u32(s) {
            Option::None => Option::None,
            Option::Some(n) => if n > CLIENT_FLOOR {
                Option::Some(n)
            } else {
                Option::None
            },
        },
    }
}

pub open spec fn view_text(text: Option<&Vec<u8>>) -> Option<Seq<u8>> {
    match text {
        Option::None => Option::None,
        Option::Some(v) => Option::Some(v@),
    }
}

/// Reads the configuration parameter out of the raw environment text:
/// any failure, and any count at or below the floor, means "not
/// configured".
pub fn client_num_from_text(text: Option<&Vec<u8>>) -> (r: Option<u32>)
    ensures
        r == spec_client_num(view_text(text)),
        r matches Some(n) ==> n > CLIENT_FLOOR,
{
    match text {
        Option::None => Option::None,
        Option::Some(s) => match parse_u32(s) {
            Option::None => Option::None,
            Option::Some(n) => if n > CLIENT_FLOOR {
                Option::Some(n)
            } else {
                Option::None
            },
        },
    }
}

/// The three replacement values a profile writes.
#[derive(Clone, Copy, Debug, PartialEq, Eq, Structural)]
pub struct DerivedValues {
    pub scaled_limit: u32,
    pub raw_count: u32,
    pub raw_count_minus_one: u32,
}

/// The scaled limit, reduced to its low 32 bits as the 4-byte patch slot
/// stores it.
pub open spec fn spec_scaled_limit(client_num: u32) -> u32 {
    ((BASE_CONSTANT + STRIDE_CONSTANT * client_num) % 0x1_0000_0000) as u32
}

pub open spec fn spec_derive(client_num: u32) -> DerivedValues
    recommends
        client_num > CLIENT_FLOOR,
{
    DerivedValues {
        scaled_limit: spec_scaled_limit(client_num),
        raw_count: client_num,
        raw_count_minus_one: (client_num - 1) as u32,
    }
}

/// Derives the replacement values for a client count above the floor.
pub fn derive(client_num: u32) -> (r: DerivedValues)
    requires
        client_num > CLIENT_FLOOR,
    ensures
        r == spec_derive(client_num),
        r.raw_count == client_num,
        r.raw_count_minus_one == client_num - 1,
        r.scaled_limit == spec_scaled_limit(client_num),
{
    proof {
        assert(STRIDE_CONSTANT as u64 * (client_num as u64) <= 0x140060 * 0xFFFF_FFFF)
            by (nonlinear_arith);
    }
    let wide: u64 = BASE_CONSTANT as u64 + STRIDE_CONSTANT as u64 * client_num as u64;
    let scaled: u32 = (wide % 0x1_0000_0000) as u32;
    DerivedValues { scaled_limit: scaled, raw_count: client_num, raw_count_minus_one: client_num - 1 }
}

/// For every client count above the floor whose scaled limit fits in 32
/// bits, the derived values follow the documented formulas exactly:
/// `raw_count = n`, `raw_count_minus_one = n - 1`, and
/// `scaled_limit = BASE_CONSTANT + STRIDE_CONSTANT * n`.
pub proof fn lemma_derive_formula(client_num: u32)
    requires
        client_num > CLIENT_FLOOR,
        BASE_CONSTANT + STRIDE_CONSTANT * client_num <= u32::MAX,
    ensures
        spec_derive(client_num).raw_count == client_num,
        spec_derive(client_num).raw_count_minus_one == client_num - 1,
        spec_derive(client_num).scaled_limit == BASE_CONSTANT + STRIDE_CONSTANT * client_num,
{
    let x = BASE_CONSTANT + STRIDE_CONSTANT * client_num;
    vstd::arithmetic::div_mod::lemma_small_mod(x as nat, 0x1_0000_0000);
}

} // verus!
