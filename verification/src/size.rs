//! Human-readable formatting of byte counts.
//!
//! A count below 1024 is rendered in whole bytes with no decimal; larger
//! counts are scaled by powers of 1024 up to terabytes and rendered with
//! exactly one (truncated) decimal digit.

use crate::strutil::dec_digits;
use crate::strutil::decimal_string;
use vstd::prelude::*;
use vstd::string::*;

verus! {

/// 1024 raised to the `k`-th power.
pub open spec fn pow1024(k: nat) -> nat
    decreases k,
{
    if k == 0 {
        1
    } else {
        1024 * pow1024((k - 1) as nat)
    }
}

proof fn lemma_pow1024_mono(j: nat, k: nat)
    requires
        j <= k,
    ensures
        pow1024(j) <= pow1024(k),
        pow1024(k) >= 1,
    decreases k,
{
    if k > 0 {
        if j <= k - 1 {
            lemma_pow1024_mono(j, (k - 1) as nat);
        } else {
            lemma_pow1024_mono((k - 1) as nat, (k - 1) as nat);
        }
    }
}

proof fn lemma_pow1024_values()
    ensures
        pow1024(0) == 1,
        pow1024(1) == 1024,
        pow1024(2) == 0x10_0000,
        pow1024(3) == 0x4000_0000,
        pow1024(4) == 0x100_0000_0000,
{
    assert(pow1024(0) == 1);
    assert(pow1024(1) == 1024);
    assert(pow1024(2) == 0x10_0000);
    assert(pow1024(3) == 0x4000_0000);
    assert(pow1024(4) == 0x100_0000_0000);
}

/// The unit a count is displayed in: the largest unit, capped at terabytes,
/// whose whole part is nonzero.
pub open spec fn spec_size_unit_index(n: nat) -> nat {
    if n < pow1024(1) {
        0
    } else if n < pow1024(2) {
        1
    } else if n < pow1024(3) {
        2
    } else if n < pow1024(4) {
        3
    } else {
        4
    }
}

/// The display name of each unit.
pub open spec fn spec_size_unit(k: nat) -> Seq<char> {
    if k == 0 {
        "B"@
    } else if k == 1 {
        "KB"@
    } else if k == 2 {
        "MB"@
    } else if k == 3 {
        "GB"@
    } else {
        "TB"@
    }
}

/// The rendering of a byte count: the whole part in decimal, a single
/// truncated decimal digit for scaled values, and the unit name.
pub open spec fn spec_format_size(n: nat) -> Seq<char> {
    let k = spec_size_unit_index(n);
    if k == 0 {
        dec_digits(n) + " "@ + spec_size_unit(0)
    } else {
        let d = pow1024(k);
        dec_digits(n / d) + "."@ + dec_digits((n % d) * 10 / d) + " "@ + spec_size_unit(k)
    }
}

fn size_unit_str(k: usize) -> (r: &'static str)
    requires
        k <= 4,
    ensures
        r@ == spec_size_unit(k as nat),
{
    if k == 0 {
        "B"
    } else if k == 1 {
        "KB"
    } else if k == 2 {
        "MB"
    } else if k == 3 {
        "GB"
    } else {
        "TB"
    }
}

/// Formats a byte count for display, as in a directory listing's size
/// column.
pub fn format_file_size(size: u64) -> (r: String)
    ensures
        r@ == spec_format_size(size as nat),
{
    let mut unit: usize = 0;
    let mut div: u64 = 1;
    while size >= div * 1024 && unit < 4
        invariant
            unit <= 4,
            div == pow1024(unit as nat),
            unit > 0 ==> size as nat >= pow1024(unit as nat),
            div <= 0x100_0000_0000,
        decreases 4 - unit,
    {
        proof {
            lemma_pow1024_values();
            lemma_pow1024_mono((unit + 1) as nat, 4);
        }
        div = div * 1024;
        unit = unit + 1;
    }
    proof {
        lemma_pow1024_mono(0, unit as nat);
        if unit < 4 {
            assert(pow1024(unit as nat + 1) == 1024 * pow1024(unit as nat));
            assert((size as nat) < pow1024(unit as nat + 1));
        }
        lemma_pow1024_mono(1, 2);
        lemma_pow1024_mono(2, 3);
        lemma_pow1024_mono(3, 4);
        assert(unit as nat == spec_size_unit_index(size as nat));
    }
    if unit == 0 {
        let r = decimal_string(size).concat(" ").concat("B");
        proof {
            assert(r@ =~= spec_format_size(size as nat));
        }
        r
    } else {
        let whole = size / div;
        let rem = size % div;
        let tenths = rem * 10 / div;
        let r = decimal_string(whole)
            .concat(".")
            .concat(decimal_string(tenths).as_str())
            .concat(" ")
            .concat(size_unit_str(unit));
        proof {
            assert(r@ =~= spec_format_size(size as nat));
        }
        r
    }
}

} // verus!
