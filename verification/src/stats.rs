//! Size statistics: decimal rendering of byte counts with unit suffixes and
//! the size-reduction percentage of a compression job.

use vstd::prelude::*;
use vstd::string::StringExecFns;
use crate::text::chars_to_string;

verus! {

pub const KB: u64 = 1024;

pub const MB: u64 = 1024 * 1024;

pub const GB: u64 = 1024 * 1024 * 1024;

/// The character for a single decimal digit.
pub open spec fn digit_char(d: nat) -> char {
    if d == 0 {
        '0'
    } else if d == 1 {
        '1'
    } else if d == 2 {
        '2'
    } else if d == 3 {
        '3'
    } else if d == 4 {
        '4'
    } else if d == 5 {
        '5'
    } else if d == 6 {
        '6'
    } else if d == 7 {
        '7'
    } else if d == 8 {
        '8'
    } else {
        '9'
    }
}

/// The decimal digits of `n`, most significant first, with no leading zeros
/// (except for `n == 0`, which is rendered as "0").
pub open spec fn dec_digits(n: nat) -> Seq<char>
    decreases n,
{
    if n < 10 {
        seq![digit_char(n)]
    } else {
        dec_digits(n / 10).push(digit_char(n % 10))
    }
}

fn digit_to_char(d: u128) -> (c: char)
    requires
        d < 10,
    ensures
        c == digit_char(d as nat),
{
    if d == 0 {
        '0'
    } else if d == 1 {
        '1'
    } else if d == 2 {
        '2'
    } else if d == 3 {
        '3'
    } else if d == 4 {
        '4'
    } else if d == 5 {
        '5'
    } else if d == 6 {
        '6'
    } else if d == 7 {
        '7'
    } else if d == 8 {
        '8'
    } else {
        '9'
    }
}

/// The decimal digit characters of `n`, most significant first.
fn dec_chars(n: u128) -> (v: Vec<char>)
    ensures
        v@ == dec_digits(n as nat),
{
    let mut rev: Vec<char> = Vec::new();
    let mut cur: u128 = n;
    while cur >= 10
        invariant
            dec_digits(n as nat) == dec_digits(cur as nat) + rev@.reverse(),
        decreases cur,
    {
        let d = cur % 10;
        let ghost old_rev = rev@;
        rev.push(digit_to_char(d));
        proof {
            assert(rev@.reverse() =~= seq![digit_char((cur % 10) as nat)] + old_rev.reverse());
            assert(dec_digits((cur / 10) as nat) + rev@.reverse() =~= dec_digits(
                (cur / 10) as nat,
            ).push(digit_char((cur % 10) as nat)) + old_rev.reverse());
        }
        cur = cur / 10;
    }
    let ghost old_rev = rev@;
    rev.push(digit_to_char(cur));
    proof {
        assert(rev@.reverse() =~= seq![digit_char(cur as nat)] + old_rev.reverse());
        assert(dec_digits(cur as nat) =~= seq![digit_char(cur as nat)]);
    }
    let mut v: Vec<char> = Vec::new();
    let mut i: usize = rev.len();
    while i > 0
        invariant
            i <= rev.len(),
            v@ == rev@.subrange(i as int, rev@.len() as int).reverse(),
        decreases i,
    {
        i = i - 1;
        let ghost old_v = v@;
        v.push(rev[i]);
        proof {
            assert(v@ =~= rev@.subrange(i as int, rev@.len() as int).reverse());
        }
    }
    proof {
        assert(rev@.subrange(0, rev@.len() as int) =~= rev@);
        assert(v@ =~= dec_digits(n as nat));
    }
    v
}

/// `num / den`, rounded to the nearest integer, ties to the even neighbour.
pub open spec fn round_half_even(num: nat, den: nat) -> nat
    recommends
        den > 0,
{
    let q = num / den;
    let r = num % den;
    if 2 * r < den {
        q
    } else if 2 * r > den {
        q + 1
    } else if q % 2 == 0 {
        q
    } else {
        q + 1
    }
}

/// `size / unit` rendered with exactly two decimal places: the quotient is
/// scaled by 100 and rounded to the nearest integer (ties to even), then
/// printed as whole part, '.', and two fractional digits.
pub open spec fn scaled_chars(size: nat, unit: nat) -> Seq<char>
    recommends
        unit > 0,
{
    let s = round_half_even(size * 100, unit);
    dec_digits(s / 100) + seq!['.', digit_char((s % 100) / 10), digit_char((s % 100) % 10)]
}

/// The rendering of a byte count with a unit suffix: plain `bytes` below 1024,
/// and `KB`, `MB`, `GB` at successive 1024-byte boundaries, each with two
/// decimal places.
pub open spec fn spec_format_file_size(size: u64) -> Seq<char> {
    if size >= GB {
        scaled_chars(size as nat, GB as nat) + " GB"@
    } else if size >= MB {
        scaled_chars(size as nat, MB as nat) + " MB"@
    } else if size >= KB {
        scaled_chars(size as nat, KB as nat) + " KB"@
    } else {
        dec_digits(size as nat) + " bytes"@
    }
}

fn scaled_digit_chars(size: u64, unit: u64) -> (v: Vec<char>)
    requires
        unit > 0,
    ensures
        v@ == scaled_chars(size as nat, unit as nat),
{
    let num: u128 = size as u128 * 100;
    let den: u128 = unit as u128;
    let q: u128 = num / den;
    let r: u128 = num % den;
    let s: u128 = if 2 * r < den {
        q
    } else if 2 * r > den {
        q + 1
    } else if q % 2 == 0 {
        q
    } else {
        q + 1
    };
    assert(s == round_half_even((size * 100) as nat, unit as nat));
    let mut v = dec_chars(s / 100);
    v.push('.');
    let frac: u128 = s % 100;
    v.push(digit_to_char(frac / 10));
    v.push(digit_to_char(frac % 10));
    proof {
        assert(v@ =~= scaled_chars(size as nat, unit as nat));
    }
    v
}

/// A byte count as text with a unit suffix (`bytes`, `KB`, `MB` or `GB` at
/// 1024-byte boundaries, two decimal places for the scaled units).
pub fn format_file_size(size: u64) -> (r: String)
    ensures
        r@ == spec_format_file_size(size),
{
    if size >= GB {
        let v = scaled_digit_chars(size, GB);
        let mut out = chars_to_string(&v);
        out.append(" GB");
        out
    } else if size >= MB {
        let v = scaled_digit_chars(size, MB);
        let mut out = chars_to_string(&v);
        out.append(" MB");
        out
    } else if size >= KB {
        let v = scaled_digit_chars(size, KB);
        let mut out = chars_to_string(&v);
        out.append(" KB");
        out
    } else {
        let v = dec_chars(size as u128);
        let mut out = chars_to_string(&v);
        out.append(" bytes");
        out
    }
}

/// The size reduction of a job as an exact rational percentage `num / den`.
/// A job over zero original bytes has a reduction of zero by definition.
pub struct ReductionPercent {
    pub num: i128,
    pub den: u64,
}

impl ReductionPercent {
    /// The denominator is never zero.
    pub open spec fn wf(self) -> bool {
        self.den >= 1
    }
}

/// The reduction `(original - compressed) / original * 100` as an exact
/// rational, defined as zero when `original == 0`.
pub fn calculate_compression_ratio(original: u64, compressed: u64) -> (r: ReductionPercent)
    ensures
        r.wf(),
        r.den == (if original == 0 { 1u64 } else { original }),
        r.num as int == (if original == 0 { 0int } else { (original - compressed) * 100 }),
        original == 0 ==> r.num == 0,
        compressed <= original ==> 0 <= r.num && r.num <= 100 * (r.den as int),
        original > 0 && compressed > original ==> r.num < 0,
{
    if original == 0 {
        ReductionPercent { num: 0, den: 1 }
    } else {
        ReductionPercent { num: (original as i128 - compressed as i128) * 100, den: original }
    }
}

/// Aggregate byte totals of a job and its size reduction.
pub struct SizeStatistics {
    pub original_total_bytes: u64,
    pub compressed_total_bytes: u64,
    pub reduction: ReductionPercent,
}

/// The sum of the original sizes (first components).
pub open spec fn sum_original(pairs: Seq<(u64, u64)>) -> int
    decreases pairs.len(),
{
    if pairs.len() == 0 {
        0
    } else {
        sum_original(pairs.drop_last()) + pairs.last().0
    }
}

/// The sum of the compressed sizes (second components).
pub open spec fn sum_compressed(pairs: Seq<(u64, u64)>) -> int
    decreases pairs.len(),
{
    if pairs.len() == 0 {
        0
    } else {
        sum_compressed(pairs.drop_last()) + pairs.last().1
    }
}

/// A non-negative integer clamped into `u64`.
pub open spec fn sat64(n: int) -> u64
    recommends
        n >= 0,
{
    if n > u64::MAX {
        u64::MAX
    } else if n < 0 {
        0
    } else {
        n as u64
    }
}

fn sat_add(a: u64, b: u64) -> (r: u64)
    ensures
        r == sat64(a + b),
{
    if a > u64::MAX - b {
        u64::MAX
    } else {
        a + b
    }
}

/// The statistics of a job from its matched `(original, compressed)` size
/// pairs: both totals (saturating at `u64::MAX`) and the reduction percentage
/// of the totals.
pub fn compute_size_statistics(pairs: &Vec<(u64, u64)>) -> (s: SizeStatistics)
    ensures
        s.original_total_bytes == sat64(sum_original(pairs@)),
        s.compressed_total_bytes == sat64(sum_compressed(pairs@)),
        s.reduction.wf(),
        s.reduction.den == (if s.original_total_bytes == 0 {
            1u64
        } else {
            s.original_total_bytes
        }),
        s.reduction.num as int == (if s.original_total_bytes == 0 {
            0int
        } else {
            (s.original_total_bytes - s.compressed_total_bytes) * 100
        }),
{
    let mut original_total: u64 = 0;
    let mut compressed_total: u64 = 0;
    let mut i: usize = 0;
    while i < pairs.len()
        invariant
            i <= pairs.len(),
            original_total == sat64(sum_original(pairs@.take(i as int))),
            compressed_total == sat64(sum_compressed(pairs@.take(i as int))),
        decreases pairs.len() - i,
    {
        let (o, c) = pairs[i];
        proof {
            assert(pairs@.take(i + 1).drop_last() =~= pairs@.take(i as int));
            assert(pairs@.take(i + 1).last() == pairs@[i as int]);
            lemma_sum_original_nonneg(pairs@.take(i as int));
            lemma_sum_compressed_nonneg(pairs@.take(i as int));
        }
        original_total = sat_add(original_total, o);
        compressed_total = sat_add(compressed_total, c);
        i = i + 1;
    }
    proof {
        assert(pairs@.take(pairs@.len() as int) =~= pairs@);
    }
    let reduction = calculate_compression_ratio(original_total, compressed_total);
    SizeStatistics { original_total_bytes: original_total, compressed_total_bytes: compressed_total, reduction }
}

proof fn lemma_sum_original_nonneg(pairs: Seq<(u64, u64)>)
    ensures
        sum_original(pairs) >= 0,
    decreases pairs.len(),
{
    if pairs.len() > 0 {
        lemma_sum_original_nonneg(pairs.drop_last());
    }
}

proof fn lemma_sum_compressed_nonneg(pairs: Seq<(u64, u64)>)
    ensures
        sum_compressed(pairs) >= 0,
    decreases pairs.len(),
{
    if pairs.len() > 0 {
        lemma_sum_compressed_nonneg(pairs.drop_last());
    }
}

} // verus!
