//! CPU usage as exact fixed-point amounts.
//!
//! Usage is kept in millionths of a percent, so that sums are exact and
//! independent of the order of addition. A usage may also be "not a number":
//! the state a reading takes when the operating system reports an undefined
//! value.

use vstd::arithmetic::div_mod::lemma_basic_div;
use vstd::arithmetic::power2::lemma2_to64;
use vstd::arithmetic::power2::lemma_pow2_strictly_increases;
use vstd::arithmetic::power2::pow2;
use vstd::bits::lemma_u64_mul_pow2_le_max_iff_max_shr;
use vstd::bits::lemma_u64_shl_is_mul;
use vstd::bits::lemma_u64_shr_is_div;
use vstd::prelude::*;

verus! {

/// How many units of usage make one percent.
pub const UNITS_PER_PERCENT: u64 = 1_000_000;

/// The mathematical value of a usage: an amount in millionths of a percent,
/// or not a number.
pub enum Usage {
    NotANumber,
    Millionths(nat),
}

/// The sum of two usages. Not-a-number absorbs.
pub open spec fn usage_plus(a: Usage, b: Usage) -> Usage {
    match (a, b) {
        (Usage::Millionths(x), Usage::Millionths(y)) => Usage::Millionths(x + y),
        _ => Usage::NotANumber,
    }
}

/// Whether `a` ranks strictly above `b`: both are numbers and `a` is the
/// larger. A usage that is not a number neither ranks above nor below any
/// other.
pub open spec fn usage_outranks(a: Usage, b: Usage) -> bool {
    match (a, b) {
        (Usage::Millionths(x), Usage::Millionths(y)) => x > y,
        _ => false,
    }
}

/// Outranking is a strict order: no usage outranks itself, two usages never
/// outrank each other, and a usage outranks whatever is outranked by a usage
/// that it outranks.
pub proof fn lemma_outranks_is_strict(a: Usage, b: Usage, c: Usage)
    ensures
        !usage_outranks(a, a),
        usage_outranks(a, b) ==> !usage_outranks(b, a),
        usage_outranks(a, b) && usage_outranks(b, c) ==> usage_outranks(a, c),
{
}

/// A usage that is not a number is tied with every usage: it outranks none
/// and none outranks it.
pub proof fn lemma_not_a_number_is_tied(a: Usage)
    ensures
        !usage_outranks(Usage::NotANumber, a),
        !usage_outranks(a, Usage::NotANumber),
{
}

/// The amount of a usage, counting a usage that is not a number as zero.
pub open spec fn amount_of(u: Usage) -> nat {
    match u {
        Usage::Millionths(m) => m,
        Usage::NotANumber => 0,
    }
}

/// The sum of a sequence of usages: not a number if any term is, otherwise
/// the sum of the amounts.
pub open spec fn usage_sum(terms: Seq<Usage>) -> Usage
    decreases terms.len(),
{
    if terms.len() == 0 {
        Usage::Millionths(0)
    } else {
        usage_plus(usage_sum(terms.drop_last()), terms.last())
    }
}

/// The sum of the amounts of a sequence of usages, whether or not every term
/// is a number.
pub open spec fn amount_sum(terms: Seq<Usage>) -> nat
    decreases terms.len(),
{
    if terms.len() == 0 {
        0
    } else {
        amount_sum(terms.drop_last()) + amount_of(terms.last())
    }
}

/// A sum that is a number is the sum of the amounts.
pub proof fn lemma_usage_sum_amount(terms: Seq<Usage>)
    ensures
        usage_sum(terms) is Millionths ==> usage_sum(terms) == Usage::Millionths(
            amount_sum(terms),
        ),
        usage_sum(terms) is Millionths <==> forall|i: int|
            0 <= i < terms.len() ==> terms[i] is Millionths,
    decreases terms.len(),
{
    if terms.len() > 0 {
        let front = terms.drop_last();
        lemma_usage_sum_amount(front);
        if usage_sum(terms) is Millionths {
            assert forall|i: int| 0 <= i < terms.len() implies terms[i] is Millionths by {
                if i < front.len() {
                    assert(front[i] == terms[i]);
                }
            }
        }
    }
}

/// The sum of two sequences put together is the sum of their sums.
pub proof fn lemma_usage_sum_concat(left: Seq<Usage>, right: Seq<Usage>)
    ensures
        usage_sum(left + right) == usage_plus(usage_sum(left), usage_sum(right)),
    decreases right.len(),
{
    if right.len() == 0 {
    } else {
        lemma_usage_sum_concat(left, right.drop_last());
        assert((left + right).drop_last() =~= left + right.drop_last());
    }
}

/// Adding `extra` to one term of a sum adds it to the sum.
pub proof fn lemma_usage_sum_update(terms: Seq<Usage>, k: int, extra: Usage)
    requires
        0 <= k < terms.len(),
    ensures
        usage_sum(terms.update(k, usage_plus(terms[k], extra))) == usage_plus(
            usage_sum(terms),
            extra,
        ),
    decreases terms.len(),
{
    let changed = terms.update(k, usage_plus(terms[k], extra));
    if k == terms.len() - 1 {
        assert(changed.drop_last() =~= terms.drop_last());
    } else {
        lemma_usage_sum_update(terms.drop_last(), k, extra);
        assert(changed.drop_last() =~= terms.drop_last().update(
            k,
            usage_plus(terms.drop_last()[k], extra),
        ));
    }
}

/// The amounts of a prefix sum to no more than the amounts of the whole.
pub proof fn lemma_amount_sum_prefix(terms: Seq<Usage>, n: int)
    requires
        0 <= n <= terms.len(),
    ensures
        amount_sum(terms.take(n)) <= amount_sum(terms),
    decreases terms.len(),
{
    if n == terms.len() {
        assert(terms.take(n) =~= terms);
    } else {
        lemma_amount_sum_prefix(terms.drop_last(), n);
        assert(terms.drop_last().take(n) =~= terms.take(n));
    }
}

/// Amounts that are each at most `bound` sum to at most `bound` for every
/// term.
pub proof fn lemma_amount_sum_bound(terms: Seq<Usage>, bound: nat)
    requires
        forall|i: int| 0 <= i < terms.len() ==> amount_of(#[trigger] terms[i]) <= bound,
    ensures
        amount_sum(terms) <= terms.len() * bound,
    decreases terms.len(),
{
    if terms.len() > 0 {
        let front = terms.drop_last();
        lemma_amount_sum_bound(front, bound);
        assert(terms.len() * bound == front.len() * bound + bound) by (nonlinear_arith)
            requires
                terms.len() == front.len() + 1,
        ;
    }
}

/// The instantaneous CPU usage of one process.
#[derive(Clone, Copy, Debug, PartialEq, Eq, Structural)]
pub enum CpuReading {
    NotANumber,
    Millionths(u64),
}

impl View for CpuReading {
    type V = Usage;

    open spec fn view(&self) -> Usage {
        match *self {
            CpuReading::NotANumber => Usage::NotANumber,
            CpuReading::Millionths(m) => Usage::Millionths(m as nat),
        }
    }
}

/// The cumulative CPU usage of a group of processes.
#[derive(Clone, Copy, Debug, PartialEq, Eq, Structural)]
pub enum CpuUsage {
    NotANumber,
    Millionths(u128),
}

impl View for CpuUsage {
    type V = Usage;

    open spec fn view(&self) -> Usage {
        match *self {
            CpuUsage::NotANumber => Usage::NotANumber,
            CpuUsage::Millionths(m) => Usage::Millionths(m as nat),
        }
    }
}

/// The exponent field of a single-precision bit pattern: eight bits above
/// the fraction.
pub open spec fn exponent_field(bits: u32) -> nat {
    (bits as nat / 0x80_0000) % 0x100
}

/// The fraction field of a single-precision bit pattern: its lowest 23 bits.
pub open spec fn fraction_field(bits: u32) -> nat {
    bits as nat % 0x80_0000
}

/// Whether the sign bit of a single-precision bit pattern is set.
pub open spec fn sign_set(bits: u32) -> bool {
    bits >= 0x8000_0000
}

/// Whether a single-precision bit pattern stands for no number: all bits of
/// the exponent are set and the fraction is not zero.
pub open spec fn bits_not_a_number(bits: u32) -> bool {
    exponent_field(bits) == 0xff && fraction_field(bits) != 0
}

/// The significand of a single-precision bit pattern: the fraction, with a
/// leading one in front of it unless the exponent field is zero.
pub open spec fn significand(bits: u32) -> nat {
    if exponent_field(bits) == 0 {
        fraction_field(bits)
    } else {
        fraction_field(bits) + 0x80_0000
    }
}

/// The power of two by which the significand is to be multiplied.
pub open spec fn binary_exponent(bits: u32) -> int {
    if exponent_field(bits) == 0 {
        -149
    } else {
        exponent_field(bits) - 150
    }
}

/// The magnitude of the percentage that a single-precision bit pattern stands
/// for, in millionths of a percent, rounded down. An infinity counts as the
/// power of two above the largest finite magnitude.
pub open spec fn magnitude(bits: u32) -> nat {
    let scaled = significand(bits) * UNITS_PER_PERCENT as nat;
    if binary_exponent(bits) >= 0 {
        scaled * pow2(binary_exponent(bits) as nat)
    } else {
        scaled / pow2((-binary_exponent(bits)) as nat)
    }
}

/// The reading that a single-precision bit pattern stands for: not a number
/// where the pattern is none; nothing where the percentage is negative;
/// otherwise the percentage in millionths, rounded down, and no more than the
/// largest amount that a reading can hold.
pub open spec fn reading_of_bits(bits: u32) -> Usage {
    if bits_not_a_number(bits) {
        Usage::NotANumber
    } else if sign_set(bits) {
        Usage::Millionths(0)
    } else if magnitude(bits) > u64::MAX {
        Usage::Millionths(u64::MAX as nat)
    } else {
        Usage::Millionths(magnitude(bits))
    }
}

impl CpuReading {
    /// The reading that the bit pattern of a single-precision percentage
    /// stands for.
    pub fn from_bits(bits: u32) -> (reading: CpuReading)
        ensures
            reading@ == reading_of_bits(bits),
    {
        let exponent: u32 = (bits / 0x80_0000) % 0x100;
        let fraction: u32 = bits % 0x80_0000;
        if exponent == 0xff && fraction != 0 {
            return CpuReading::NotANumber;
        }
        if bits >= 0x8000_0000 {
            return CpuReading::Millionths(0);
        }
        proof {
            lemma2_to64();
        }
        if exponent == 0 {
            proof {
                lemma_pow2_strictly_increases(64, 149);
                lemma_basic_div((fraction * UNITS_PER_PERCENT) as int, pow2(149) as int);
            }
            return CpuReading::Millionths(0);
        }
        let scaled: u64 = (fraction as u64 + 0x80_0000) * UNITS_PER_PERCENT;
        if exponent >= 150 {
            let shift: u64 = (exponent - 150) as u64;
            if shift >= 64 {
                proof {
                    if shift > 64 {
                        lemma_pow2_strictly_increases(64, shift as nat);
                    }
                    assert(scaled * pow2(shift as nat) > u64::MAX) by (nonlinear_arith)
                        requires
                            scaled >= 1,
                            pow2(shift as nat) > u64::MAX,
                    ;
                }
                return CpuReading::Millionths(u64::MAX);
            }
            proof {
                lemma_u64_mul_pow2_le_max_iff_max_shr(scaled, shift, u64::MAX);
            }
            if scaled > (u64::MAX >> shift) {
                CpuReading::Millionths(u64::MAX)
            } else {
                proof {
                    lemma_u64_shl_is_mul(scaled, shift);
                }
                CpuReading::Millionths(scaled << shift)
            }
        } else {
            let shift: u64 = (150 - exponent) as u64;
            if shift >= 64 {
                proof {
                    if shift > 64 {
                        lemma_pow2_strictly_increases(64, shift as nat);
                    }
                    lemma_basic_div(scaled as int, pow2(shift as nat) as int);
                }
                return CpuReading::Millionths(0);
            }
            proof {
                lemma_u64_shr_is_div(scaled, shift);
            }
            CpuReading::Millionths(scaled >> shift)
        }
    }
}

impl CpuUsage {
    /// The usage of a single process as a cumulative usage.
    pub fn of_reading(reading: CpuReading) -> (usage: CpuUsage)
        ensures
            usage@ == reading@,
    {
        match reading {
            CpuReading::NotANumber => CpuUsage::NotANumber,
            CpuReading::Millionths(m) => CpuUsage::Millionths(m as u128),
        }
    }

    /// The sum of this usage and `other`, which must be within what a usage
    /// can hold.
    pub fn plus(self, other: CpuUsage) -> (sum: CpuUsage)
        requires
            amount_of(usage_plus(self@, other@)) <= u128::MAX,
        ensures
            sum@ == usage_plus(self@, other@),
    {
        match (self, other) {
            (CpuUsage::Millionths(x), CpuUsage::Millionths(y)) => CpuUsage::Millionths(x + y),
            _ => CpuUsage::NotANumber,
        }
    }

    /// Whether this usage ranks strictly above `other`.
    pub fn outranks(&self, other: &CpuUsage) -> (above: bool)
        ensures
            above == usage_outranks(self@, other@),
    {
        match (*self, *other) {
            (CpuUsage::Millionths(x), CpuUsage::Millionths(y)) => x > y,
            _ => false,
        }
    }
}

} // verus!
