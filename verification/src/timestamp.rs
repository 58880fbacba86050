//! The FSK time mark at the start of a recording: its length, its bit
//! layout, and the time of day it carries.

use vstd::prelude::*;
use vstd::arithmetic::power2::{pow2, lemma_pow2_unfold, lemma_pow2_pos, lemma2_to64};
use vstd::arithmetic::div_mod::lemma_mod_breakdown;
use crate::text::{push_char, digit, digit_char};

verus! {

/// Alternating bits that open the mark (1, 0, 1, 0, ...).
pub const PREAMBLE_BITS: usize = 8;

/// Bits of the time of day, most significant first.
pub const DATA_BITS: usize = 27;

/// Milliseconds in one day; a mark carries a time of day below it.
pub const MILLIS_PER_DAY: u32 = 86_400_000;

/// Samples per FSK symbol: 20 ms at `sample_rate` (whole samples).
pub open spec fn symbol_samples_spec(sample_rate: u32) -> nat {
    (sample_rate / 50) as nat
}

/// Samples of the guard silence after the symbols: 200 ms (whole samples).
pub open spec fn guard_samples_spec(sample_rate: u32) -> nat {
    (sample_rate / 5) as nat
}

/// Samples per FSK symbol: the whole samples in 20 ms.
pub fn symbol_samples(sample_rate: u32) -> (n: usize)
    ensures
        n == symbol_samples_spec(sample_rate),
{
    (sample_rate / 50) as usize
}

/// Length of the whole mark in samples: 35 symbols of 20 ms and a guard of 200 ms.
pub fn marker_samples(sample_rate: u32) -> (n: usize)
    ensures
        n == (PREAMBLE_BITS + DATA_BITS) * symbol_samples_spec(sample_rate) + guard_samples_spec(
            sample_rate,
        ),
{
    (PREAMBLE_BITS + DATA_BITS) * symbol_samples(sample_rate) + (sample_rate / 5) as usize
}

/// A decoded time mark: the time of day it carries and the length of the mark.
#[derive(Debug, Clone, Copy, PartialEq, Eq, Structural)]
pub struct TimestampMark {
    pub millis_of_day: u32,
    pub marker_samples: usize,
}

/// The bit the preamble holds at position `i`.
pub open spec fn preamble_bit(i: int) -> bool {
    i % 2 == 0
}

/// How many of the first `n` bits differ from the preamble.
pub open spec fn preamble_errors(bits: Seq<bool>, n: nat) -> nat
    decreases n,
{
    if n == 0 {
        0
    } else {
        preamble_errors(bits, (n - 1) as nat) + if bits[n - 1] != preamble_bit(n - 1) {
            1nat
        } else {
            0nat
        }
    }
}

/// The number that a sequence of bits writes, most significant bit first.
pub open spec fn bits_value(bits: Seq<bool>) -> nat
    decreases bits.len(),
{
    if bits.len() == 0 {
        0
    } else {
        bits_value(bits.drop_last()) * 2 + if bits.last() {
            1nat
        } else {
            0nat
        }
    }
}

/// The time of day that the data bits of a mark write.
pub open spec fn carried_millis(bits: Seq<bool>) -> nat {
    bits_value(bits.subrange(PREAMBLE_BITS as int, (PREAMBLE_BITS + DATA_BITS) as int))
}

/// What a sequence of symbol decisions decodes to: nothing when more than one
/// preamble bit is wrong or when the time of day is not below one day.
pub open spec fn decoded_mark(bits: Seq<bool>, marker_length: usize) -> Option<TimestampMark> {
    if preamble_errors(bits, PREAMBLE_BITS as nat) > 1 {
        None
    } else if carried_millis(bits) >= MILLIS_PER_DAY {
        None
    } else {
        Some(TimestampMark { millis_of_day: carried_millis(bits) as u32, marker_samples: marker_length })
    }
}

proof fn lemma_bits_value_bound(bits: Seq<bool>)
    ensures
        bits_value(bits) < pow2(bits.len()),
    decreases bits.len(),
{
    lemma_pow2_pos(bits.len());
    if bits.len() > 0 {
        lemma_bits_value_bound(bits.drop_last());
        lemma_pow2_unfold(bits.len());
    }
}

/// Decodes the 35 symbol decisions of a mark (1 for the higher tone):
/// 8 preamble bits, of which at most one may be wrong, then the time of day
/// in 27 bits, most significant first.
pub fn decode_bits(bits: &[bool], marker_length: usize) -> (mark: Option<TimestampMark>)
    requires
        bits@.len() == PREAMBLE_BITS + DATA_BITS,
    ensures
        mark == decoded_mark(bits@, marker_length),
{
    let mut errors: usize = 0;
    let mut i: usize = 0;
    while i < PREAMBLE_BITS
        invariant
            bits@.len() == PREAMBLE_BITS + DATA_BITS,
            i <= PREAMBLE_BITS,
            errors == preamble_errors(bits@, i as nat),
            errors <= i,
        decreases PREAMBLE_BITS - i,
    {
        let expected = i % 2 == 0;
        if bits[i] != expected {
            errors = errors + 1;
        }
        i = i + 1;
    }
    if errors > 1 {
        return None;
    }
    let mut value: u32 = 0;
    let mut k: usize = PREAMBLE_BITS;
    proof {
        lemma2_to64();
    }
    while k < PREAMBLE_BITS + DATA_BITS
        invariant
            bits@.len() == PREAMBLE_BITS + DATA_BITS,
            PREAMBLE_BITS <= k <= PREAMBLE_BITS + DATA_BITS,
            value == bits_value(bits@.subrange(PREAMBLE_BITS as int, k as int)),
            value < pow2((k - PREAMBLE_BITS) as nat),
            pow2(DATA_BITS as nat) == 0x800_0000,
        decreases PREAMBLE_BITS + DATA_BITS - k,
    {
        let ghost prefix = bits@.subrange(PREAMBLE_BITS as int, k + 1);
        proof {
            assert(prefix.drop_last() =~= bits@.subrange(PREAMBLE_BITS as int, k as int));
            lemma_bits_value_bound(prefix);
            if k + 1 < PREAMBLE_BITS + DATA_BITS {
                lemma_pow2_strictly_grows((k + 1 - PREAMBLE_BITS) as nat, DATA_BITS as nat);
            }
        }
        value = value * 2 + if bits[k] {
            1
        } else {
            0
        };
        k = k + 1;
    }
    if value >= MILLIS_PER_DAY {
        return None;
    }
    Some(TimestampMark { millis_of_day: value, marker_samples: marker_length })
}

proof fn lemma_pow2_strictly_grows(a: nat, b: nat)
    requires
        a < b,
    ensures
        pow2(a) < pow2(b),
    decreases b,
{
    lemma_pow2_unfold(b);
    lemma_pow2_pos(a);
    if a < b - 1 {
        lemma_pow2_strictly_grows(a, (b - 1) as nat);
    }
}

/// The lowest `n` bits of `m`, most significant first.
pub open spec fn low_bits(m: nat, n: nat) -> Seq<bool>
    decreases n,
{
    if n == 0 {
        Seq::empty()
    } else {
        low_bits(m / 2, (n - 1) as nat).push(m % 2 == 1)
    }
}

/// The symbols of a mark for the time of day `millis`: the preamble, then the
/// lowest 27 bits of `millis`, most significant first.
pub open spec fn mark_bits(millis: u32) -> Seq<bool> {
    Seq::new(PREAMBLE_BITS as nat, |i: int| preamble_bit(i)) + low_bits(millis as nat, DATA_BITS as nat)
}

fn push_low_bits(bits: &mut Vec<bool>, m: u32, n: usize)
    ensures
        final(bits)@ == old(bits)@ + low_bits(m as nat, n as nat),
    decreases n,
{
    if n > 0 {
        push_low_bits(bits, m / 2, n - 1);
        bits.push(m % 2 == 1);
        assert(old(bits)@ + low_bits((m / 2) as nat, (n - 1) as nat).push(m % 2 == 1) =~= old(
            bits,
        )@ + low_bits(m as nat, n as nat));
    } else {
        assert(old(bits)@ + low_bits(m as nat, 0) =~= old(bits)@);
    }
}

/// The 35 symbols (1 for the higher tone) that the recorder sends for
/// `millis`.
pub fn marker_bits(millis: u32) -> (bits: Vec<bool>)
    ensures
        bits@ == mark_bits(millis),
{
    let mut bits: Vec<bool> = Vec::new();
    let mut i: usize = 0;
    while i < PREAMBLE_BITS
        invariant
            i <= PREAMBLE_BITS,
            bits@ =~= Seq::new(i as nat, |j: int| preamble_bit(j)),
        decreases PREAMBLE_BITS - i,
    {
        bits.push(i % 2 == 0);
        i = i + 1;
    }
    push_low_bits(&mut bits, millis, DATA_BITS);
    bits
}

proof fn lemma_low_bits_value(m: nat, n: nat)
    ensures
        low_bits(m, n).len() == n,
        bits_value(low_bits(m, n)) == m % pow2(n),
    decreases n,
{
    lemma_pow2_pos(n);
    if n == 0 {
        assert(pow2(0) == 1) by {
            lemma2_to64();
        }
    } else {
        lemma_low_bits_value(m / 2, (n - 1) as nat);
        lemma_pow2_unfold(n);
        lemma_pow2_pos((n - 1) as nat);
        lemma_mod_breakdown(m as int, 2, pow2((n - 1) as nat) as int);
        assert(low_bits(m, n).drop_last() == low_bits(m / 2, (n - 1) as nat));
    }
}

proof fn lemma_preamble_errors_zero(bits: Seq<bool>, n: nat)
    requires
        n <= bits.len(),
        forall|i: int| 0 <= i < n ==> bits[i] == preamble_bit(i),
    ensures
        preamble_errors(bits, n) == 0,
    decreases n,
{
    if n > 0 {
        lemma_preamble_errors_zero(bits, (n - 1) as nat);
    }
}

/// Decoding the symbols sent for a time of day gives that time of day back
/// (its lowest 27 bits), or nothing when that value is not below one day.
pub proof fn mark_roundtrip(millis: u32, marker_length: usize)
    ensures
        mark_bits(millis).len() == PREAMBLE_BITS + DATA_BITS,
        decoded_mark(mark_bits(millis), marker_length) == (if millis % 0x800_0000 < MILLIS_PER_DAY {
            Some(TimestampMark { millis_of_day: millis % 0x800_0000, marker_samples: marker_length })
        } else {
            None::<TimestampMark>
        }),
{
    let bits = mark_bits(millis);
    lemma_low_bits_value(millis as nat, DATA_BITS as nat);
    lemma2_to64();
    lemma_preamble_errors_zero(bits, PREAMBLE_BITS as nat);
    assert(bits.subrange(PREAMBLE_BITS as int, (PREAMBLE_BITS + DATA_BITS) as int) =~= low_bits(
        millis as nat,
        DATA_BITS as nat,
    ));
}

/// Every time of day below one day survives the trip through the mark.
pub proof fn mark_roundtrip_within_day(millis: u32, marker_length: usize)
    requires
        millis < MILLIS_PER_DAY,
    ensures
        decoded_mark(mark_bits(millis), marker_length) == Some(
            TimestampMark { millis_of_day: millis, marker_samples: marker_length },
        ),
{
    mark_roundtrip(millis, marker_length);
}

proof fn lemma_misread_count(bits: Seq<bool>, k1: int, k2: int, n: nat)
    requires
        bits.len() == PREAMBLE_BITS + DATA_BITS,
        forall|i: int| 0 <= i < PREAMBLE_BITS ==> bits[i] == preamble_bit(i),
        0 <= k1 < PREAMBLE_BITS,
        0 <= k2 < PREAMBLE_BITS,
        n <= PREAMBLE_BITS,
    ensures
        preamble_errors(bits.update(k1, !bits[k1]), n) == if k1 < n {
            1nat
        } else {
            0nat
        },
        k1 != k2 ==> preamble_errors(bits.update(k1, !bits[k1]).update(k2, !bits[k2]), n) == (if k1
            < n {
            1nat
        } else {
            0nat
        }) + (if k2 < n {
            1nat
        } else {
            0nat
        }),
    decreases n,
{
    if n > 0 {
        lemma_misread_count(bits, k1, k2, (n - 1) as nat);
    }
}

/// Law: one misread preamble symbol is tolerated wherever it is. Flipping
/// any one of the eight preamble symbols sent for a time of day below one
/// day still decodes to that time of day.
pub proof fn one_misread_preamble_symbol_is_tolerated(millis: u32, marker_length: usize, k: int)
    requires
        millis < MILLIS_PER_DAY,
        0 <= k < PREAMBLE_BITS,
    ensures
        decoded_mark(mark_bits(millis).update(k, !mark_bits(millis)[k]), marker_length) == Some(
            TimestampMark { millis_of_day: millis, marker_samples: marker_length },
        ),
{
    let bits = mark_bits(millis);
    mark_roundtrip(millis, marker_length);
    assert forall|i: int| 0 <= i < PREAMBLE_BITS implies bits[i] == preamble_bit(i) by {}
    lemma_misread_count(bits, k, k, PREAMBLE_BITS as nat);
    let flipped = bits.update(k, !bits[k]);
    assert(flipped.subrange(PREAMBLE_BITS as int, (PREAMBLE_BITS + DATA_BITS) as int) =~= bits.subrange(
        PREAMBLE_BITS as int,
        (PREAMBLE_BITS + DATA_BITS) as int,
    ));
    assert(millis % 0x800_0000 == millis);
}

/// Law: two misread preamble symbols are refused, wherever they are.
pub proof fn two_misread_preamble_symbols_are_refused(
    millis: u32,
    marker_length: usize,
    k1: int,
    k2: int,
)
    requires
        0 <= k1 < k2 < PREAMBLE_BITS,
    ensures
        decoded_mark(
            mark_bits(millis).update(k1, !mark_bits(millis)[k1]).update(k2, !mark_bits(millis)[k2]),
            marker_length,
        ) is None,
{
    let bits = mark_bits(millis);
    mark_roundtrip(millis, marker_length);
    assert forall|i: int| 0 <= i < PREAMBLE_BITS implies bits[i] == preamble_bit(i) by {}
    lemma_misread_count(bits, k1, k2, PREAMBLE_BITS as nat);
}

/// Two decimal digits for a value below 100, with a leading zero.
pub open spec fn two_digits(v: int) -> Seq<char> {
    seq![digit_char(v / 10), digit_char(v % 10)]
}

/// Three decimal digits for a value below 1000, with leading zeros.
pub open spec fn three_digits(v: int) -> Seq<char> {
    seq![digit_char(v / 100), digit_char((v / 10) % 10), digit_char(v % 10)]
}

/// `HH:MM:SS.mmm` for a whole number of milliseconds, the hours taken modulo 24.
pub open spec fn clock_text(millis: nat) -> Seq<char> {
    two_digits(((millis / 3_600_000) % 24) as int) + ":"@ + two_digits(
        ((millis / 60_000) % 60) as int,
    ) + ":"@ + two_digits(((millis / 1_000) % 60) as int) + "."@ + three_digits(
        (millis % 1_000) as int,
    )
}

/// Writes a whole number of milliseconds as a time of day, `HH:MM:SS.mmm`.
pub fn format_clock_time(millis: u64) -> (text: String)
    ensures
        text@ == clock_text(millis as nat),
{
    let hours = (millis / 3_600_000) % 24;
    let minutes = (millis / 60_000) % 60;
    let seconds = (millis / 1_000) % 60;
    let milliseconds = millis % 1_000;
    let mut text = String::new();
    push_char(&mut text, digit(hours / 10));
    push_char(&mut text, digit(hours % 10));
    push_char(&mut text, ':');
    push_char(&mut text, digit(minutes / 10));
    push_char(&mut text, digit(minutes % 10));
    push_char(&mut text, ':');
    push_char(&mut text, digit(seconds / 10));
    push_char(&mut text, digit(seconds % 10));
    push_char(&mut text, '.');
    push_char(&mut text, digit(milliseconds / 100));
    push_char(&mut text, digit((milliseconds / 10) % 10));
    push_char(&mut text, digit(milliseconds % 10));
    proof {
        reveal_strlit(":");
        reveal_strlit(".");
    }
    assert(text@ =~= clock_text(millis as nat));
    text
}

} // verus!
