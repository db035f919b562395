//! Decimal digit bytes and the canonical base-10 rendering of a `u64`.
//!
//! The command grammar is byte-oriented; these definitions give the
//! mathematical meaning of a run of digit bytes and the canonical
//! most-significant-first rendering that the address printer emits.

use vstd::arithmetic::div_mod::lemma_fundamental_div_mod;
use vstd::prelude::*;

verus! {

/// An ASCII decimal digit, `'0'` (48) through `'9'` (57).
pub open spec fn is_digit_byte(c: u8) -> bool {
    48 <= c && c <= 57
}

/// A byte that may continue a decimal run: a digit or `'_'` (95),
/// which the grammar accepts as an ignorable separator.
pub open spec fn is_run_byte(c: u8) -> bool {
    is_digit_byte(c) || c == 95
}

/// The numeric value of a single digit byte.
pub open spec fn digit_val(c: u8) -> nat
    recommends
        is_digit_byte(c),
{
    (c - 48) as nat
}

/// The most-significant-first decimal digit bytes of `n`.
pub open spec fn u64_digits(n: u64) -> Seq<u8>
    decreases n,
{
    if n < 10 {
        seq![(48 + n) as u8]
    } else {
        u64_digits(n / 10).push((48 + n % 10) as u8)
    }
}

/// The value of a most-significant-first digit sequence, folded left
/// onto an accumulator.
pub open spec fn seq_val(ds: Seq<u8>, acc: nat) -> nat
    decreases ds.len(),
{
    if ds.len() == 0 {
        acc
    } else {
        seq_val(ds.drop_first(), acc * 10 + digit_val(ds[0]))
    }
}

/// The rendering of `n` is non-empty and consists of digit bytes only.
pub proof fn lemma_u64_digits_shape(n: u64)
    ensures
        u64_digits(n).len() >= 1,
        forall|k: int| 0 <= k < u64_digits(n).len() ==> is_digit_byte(#[trigger] u64_digits(n)[k]),
    decreases n,
{
    if n >= 10 {
        lemma_u64_digits_shape(n / 10);
    }
}

/// Folding one more digit onto the right multiplies the value by ten.
pub proof fn lemma_seq_val_snoc(ds: Seq<u8>, d: u8, acc: nat)
    ensures
        seq_val(ds.push(d), acc) == seq_val(ds, acc) * 10 + digit_val(d),
    decreases ds.len(),
{
    if ds.len() == 0 {
        assert(ds.push(d)[0] == d);
        assert(ds.push(d).drop_first() =~= Seq::<u8>::empty());
        assert(seq_val(ds.push(d), acc) == seq_val(ds.push(d).drop_first(), acc * 10 + digit_val(d)));
    } else {
        assert(ds.push(d)[0] == ds[0]);
        assert(ds.push(d).drop_first() =~= ds.drop_first().push(d));
        lemma_seq_val_snoc(ds.drop_first(), d, acc * 10 + digit_val(ds[0]));
        assert(seq_val(ds.push(d), acc) == seq_val(ds.drop_first().push(d), acc * 10 + digit_val(ds[0])));
        assert(seq_val(ds, acc) == seq_val(ds.drop_first(), acc * 10 + digit_val(ds[0])));
    }
}

/// The canonical rendering of `n` evaluates back to `n`.
pub proof fn lemma_seq_val_of_digits(n: u64)
    ensures
        seq_val(u64_digits(n), 0) == n,
    decreases n,
{
    if n < 10 {
        let ds = u64_digits(n);
        assert(ds[0] == (48 + n) as u8);
        assert(digit_val(ds[0]) == n);
        assert(ds.drop_first() =~= Seq::<u8>::empty());
        assert(seq_val(ds, 0) == seq_val(ds.drop_first(), digit_val(ds[0])));
    } else {
        let d = (48 + n % 10) as u8;
        assert(digit_val(d) == n % 10);
        lemma_seq_val_of_digits(n / 10);
        lemma_seq_val_snoc(u64_digits(n / 10), d, 0);
        lemma_fundamental_div_mod(n as int, 10);
    }
}

/// Appends the decimal rendering of `n` to `out`.
pub fn push_digits(n: u64, out: &mut Vec<u8>)
    ensures
        final(out)@ == old(out)@ + u64_digits(n),
    decreases n,
{
    if n < 10 {
        out.push(48 + n as u8);
        assert(out@ =~= old(out)@ + u64_digits(n));
    } else {
        push_digits(n / 10, out);
        out.push(48 + (n % 10) as u8);
        assert(out@ =~= old(out)@ + u64_digits(n));
    }
}

} // verus!
