//! Canonical textual form of addresses, and the grammar laws that tie
//! the printer to the parser.
//!
//! Every address value has one canonical rendering: anchors print as
//! `.`, `$` or their decimal line number; a non-zero offset prints as
//! a single signed decimal; an offset-only address prints its `+0`
//! explicitly so that it stays distinct from an omitted address.
//! Parsing the canonical rendering gives back the very address it came
//! from.

use crate::digits::{
    digit_val, is_digit_byte, is_run_byte, lemma_seq_val_of_digits, lemma_u64_digits_shape,
    push_digits, seq_val, u64_digits,
};
use crate::parser::{
    Address, AddressPosition, AddressRange, AppendCommand, Command, SingularAddress,
    is_sign_byte, run_end, run_value, spec_parse_abs_range, spec_parse_address,
    spec_parse_append, spec_parse_command, spec_parse_decimal, spec_parse_offset,
    spec_parse_offsets, spec_parse_position, spec_parse_rel_range, spec_parse_singular,
};
use vstd::assert_seqs_equal;
use vstd::prelude::*;

verus! {

// ===== Canonical renderings =====

/// An offset of `i64::MIN` has no in-range magnitude, so it cannot be
/// rendered; the parser never produces it from a single literal.
pub open spec fn wf_singular(a: SingularAddress) -> bool {
    a.offset != i64::MIN
}

pub open spec fn wf_singular_opt(a: Option<SingularAddress>) -> bool {
    match a {
        Some(x) => wf_singular(x),
        None => true,
    }
}

pub open spec fn wf_address(a: Address) -> bool {
    match a {
        Address::Singular(o) => wf_singular_opt(o),
        Address::Range(AddressRange::Absolute((o1, o2))) => wf_singular_opt(o1)
            && wf_singular_opt(o2),
        Address::Range(AddressRange::Relative((o1, o2))) => wf_singular_opt(o1)
            && wf_singular_opt(o2),
    }
}

pub open spec fn spec_render_position(p: AddressPosition) -> Seq<u8> {
    match p {
        AddressPosition::Default => Seq::empty(),
        AddressPosition::CurrentLine => seq![46u8],
        AddressPosition::LastLine => seq![36u8],
        AddressPosition::Line(n) => u64_digits(n),
    }
}

pub open spec fn spec_offset_magnitude(off: i64) -> u64
    recommends
        off != i64::MIN,
{
    if off < 0 {
        (-(off as int)) as u64
    } else {
        off as u64
    }
}

/// One offset as text: its sign, then its magnitude in decimal.
pub open spec fn spec_offset_term_render(t: i64) -> Seq<u8>
    recommends
        t != i64::MIN,
{
    seq![if t < 0 { 45u8 } else { 43u8 }] + u64_digits(spec_offset_magnitude(t))
}

/// The offset part of a singular address. A zero offset prints
/// nothing — except on a `Default` anchor, where `+0` keeps the
/// rendering distinct from an omitted address.
pub open spec fn spec_render_offset(a: SingularAddress) -> Seq<u8>
    recommends
        wf_singular(a),
{
    if a.offset == 0 && !(a.position == AddressPosition::Default) {
        Seq::empty()
    } else {
        spec_offset_term_render(a.offset)
    }
}

pub open spec fn spec_render_singular(a: Option<SingularAddress>) -> Seq<u8>
    recommends
        wf_singular_opt(a),
{
    match a {
        None => Seq::empty(),
        Some(s) => spec_render_position(s.position) + spec_render_offset(s),
    }
}

pub open spec fn spec_render_address(a: Address) -> Seq<u8>
    recommends
        wf_address(a),
{
    match a {
        Address::Singular(o) => spec_render_singular(o),
        Address::Range(AddressRange::Absolute((o1, o2))) => spec_render_singular(o1) + seq![44u8]
            + spec_render_singular(o2),
        Address::Range(AddressRange::Relative((o1, o2))) => spec_render_singular(o1) + seq![59u8]
            + spec_render_singular(o2),
    }
}

// ===== Executable renderer =====

fn push_offset_term(t: i64, out: &mut Vec<u8>)
    requires
        t != i64::MIN,
    ensures
        final(out)@ == old(out)@ + spec_offset_term_render(t),
{
    if t < 0 {
        out.push(45);
        let mag: u64 = (-(t as i128)) as u64;
        push_digits(mag, out);
    } else {
        out.push(43);
        push_digits(t as u64, out);
    }
    proof {
        assert(final(out)@ =~= old(out)@ + spec_offset_term_render(t));
    }
}

fn push_singular(a: &Option<SingularAddress>, out: &mut Vec<u8>)
    requires
        wf_singular_opt(*a),
    ensures
        final(out)@ == old(out)@ + spec_render_singular(*a),
{
    match a {
        None => {
            proof {
                assert(final(out)@ =~= old(out)@ + spec_render_singular(*a));
            }
        },
        Some(s) => {
            match s.position {
                AddressPosition::Default => {},
                AddressPosition::CurrentLine => out.push(46),
                AddressPosition::LastLine => out.push(36),
                AddressPosition::Line(n) => push_digits(n, out),
            }
            let zero_offset = s.offset == 0;
            let default_anchor = match s.position {
                AddressPosition::Default => true,
                _ => false,
            };
            if !zero_offset || default_anchor {
                push_offset_term(s.offset, out);
            }
            proof {
                assert(final(out)@ =~= old(out)@ + spec_render_singular(*a));
            }
        },
    }
}

/// Renders an address back to its canonical textual form.
pub fn render_address(addr: &Address) -> (r: Vec<u8>)
    requires
        wf_address(*addr),
    ensures
        r@ == spec_render_address(*addr),
{
    let mut out: Vec<u8> = Vec::new();
    match addr {
        Address::Singular(o) => {
            push_singular(o, &mut out);
        },
        Address::Range(AddressRange::Absolute((o1, o2))) => {
            push_singular(o1, &mut out);
            out.push(44);
            push_singular(o2, &mut out);
        },
        Address::Range(AddressRange::Relative((o1, o2))) => {
            push_singular(o1, &mut out);
            out.push(59);
            push_singular(o2, &mut out);
        },
    }
    proof {
        assert(out@ =~= spec_render_address(*addr));
    }
    out
}

// ===== Parsing a canonical rendering =====

/// A byte that could extend or start an address: a digit run byte, a
/// sign, `.` or `$`.
pub open spec fn is_address_byte(c: u8) -> bool {
    is_run_byte(c) || is_sign_byte(c) || c == 46 || c == 36
}

/// A maximal run of run bytes in `s[i..i+k)` bounded on the right
/// ends exactly at `i + k`.
proof fn lemma_run_end_window(s: Seq<u8>, i: int, k: int)
    requires
        0 <= i,
        0 <= k,
        i + k <= s.len(),
        forall|t: int| i <= t < i + k ==> is_run_byte(#[trigger] s[t]),
        i + k == s.len() || !is_run_byte(s[i + k]),
    ensures
        run_end(s, i) == i + k,
    decreases k,
{
    if k == 0 {
    } else {
        assert(is_run_byte(s[i]));
        lemma_run_end_window(s, i + 1, k - 1);
    }
}

/// Over digits only, the run value is the digit-sequence value.
proof fn lemma_run_value_window(s: Seq<u8>, i: int, j: int, acc: nat)
    requires
        0 <= i <= j <= s.len(),
        forall|t: int| i <= t < j ==> is_digit_byte(#[trigger] s[t]),
    ensures
        run_value(s, i, j, acc) == seq_val(s.subrange(i, j), acc),
    decreases j - i,
{
    if i < j {
        assert(s.subrange(i, j)[0] == s[i]);
        assert(s.subrange(i, j).drop_first() =~= s.subrange(i + 1, j));
        lemma_run_value_window(s, i + 1, j, acc * 10 + digit_val(s[i]));
    }
}

/// The canonical digits of `n`, bounded on the right, parse as the
/// decimal `n`.
proof fn lemma_parse_decimal_at(s: Seq<u8>, i: int, n: u64)
    requires
        0 <= i,
        i + u64_digits(n).len() <= s.len(),
        s.subrange(i, i + u64_digits(n).len() as int) == u64_digits(n),
        i + u64_digits(n).len() == s.len() || !is_run_byte(s[i + u64_digits(n).len()]),
    ensures
        spec_parse_decimal(s, i) == Some((i + u64_digits(n).len() as int, n)),
{
    let ds = u64_digits(n);
    let k = ds.len() as int;
    lemma_u64_digits_shape(n);
    assert(forall|t: int| i <= t < i + k ==> is_digit_byte(#[trigger] s[t])) by {
        assert(forall|t: int| i <= t < i + k ==> #[trigger] s[t] == ds[t - i]) by {
            assert(forall|m: int| 0 <= m < k ==> #[trigger] s.subrange(i, i + k)[m] == s[i + m]);
        }
    }
    lemma_run_end_window(s, i, k);
    lemma_run_value_window(s, i, i + k, 0);
    lemma_seq_val_of_digits(n);
    assert(run_value(s, i, i + k, 0) == n);
}

/// A canonical position rendering, bounded on the right, parses back
/// to its anchor.
proof fn lemma_parse_position_at(s: Seq<u8>, i: int, p: AddressPosition)
    requires
        0 <= i,
        !(p == AddressPosition::Default),
        i + spec_render_position(p).len() <= s.len(),
        s.subrange(i, i + spec_render_position(p).len() as int) == spec_render_position(p),
        i + spec_render_position(p).len() == s.len() || !is_run_byte(
            s[i + spec_render_position(p).len()],
        ),
    ensures
        spec_parse_position(s, i) == Some((i + spec_render_position(p).len() as int, p)),
{
    let w = spec_render_position(p);
    let k = w.len() as int;
    match p {
        AddressPosition::Default => {},
        AddressPosition::CurrentLine => {
            assert(s.subrange(i, i + k)[0] == s[i]);
            assert(s[i] == 46);
        },
        AddressPosition::LastLine => {
            assert(s.subrange(i, i + k)[0] == s[i]);
            assert(s[i] == 36);
        },
        AddressPosition::Line(n) => {
            lemma_u64_digits_shape(n);
            assert(s.subrange(i, i + k)[0] == s[i]);
            assert(s[i] == u64_digits(n)[0]);
            assert(is_digit_byte(s[i]));
            lemma_parse_decimal_at(s, i, n);
        },
    }
}

/// A canonical offset term, bounded on the right, parses back to its
/// signed value.
proof fn lemma_parse_offset_at(s: Seq<u8>, i: int, t: i64)
    requires
        0 <= i,
        t != i64::MIN,
        i + spec_offset_term_render(t).len() <= s.len(),
        s.subrange(i, i + spec_offset_term_render(t).len() as int) == spec_offset_term_render(t),
        i + spec_offset_term_render(t).len() == s.len() || !is_run_byte(
            s[i + spec_offset_term_render(t).len()],
        ),
    ensures
        spec_parse_offset(s, i) == Some((i + spec_offset_term_render(t).len() as int, t)),
{
    let mag = spec_offset_magnitude(t);
    let ds = u64_digits(mag);
    let sign = seq![if t < 0 { 45u8 } else { 43u8 }];
    let w = spec_offset_term_render(t);
    let k = w.len() as int;
    assert(w == sign + ds);
    assert(s.subrange(i, i + k)[0] == s[i]);
    assert((sign + ds)[0] == 43 || (sign + ds)[0] == 45);
    assert(is_sign_byte(s[i]));
    lemma_u64_digits_shape(mag);
    assert_seqs_equal!(s.subrange(i + 1, i + k) == ds, m => {
        assert(s.subrange(i + 1, i + k)[m] == s[i + 1 + m]);
        assert(s.subrange(i, i + k)[1 + m] == s[i + 1 + m]);
        assert((sign + ds)[1 + m] == ds[m]);
    });
    assert(s.subrange(i + 1, i + k)[0] == s[i + 1]);
    assert(s[i + 1] == ds[0]);
    assert(is_digit_byte(s[i + 1]));
    lemma_parse_decimal_at(s, i + 1, mag);
    assert(mag <= i64::MAX as u64);
    if t < 0 {
        assert(s[i] == 45);
        assert((-(mag as int)) as i64 == t);
    } else {
        assert(s[i] == 43);
        assert(!(s[i] == 45));
    }
}

/// With no sign byte next, an offset chain ends, yielding its sum.
proof fn lemma_parse_offsets_end(s: Seq<u8>, i: int, acc: i64)
    requires
        0 <= i,
        i == s.len() || !is_sign_byte(s[i]),
    ensures
        spec_parse_offsets(s, i, acc) == Some((i, acc)),
{
}

/// One canonical offset term followed by more input: the chain
/// consumes the term and goes on with the sum so far.
proof fn lemma_parse_offsets_term(s: Seq<u8>, i: int, acc: i64, t: i64)
    requires
        0 <= i,
        t != i64::MIN,
        i64::MIN <= acc + t <= i64::MAX,
        i + spec_offset_term_render(t).len() <= s.len(),
        s.subrange(i, i + spec_offset_term_render(t).len() as int) == spec_offset_term_render(t),
        i + spec_offset_term_render(t).len() == s.len() || !is_run_byte(
            s[i + spec_offset_term_render(t).len()],
        ),
    ensures
        spec_parse_offsets(s, i, acc) == spec_parse_offsets(
            s,
            i + spec_offset_term_render(t).len() as int,
            (acc + t) as i64,
        ),
{
    lemma_parse_offset_at(s, i, t);
    assert(s.subrange(i, i + spec_offset_term_render(t).len() as int)[0] == s[i]);
    assert(is_sign_byte(s[i]));
}

/// A canonical singular rendering, bounded by a non-address byte,
/// parses back to the very same optional singular address.
proof fn lemma_parse_singular_at(s: Seq<u8>, i: int, a: Option<SingularAddress>)
    requires
        0 <= i,
        wf_singular_opt(a),
        i + spec_render_singular(a).len() <= s.len(),
        s.subrange(i, i + spec_render_singular(a).len() as int) == spec_render_singular(a),
        i + spec_render_singular(a).len() == s.len() || !is_address_byte(
            s[i + spec_render_singular(a).len()],
        ),
    ensures
        spec_parse_singular(s, i) == Some((i + spec_render_singular(a).len() as int, a)),
{
    let w = spec_render_singular(a);
    let k = w.len() as int;
    assert(forall|m: int| 0 <= m < k ==> #[trigger] s.subrange(i, i + k)[m] == s[i + m]);
    match a {
        None => {
            assert(spec_parse_position(s, i) is None);
            lemma_parse_offsets_end(s, i, 0);
        },
        Some(sa) => {
            let wp = spec_render_position(sa.position);
            let wo = spec_render_offset(sa);
            let pk = wp.len() as int;
            assert(w == wp + wo);
            assert(s.subrange(i, i + pk) =~= wp) by {
                assert(forall|m: int| 0 <= m < pk ==> #[trigger] (wp + wo)[m] == wp[m]);
            }
            assert_seqs_equal!(s.subrange(i + pk, i + k) == wo, m => {
                assert(s.subrange(i + pk, i + k)[m] == s[i + pk + m]);
                assert(s.subrange(i, i + k)[pk + m] == s[i + pk + m]);
                assert((wp + wo)[pk + m] == wo[m]);
            });
            if sa.position == AddressPosition::Default {
                // No anchor was written: the rendering is exactly one
                // offset term, which anchors the parse at Default.
                assert(wo == spec_offset_term_render(sa.offset));
                assert(s[i] == wo[0]);
                assert(is_sign_byte(s[i]));
                assert(spec_parse_position(s, i) is None);
                lemma_parse_offsets_term(s, i, 0, sa.offset);
                lemma_parse_offsets_end(s, i + k, sa.offset);
                assert(spec_parse_offsets(s, i, 0) == Some((i + k, sa.offset)));
                assert(k > 0);
            } else {
                if pk == k {
                    // zero offset: nothing after the position
                    lemma_parse_position_at(s, i, sa.position);
                    lemma_parse_offsets_end(s, i + pk, 0);
                    assert(sa.offset == 0);
                } else {
                    assert(wo == spec_offset_term_render(sa.offset));
                    assert(s[i + pk] == wo[0]);
                    assert(is_sign_byte(s[i + pk]));
                    lemma_parse_position_at(s, i, sa.position);
                    lemma_parse_offsets_term(s, i + pk, 0, sa.offset);
                    lemma_parse_offsets_end(s, i + k, sa.offset);
                    assert(spec_parse_offsets(s, i + pk, 0) == Some((i + k, sa.offset)));
                }
            }
        },
    }
}

/// A canonical address rendering, bounded by a byte that cannot be
/// part of any address, parses back to the very same address.
proof fn lemma_parse_address_at(s: Seq<u8>, i: int, a: Address)
    requires
        0 <= i,
        wf_address(a),
        i + spec_render_address(a).len() <= s.len(),
        s.subrange(i, i + spec_render_address(a).len() as int) == spec_render_address(a),
        i + spec_render_address(a).len() == s.len() || !(is_address_byte(
            s[i + spec_render_address(a).len()],
        ) || s[i + spec_render_address(a).len()] == 44 || s[i + spec_render_address(a).len()]
            == 59),
    ensures
        spec_parse_address(s, i) == Some((i + spec_render_address(a).len() as int, a)),
{
    let w = spec_render_address(a);
    let k = w.len() as int;
    assert(forall|m: int| 0 <= m < k ==> #[trigger] s.subrange(i, i + k)[m] == s[i + m]);
    match a {
        Address::Singular(o) => {
            lemma_parse_singular_at(s, i, o);
        },
        Address::Range(AddressRange::Absolute((o1, o2))) => {
            let w1 = spec_render_singular(o1);
            let w2 = spec_render_singular(o2);
            let k1 = w1.len() as int;
            assert(w == w1 + seq![44u8] + w2);
            assert(s.subrange(i, i + k1) =~= w1) by {
                assert(forall|m: int| 0 <= m < k1 ==> #[trigger] (w1 + seq![44u8] + w2)[m] == w1[m]);
            }
            assert(s[i + k1] == 44) by {
                assert((w1 + seq![44u8] + w2)[k1] == 44);
            }
            assert_seqs_equal!(s.subrange(i + k1 + 1, i + k) == w2, m => {
                assert(s.subrange(i + k1 + 1, i + k)[m] == s[i + k1 + 1 + m]);
                assert(s.subrange(i, i + k)[k1 + 1 + m] == s[i + k1 + 1 + m]);
                assert((w1 + seq![44u8] + w2)[k1 + 1 + m] == w2[m]);
            });
            lemma_parse_singular_at(s, i, o1);
            lemma_parse_singular_at(s, i + k1 + 1, o2);
        },
        Address::Range(AddressRange::Relative((o1, o2))) => {
            let w1 = spec_render_singular(o1);
            let w2 = spec_render_singular(o2);
            let k1 = w1.len() as int;
            assert(w == w1 + seq![59u8] + w2);
            assert(s.subrange(i, i + k1) =~= w1) by {
                assert(forall|m: int| 0 <= m < k1 ==> #[trigger] (w1 + seq![59u8] + w2)[m] == w1[m]);
            }
            assert(s[i + k1] == 59) by {
                assert((w1 + seq![59u8] + w2)[k1] == 59);
            }
            assert_seqs_equal!(s.subrange(i + k1 + 1, i + k) == w2, m => {
                assert(s.subrange(i + k1 + 1, i + k)[m] == s[i + k1 + 1 + m]);
                assert(s.subrange(i, i + k)[k1 + 1 + m] == s[i + k1 + 1 + m]);
                assert((w1 + seq![59u8] + w2)[k1 + 1 + m] == w2[m]);
            });
            lemma_parse_singular_at(s, i, o1);
            lemma_parse_singular_at(s, i + k1 + 1, o2);
        },
    }
}

// ===== Grammar laws =====

/// Law: parsing the canonical rendering of any address yields that
/// very address and consumes the whole rendering — the grammar and
/// the printer round-trip.
pub proof fn lemma_address_round_trip(a: Address)
    requires
        wf_address(a),
    ensures
        spec_parse_address(spec_render_address(a), 0) == Some(
            (spec_render_address(a).len() as int, a),
        ),
{
    let s = spec_render_address(a);
    assert(s.subrange(0, s.len() as int) =~= s);
    lemma_parse_address_at(s, 0, a);
}

/// Law: whatever address some input parses to, rendering that address
/// and parsing the rendering yields the identical address. The one
/// address left out is an offset of `i64::MIN`, whose magnitude no
/// single offset literal can carry back.
pub proof fn lemma_parse_render_parse(s: Seq<u8>, i: int)
    requires
        spec_parse_address(s, i) matches Some((j, a)) && wf_address(a),
    ensures
        spec_parse_address(s, i) matches Some((j, a)) ==> spec_parse_address(
            spec_render_address(a),
            0,
        ) == Some((spec_render_address(a).len() as int, a)),
{
    if let Some((j, a)) = spec_parse_address(s, i) {
        lemma_address_round_trip(a);
    }
}

/// Law: for every line number `n`, the input made of the decimal
/// digits of `n` followed by `a` parses to an append command
/// addressed at line `n` with offset zero.
pub proof fn lemma_decimal_append(n: u64)
    ensures
        ({
            let s = u64_digits(n) + seq![97u8];
            spec_parse_command(s, 0) == Some(
                (
                    s.len() as int,
                    Command::Append(
                        (
                            AppendCommand {
                                addr: Address::Singular(
                                    Some(
                                        (
                                            SingularAddress {
                                                position: AddressPosition::Line(n),
                                                offset: 0,
                                            }
                                        ),
                                    ),
                                ),
                            }
                        ),
                    ),
                ),
            )
        }),
{
    let s = u64_digits(n) + seq![97u8];
    let sa = SingularAddress { position: AddressPosition::Line(n), offset: 0 };
    let a = Address::Singular(Some(sa));
    let k = u64_digits(n).len() as int;
    lemma_u64_digits_shape(n);
    assert(spec_render_offset(sa) =~= Seq::<u8>::empty());
    assert(spec_render_address(a) =~= u64_digits(n));
    assert(s.subrange(0, k) =~= u64_digits(n));
    assert(s[k] == 97);
    lemma_parse_address_at(s, 0, a);
    assert(spec_parse_append(s, 0) == Some((k + 1, Command::Append((AppendCommand { addr: a })))));
}

/// Law: chained offsets bind each sign to its own digits and are all
/// consumed: the input `{n}+{x}+{y}a` parses to an append at line `n`
/// with offset `x + y`.
pub proof fn lemma_chained_offsets_append(n: u64, x: u64, y: u64)
    requires
        x <= i64::MAX as u64,
        y <= i64::MAX as u64,
        x + y <= i64::MAX as u64,
    ensures
        ({
            let s = u64_digits(n) + seq![43u8] + u64_digits(x) + seq![43u8] + u64_digits(y)
                + seq![97u8];
            spec_parse_command(s, 0) == Some(
                (
                    s.len() as int,
                    Command::Append(
                        (
                            AppendCommand {
                                addr: Address::Singular(
                                    Some(
                                        (
                                            SingularAddress {
                                                position: AddressPosition::Line(n),
                                                offset: (x + y) as i64,
                                            }
                                        ),
                                    ),
                                ),
                            }
                        ),
                    ),
                ),
            )
        }),
{
    let s = u64_digits(n) + seq![43u8] + u64_digits(x) + seq![43u8] + u64_digits(y) + seq![97u8];
    let dn = u64_digits(n).len() as int;
    let dx = u64_digits(x).len() as int;
    let dy = u64_digits(y).len() as int;
    let i2 = dn + 1 + dx;
    let i3 = i2 + 1 + dy;
    lemma_u64_digits_shape(n);
    lemma_u64_digits_shape(x);
    lemma_u64_digits_shape(y);
    // the position
    assert(s.subrange(0, dn) =~= u64_digits(n));
    assert(s[dn] == 43);
    lemma_parse_position_at(s, 0, AddressPosition::Line(n));
    // the first offset term
    assert(spec_offset_magnitude(x as i64) == x);
    assert(spec_offset_term_render(x as i64) =~= seq![43u8] + u64_digits(x));
    assert(s.subrange(dn, i2) =~= spec_offset_term_render(x as i64));
    assert(s[i2] == 43);
    lemma_parse_offsets_term(s, dn, 0, x as i64);
    // the second offset term
    assert(spec_offset_magnitude(y as i64) == y);
    assert(spec_offset_term_render(y as i64) =~= seq![43u8] + u64_digits(y));
    assert(s.subrange(i2, i3) =~= spec_offset_term_render(y as i64));
    assert(s[i3] == 97);
    lemma_parse_offsets_term(s, i2, x as i64, y as i64);
    lemma_parse_offsets_end(s, i3, (x + y) as i64);
    assert(spec_parse_offsets(s, dn, 0) == Some((i3, (x + y) as i64)));
    // assemble the singular, the address, the command
    let sa = SingularAddress { position: AddressPosition::Line(n), offset: (x + y) as i64 };
    assert(spec_parse_singular(s, 0) == Some((i3, Some(sa))));
    assert(spec_parse_abs_range(s, 0) is None);
    assert(spec_parse_rel_range(s, 0) is None);
    assert(spec_parse_address(s, 0) == Some((i3, Address::Singular(Some(sa)))));
    assert(spec_parse_append(s, 0) == Some(
        (i3 + 1, Command::Append((AppendCommand { addr: Address::Singular(Some(sa)) }))),
    ));
    assert(i3 + 1 == s.len());
}

} // verus!
