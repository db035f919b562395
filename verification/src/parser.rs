//! Grammar of the command language.
//!
//! A command line is a positional address expression followed by a
//! one-letter command. The grammar, informally:
//!
//! ```text
//! decimal    := digit+            ('_' accepted as an ignorable separator)
//! position   := '.' | '$' | decimal
//! offset     := ('+' | '-') decimal?      (a bare sign means magnitude 1)
//! singular   := position? offset*         (empty singular = "use the default")
//! addr_range := singular ',' singular     (absolute)
//!             | singular ';' singular     (relative)
//! address    := addr_range | singular     (range forms tried first)
//! command    := address 'a' | singular 'i' | address 'c'
//!             | address 'p' | singular 'm' singular
//! ```
//!
//! The grammar is specified by total spec functions over byte sequences;
//! each executable parser is proved to return exactly what its spec
//! function denotes. A parser takes the input and a start index and
//! yields the index one past what it consumed together with the parsed
//! value, or `None` when the input does not match (including when a
//! numeric literal overflows its machine type).

use crate::digits::{digit_val, is_digit_byte, is_run_byte};
use vstd::prelude::*;

verus! {

// ===== Abstract syntax =====

/// The anchor of a singular address: where counting starts.
#[derive(Debug, PartialEq, Eq, Clone, Copy)]
pub enum AddressPosition {
    /// No anchor was written; resolution substitutes a contextual default.
    Default,
    /// `.`: the current line.
    CurrentLine,
    /// `$`: the last line of the buffer.
    LastLine,
    /// An explicit 1-indexed line number.
    Line(u64),
}

/// One line denoted as an anchor plus a signed displacement.
#[derive(Debug, PartialEq, Eq, Clone, Copy)]
pub struct SingularAddress {
    pub position: AddressPosition,
    pub offset: i64,
}

/// A pair of line positions. Each endpoint is independently optional;
/// an omitted endpoint inherits the corresponding half of the
/// command's default range.
#[derive(Debug, PartialEq, Eq, Clone, Copy)]
pub enum AddressRange {
    /// `lhs,rhs`: both endpoints resolved independently.
    Absolute((Option<SingularAddress>, Option<SingularAddress>)),
    /// `lhs;rhs`: the second endpoint is a displacement added to the first.
    Relative((Option<SingularAddress>, Option<SingularAddress>)),
}

/// A parsed, unresolved reference to one line or a pair of lines.
#[derive(Debug, PartialEq, Eq, Clone, Copy)]
pub enum Address {
    /// One line; `None` means "use the command's default".
    Singular(Option<SingularAddress>),
    Range(AddressRange),
}

#[derive(Debug, PartialEq, Eq, Clone, Copy)]
pub struct AppendCommand {
    pub addr: Address,
}

#[derive(Debug, PartialEq, Eq, Clone, Copy)]
pub struct MoveCommand {
    pub prev_addr: Address,
    pub addr: Option<SingularAddress>,
}

#[derive(Debug, PartialEq, Eq, Clone, Copy)]
pub struct InsertCommand {
    pub addr: Option<SingularAddress>,
}

#[derive(Debug, PartialEq, Eq, Clone, Copy)]
pub struct PrintNoLinesCommand {
    pub addr: Address,
}

#[derive(Debug, PartialEq, Eq, Clone, Copy)]
pub struct ChangeCommand {
    pub addr: Address,
}

#[derive(Debug, PartialEq, Eq, Clone, Copy)]
pub enum Command {
    Append(AppendCommand),
    Move(MoveCommand),
    Insert(InsertCommand),
    PrintNoLines(PrintNoLinesCommand),
    Change(ChangeCommand),
}

/// Why a command line was rejected.
#[derive(Debug, PartialEq, Eq, Clone, Copy)]
pub enum ParseError {
    /// No command grammar matches (also covers numeric overflow).
    NoMatch,
    /// A command matched a proper prefix; `at` is the index of the
    /// first unconsumed byte.
    TrailingInput { at: usize },
}

// ===== Grammar, as spec functions =====

/// `'+'` (43) or `'-'` (45).
pub open spec fn is_sign_byte(c: u8) -> bool {
    c == 43 || c == 45
}

/// The index one past the maximal run of digit or `'_'` bytes from `i`.
pub open spec fn run_end(s: Seq<u8>, i: int) -> int
    decreases s.len() - i,
{
    if i < s.len() && is_run_byte(s[i]) {
        run_end(s, i + 1)
    } else {
        i
    }
}

/// The value of the digits in `s[i..j)`, `'_'` bytes skipped, folded
/// onto `acc`.
pub open spec fn run_value(s: Seq<u8>, i: int, j: int, acc: nat) -> nat
    decreases j - i,
{
    if i < j {
        if is_digit_byte(s[i]) {
            run_value(s, i + 1, j, acc * 10 + digit_val(s[i]))
        } else {
            run_value(s, i + 1, j, acc)
        }
    } else {
        acc
    }
}

/// `decimal`: a digit followed by the maximal run of digits and
/// separators. Fails when no digit starts at `i` or the value
/// overflows `u64`.
pub open spec fn spec_parse_decimal(s: Seq<u8>, i: int) -> Option<(int, u64)> {
    if 0 <= i && i < s.len() && is_digit_byte(s[i]) {
        let j = run_end(s, i);
        let v = run_value(s, i, j, 0);
        if v <= u64::MAX {
            Some((j, v as u64))
        } else {
            None
        }
    } else {
        None
    }
}

/// `position`: `'.'` (46), `'$'` (36), or a decimal line number.
pub open spec fn spec_parse_position(s: Seq<u8>, i: int) -> Option<(int, AddressPosition)> {
    if 0 <= i && i < s.len() {
        if s[i] == 46 {
            Some((i + 1, AddressPosition::CurrentLine))
        } else if s[i] == 36 {
            Some((i + 1, AddressPosition::LastLine))
        } else if is_digit_byte(s[i]) {
            match spec_parse_decimal(s, i) {
                Some((j, v)) => Some((j, AddressPosition::Line(v))),
                None => None,
            }
        } else {
            None
        }
    } else {
        None
    }
}

/// `offset`: a sign and an optional magnitude; a bare sign means 1.
/// Fails when the magnitude overflows `i64`.
pub open spec fn spec_parse_offset(s: Seq<u8>, i: int) -> Option<(int, i64)> {
    if 0 <= i && i < s.len() && is_sign_byte(s[i]) {
        let neg = s[i] == 45;
        if i + 1 < s.len() && is_digit_byte(s[i + 1]) {
            match spec_parse_decimal(s, i + 1) {
                Some((j, m)) => if m <= i64::MAX as u64 {
                    Some((j, if neg { (-(m as int)) as i64 } else { m as i64 }))
                } else {
                    None
                },
                None => None,
            }
        } else {
            Some((i + 1, if neg { -1 as i64 } else { 1 as i64 }))
        }
    } else {
        None
    }
}

/// `offset*`: the sum of a maximal chain of offsets, added to `acc`.
/// Consumes nothing (and yields `acc`) when no sign byte follows;
/// fails when a magnitude or the running sum overflows `i64`.
pub open spec fn spec_parse_offsets(s: Seq<u8>, i: int, acc: i64) -> Option<(int, i64)>
    decreases s.len() - i,
    via spec_parse_offsets_decreases
{
    if 0 <= i && i < s.len() && is_sign_byte(s[i]) {
        match spec_parse_offset(s, i) {
            Some((j, t)) => if i64::MIN <= acc + t && acc + t <= i64::MAX {
                spec_parse_offsets(s, j, (acc + t) as i64)
            } else {
                None
            },
            None => None,
        }
    } else {
        Some((i, acc))
    }
}

#[via_fn]
proof fn spec_parse_offsets_decreases(s: Seq<u8>, i: int, acc: i64) {
    if 0 <= i && i < s.len() && is_sign_byte(s[i]) {
        lemma_spec_parse_offset_bounds(s, i);
    }
}

/// `singular`: an optional position and a chain of offsets. An empty
/// match yields `None` ("use the default"); offsets with no position
/// anchor at `Default`.
pub open spec fn spec_parse_singular(s: Seq<u8>, i: int) -> Option<(int, Option<SingularAddress>)> {
    let (j, posopt): (int, Option<AddressPosition>) = match spec_parse_position(s, i) {
        Some((j2, p)) => (j2, Some(p)),
        None => (i, None),
    };
    match spec_parse_offsets(s, j, 0) {
        Some((k, off)) => match posopt {
            Some(p) => Some((k, Some(SingularAddress { position: p, offset: off }))),
            None => if k == j {
                Some((k, None))
            } else {
                Some((k, Some(SingularAddress { position: AddressPosition::Default, offset: off })))
            },
        },
        None => None,
    }
}

/// A singular address used where an `Address` is expected.
pub open spec fn spec_parse_address_singular(s: Seq<u8>, i: int) -> Option<(int, Address)> {
    match spec_parse_singular(s, i) {
        Some((j, a)) => Some((j, Address::Singular(a))),
        None => None,
    }
}

/// `singular ',' singular`.
pub open spec fn spec_parse_abs_range(s: Seq<u8>, i: int) -> Option<(int, Address)> {
    match spec_parse_singular(s, i) {
        Some((j, a1)) => if j < s.len() && s[j] == 44 {
            match spec_parse_singular(s, j + 1) {
                Some((k, a2)) => Some((k, Address::Range(AddressRange::Absolute((a1, a2))))),
                None => None,
            }
        } else {
            None
        },
        None => None,
    }
}

/// `singular ';' singular`.
pub open spec fn spec_parse_rel_range(s: Seq<u8>, i: int) -> Option<(int, Address)> {
    match spec_parse_singular(s, i) {
        Some((j, a1)) => if j < s.len() && s[j] == 59 {
            match spec_parse_singular(s, j + 1) {
                Some((k, a2)) => Some((k, Address::Range(AddressRange::Relative((a1, a2))))),
                None => None,
            }
        } else {
            None
        },
        None => None,
    }
}

/// `address`: the range alternatives are tried before the bare
/// singular, which would otherwise match a prefix of a range.
pub open spec fn spec_parse_address(s: Seq<u8>, i: int) -> Option<(int, Address)> {
    match spec_parse_abs_range(s, i) {
        Some(r) => Some(r),
        None => match spec_parse_rel_range(s, i) {
            Some(r) => Some(r),
            None => spec_parse_address_singular(s, i),
        },
    }
}

/// `address 'a'` (97).
pub open spec fn spec_parse_append(s: Seq<u8>, i: int) -> Option<(int, Command)> {
    match spec_parse_address(s, i) {
        Some((j, addr)) => if j < s.len() && s[j] == 97 {
            Some((j + 1, Command::Append(AppendCommand { addr })))
        } else {
            None
        },
        None => None,
    }
}

/// `singular 'm' (109) singular`.
pub open spec fn spec_parse_move(s: Seq<u8>, i: int) -> Option<(int, Command)> {
    match spec_parse_singular(s, i) {
        Some((j, a1)) => if j < s.len() && s[j] == 109 {
            match spec_parse_singular(s, j + 1) {
                Some((k, a2)) => Some(
                    (
                        k,
                        Command::Move(
                            MoveCommand { prev_addr: Address::Singular(a1), addr: a2 },
                        ),
                    ),
                ),
                None => None,
            }
        } else {
            None
        },
        None => None,
    }
}

/// `singular 'i'` (105).
pub open spec fn spec_parse_insert(s: Seq<u8>, i: int) -> Option<(int, Command)> {
    match spec_parse_singular(s, i) {
        Some((j, a)) => if j < s.len() && s[j] == 105 {
            Some((j + 1, Command::Insert(InsertCommand { addr: a })))
        } else {
            None
        },
        None => None,
    }
}

/// `address 'p'` (112).
pub open spec fn spec_parse_print(s: Seq<u8>, i: int) -> Option<(int, Command)> {
    match spec_parse_address(s, i) {
        Some((j, addr)) => if j < s.len() && s[j] == 112 {
            Some((j + 1, Command::PrintNoLines(PrintNoLinesCommand { addr })))
        } else {
            None
        },
        None => None,
    }
}

/// `address 'c'` (99).
pub open spec fn spec_parse_change(s: Seq<u8>, i: int) -> Option<(int, Command)> {
    match spec_parse_address(s, i) {
        Some((j, addr)) => if j < s.len() && s[j] == 99 {
            Some((j + 1, Command::Change(ChangeCommand { addr })))
        } else {
            None
        },
        None => None,
    }
}

/// `command`: the five command forms, tried in a fixed order.
pub open spec fn spec_parse_command(s: Seq<u8>, i: int) -> Option<(int, Command)> {
    match spec_parse_append(s, i) {
        Some(r) => Some(r),
        None => match spec_parse_move(s, i) {
            Some(r) => Some(r),
            None => match spec_parse_insert(s, i) {
                Some(r) => Some(r),
                None => match spec_parse_print(s, i) {
                    Some(r) => Some(r),
                    None => spec_parse_change(s, i),
                },
            },
        },
    }
}

// ===== Bounds lemmas =====

/// The end of a digit run lies between its start and the end of input.
pub proof fn lemma_run_end_bounds(s: Seq<u8>, i: int)
    requires
        0 <= i <= s.len(),
    ensures
        i <= run_end(s, i) <= s.len(),
    decreases s.len() - i,
{
    if i < s.len() && is_run_byte(s[i]) {
        lemma_run_end_bounds(s, i + 1);
    }
}

/// A digit run's value is at least the accumulator it starts from.
pub proof fn lemma_run_value_ge_acc(s: Seq<u8>, i: int, j: int, acc: nat)
    ensures
        run_value(s, i, j, acc) >= acc,
    decreases j - i,
{
    if i < j {
        if is_digit_byte(s[i]) {
            lemma_run_value_ge_acc(s, i + 1, j, acc * 10 + digit_val(s[i]));
        } else {
            lemma_run_value_ge_acc(s, i + 1, j, acc);
        }
    }
}

pub proof fn lemma_spec_parse_decimal_bounds(s: Seq<u8>, i: int)
    ensures
        spec_parse_decimal(s, i) matches Some((j, v)) ==> i < j <= s.len(),
{
    if 0 <= i && i < s.len() && is_digit_byte(s[i]) {
        lemma_run_end_bounds(s, i + 1);
    }
}

pub proof fn lemma_spec_parse_offset_bounds(s: Seq<u8>, i: int)
    ensures
        spec_parse_offset(s, i) matches Some((j, t)) ==> i < j <= s.len(),
{
    if 0 <= i && i < s.len() && is_sign_byte(s[i]) {
        lemma_spec_parse_decimal_bounds(s, i + 1);
    }
}

// ===== Executable parsers =====

/// `decimal`, executable.
fn decimal(s: &[u8], at: usize) -> (r: Option<(usize, u64)>)
    requires
        at <= s@.len(),
    ensures
        r is None <==> spec_parse_decimal(s@, at as int) is None,
        r matches Some((j, v)) ==> spec_parse_decimal(s@, at as int) == Some((j as int, v))
            && at < j <= s@.len(),
{
    let n = s.len();
    if at >= n || !(48 <= s[at] && s[at] <= 57) {
        return None;
    }
    let ghost gj = run_end(s@, at as int);
    proof {
        lemma_run_end_bounds(s@, at as int);
    }
    let mut k = at;
    let mut acc: u64 = 0;
    while k < n && (48 <= s[k] && s[k] <= 57 || s[k] == 95)
        invariant
            n == s@.len(),
            at <= k <= n,
            k <= gj <= n,
            gj == run_end(s@, at as int),
            run_end(s@, k as int) == gj,
            run_value(s@, at as int, gj, 0) == run_value(s@, k as int, gj, acc as nat),
        decreases n - k,
    {
        proof {
            lemma_run_end_bounds(s@, k as int + 1);
        }
        let c = s[k];
        if 48 <= c && c <= 57 {
            let d = (c - 48) as u64;
            let wide: u128 = (acc as u128) * 10 + (d as u128);
            if wide > u64::MAX as u128 {
                proof {
                    lemma_run_value_ge_acc(
                        s@,
                        k as int + 1,
                        gj,
                        (acc as nat) * 10 + digit_val(c),
                    );
                }
                return None;
            }
            acc = wide as u64;
        }
        k = k + 1;
    }
    assert(gj == k as int);
    assert(run_value(s@, at as int, gj, 0) == acc as nat);
    Some((k, acc))
}

/// `'.'`, yielding the current-line anchor.
fn current_line_parser(s: &[u8], at: usize) -> (r: Option<(usize, AddressPosition)>)
    requires
        at <= s@.len(),
    ensures
        r is Some <==> (at < s@.len() && s@[at as int] == 46),
        r matches Some((j, p)) ==> j == at + 1 && p == AddressPosition::CurrentLine,
{
    if at < s.len() && s[at] == 46 {
        Some((at + 1, AddressPosition::CurrentLine))
    } else {
        None
    }
}

/// `'$'`, yielding the last-line anchor.
fn last_line_parser(s: &[u8], at: usize) -> (r: Option<(usize, AddressPosition)>)
    requires
        at <= s@.len(),
    ensures
        r is Some <==> (at < s@.len() && s@[at as int] == 36),
        r matches Some((j, p)) ==> j == at + 1 && p == AddressPosition::LastLine,
{
    if at < s.len() && s[at] == 36 {
        Some((at + 1, AddressPosition::LastLine))
    } else {
        None
    }
}

/// A decimal line number, yielding an explicit line anchor.
fn line_parser(s: &[u8], at: usize) -> (r: Option<(usize, AddressPosition)>)
    requires
        at <= s@.len(),
    ensures
        r is None <==> spec_parse_decimal(s@, at as int) is None,
        r matches Some((j, p)) ==> spec_parse_decimal(s@, at as int) matches Some((j2, v))
            && j2 == j as int && p == AddressPosition::Line(v) && at < j <= s@.len(),
{
    match decimal(s, at) {
        Some((j, v)) => Some((j, AddressPosition::Line(v))),
        None => None,
    }
}

/// `offset`, executable.
fn offset_parser(s: &[u8], at: usize) -> (r: Option<(usize, i64)>)
    requires
        at <= s@.len(),
    ensures
        r is None <==> spec_parse_offset(s@, at as int) is None,
        r matches Some((j, t)) ==> spec_parse_offset(s@, at as int) == Some((j as int, t))
            && at < j <= s@.len(),
{
    let n = s.len();
    if at >= n || !(s[at] == 43 || s[at] == 45) {
        return None;
    }
    let neg = s[at] == 45;
    if at + 1 < n && 48 <= s[at + 1] && s[at + 1] <= 57 {
        match decimal(s, at + 1) {
            Some((j, m)) => {
                if m > i64::MAX as u64 {
                    None
                } else {
                    Some((j, if neg { -(m as i64) } else { m as i64 }))
                }
            },
            None => None,
        }
    } else {
        Some((at + 1, if neg { -1 } else { 1 }))
    }
}

/// `singular`, executable: an optional position and summed offsets.
pub fn singular_address_parser(s: &[u8], at: usize) -> (r: Option<
    (usize, Option<SingularAddress>),
>)
    requires
        at <= s@.len(),
    ensures
        r is None <==> spec_parse_singular(s@, at as int) is None,
        r matches Some((j, a)) ==> spec_parse_singular(s@, at as int) == Some((j as int, a))
            && at <= j <= s@.len(),
{
    let n = s.len();
    let mut j = at;
    let mut posopt: Option<AddressPosition> = None;
    match current_line_parser(s, at) {
        Some((j2, p)) => {
            j = j2;
            posopt = Some(p);
        },
        None => match last_line_parser(s, at) {
            Some((j2, p)) => {
                j = j2;
                posopt = Some(p);
            },
            None => match line_parser(s, at) {
                Some((j2, p)) => {
                    j = j2;
                    posopt = Some(p);
                },
                None => {},
            },
        },
    }
    proof {
        let sp = spec_parse_position(s@, at as int);
        match posopt {
            Some(p) => assert(sp == Some((j as int, p))),
            None => assert(sp is None && j == at),
        }
    }
    let ghost j0 = j as int;
    let mut acc: i64 = 0;
    let mut k = j;
    while k < n && (s[k] == 43 || s[k] == 45)
        invariant
            n == s@.len(),
            at <= j0 <= k as int <= n,
            spec_parse_offsets(s@, j0, 0) == spec_parse_offsets(s@, k as int, acc),
            j as int == j0,
            match posopt {
                Some(p) => spec_parse_position(s@, at as int) == Some((j0, p)),
                None => spec_parse_position(s@, at as int) is None && j0 == at,
            },
        decreases n - k,
    {
        match offset_parser(s, k) {
            Some((k2, t)) => {
                let wide: i128 = acc as i128 + t as i128;
                if wide < i64::MIN as i128 || wide > i64::MAX as i128 {
                    return None;
                }
                acc = wide as i64;
                k = k2;
            },
            None => {
                return None;
            },
        }
    }
    match posopt {
        Some(p) => Some((k, Some(SingularAddress { position: p, offset: acc }))),
        None => {
            if k == j {
                Some((k, None))
            } else {
                Some((k, Some(SingularAddress { position: AddressPosition::Default, offset: acc })))
            }
        },
    }
}

/// A singular address in `Address` form, executable.
pub fn address_parser(s: &[u8], at: usize) -> (r: Option<(usize, Address)>)
    requires
        at <= s@.len(),
    ensures
        r is None <==> spec_parse_address_singular(s@, at as int) is None,
        r matches Some((j, a)) ==> spec_parse_address_singular(s@, at as int) == Some(
            (j as int, a),
        ) && at <= j <= s@.len(),
{
    match singular_address_parser(s, at) {
        Some((j, a)) => Some((j, Address::Singular(a))),
        None => None,
    }
}

/// `singular ',' singular`, executable.
pub fn address_range_absolute_parser(s: &[u8], at: usize) -> (r: Option<(usize, Address)>)
    requires
        at <= s@.len(),
    ensures
        r is None <==> spec_parse_abs_range(s@, at as int) is None,
        r matches Some((j, a)) ==> spec_parse_abs_range(s@, at as int) == Some((j as int, a))
            && at <= j <= s@.len(),
{
    match singular_address_parser(s, at) {
        Some((j, a1)) => {
            if j < s.len() && s[j] == 44 {
                match singular_address_parser(s, j + 1) {
                    Some((k, a2)) => Some((k, Address::Range(AddressRange::Absolute((a1, a2))))),
                    None => None,
                }
            } else {
                None
            }
        },
        None => None,
    }
}

/// `singular ';' singular`, executable.
pub fn address_range_relative_parser(s: &[u8], at: usize) -> (r: Option<(usize, Address)>)
    requires
        at <= s@.len(),
    ensures
        r is None <==> spec_parse_rel_range(s@, at as int) is None,
        r matches Some((j, a)) ==> spec_parse_rel_range(s@, at as int) == Some((j as int, a))
            && at <= j <= s@.len(),
{
    match singular_address_parser(s, at) {
        Some((j, a1)) => {
            if j < s.len() && s[j] == 59 {
                match singular_address_parser(s, j + 1) {
                    Some((k, a2)) => Some((k, Address::Range(AddressRange::Relative((a1, a2))))),
                    None => None,
                }
            } else {
                None
            }
        },
        None => None,
    }
}

/// `address`, executable: ranges before the bare singular.
pub fn either_address_parser(s: &[u8], at: usize) -> (r: Option<(usize, Address)>)
    requires
        at <= s@.len(),
    ensures
        r is None <==> spec_parse_address(s@, at as int) is None,
        r matches Some((j, a)) ==> spec_parse_address(s@, at as int) == Some((j as int, a))
            && at <= j <= s@.len(),
{
    match address_range_absolute_parser(s, at) {
        Some(x) => Some(x),
        None => match address_range_relative_parser(s, at) {
            Some(x) => Some(x),
            None => address_parser(s, at),
        },
    }
}

/// `address 'a'`, executable.
pub fn append_parser(s: &[u8], at: usize) -> (r: Option<(usize, Command)>)
    requires
        at <= s@.len(),
    ensures
        r is None <==> spec_parse_append(s@, at as int) is None,
        r matches Some((j, c)) ==> spec_parse_append(s@, at as int) == Some((j as int, c))
            && at <= j <= s@.len(),
{
    match either_address_parser(s, at) {
        Some((j, addr)) => {
            if j < s.len() && s[j] == 97 {
                Some((j + 1, Command::Append(AppendCommand { addr })))
            } else {
                None
            }
        },
        None => None,
    }
}

/// `singular 'm' singular`, executable.
pub fn move_parser(s: &[u8], at: usize) -> (r: Option<(usize, Command)>)
    requires
        at <= s@.len(),
    ensures
        r is None <==> spec_parse_move(s@, at as int) is None,
        r matches Some((j, c)) ==> spec_parse_move(s@, at as int) == Some((j as int, c))
            && at <= j <= s@.len(),
{
    match singular_address_parser(s, at) {
        Some((j, a1)) => {
            if j < s.len() && s[j] == 109 {
                match singular_address_parser(s, j + 1) {
                    Some((k, a2)) => Some(
                        (
                            k,
                            Command::Move(
                                MoveCommand { prev_addr: Address::Singular(a1), addr: a2 },
                            ),
                        ),
                    ),
                    None => None,
                }
            } else {
                None
            }
        },
        None => None,
    }
}

/// `singular 'i'`, executable.
pub fn insert_parser(s: &[u8], at: usize) -> (r: Option<(usize, Command)>)
    requires
        at <= s@.len(),
    ensures
        r is None <==> spec_parse_insert(s@, at as int) is None,
        r matches Some((j, c)) ==> spec_parse_insert(s@, at as int) == Some((j as int, c))
            && at <= j <= s@.len(),
{
    match singular_address_parser(s, at) {
        Some((j, a)) => {
            if j < s.len() && s[j] == 105 {
                Some((j + 1, Command::Insert(InsertCommand { addr: a })))
            } else {
                None
            }
        },
        None => None,
    }
}

/// `address 'p'`, executable.
pub fn print_no_lines_parser(s: &[u8], at: usize) -> (r: Option<(usize, Command)>)
    requires
        at <= s@.len(),
    ensures
        r is None <==> spec_parse_print(s@, at as int) is None,
        r matches Some((j, c)) ==> spec_parse_print(s@, at as int) == Some((j as int, c))
            && at <= j <= s@.len(),
{
    match either_address_parser(s, at) {
        Some((j, addr)) => {
            if j < s.len() && s[j] == 112 {
                Some((j + 1, Command::PrintNoLines(PrintNoLinesCommand { addr })))
            } else {
                None
            }
        },
        None => None,
    }
}

/// `address 'c'`, executable.
pub fn change_parser(s: &[u8], at: usize) -> (r: Option<(usize, Command)>)
    requires
        at <= s@.len(),
    ensures
        r is None <==> spec_parse_change(s@, at as int) is None,
        r matches Some((j, c)) ==> spec_parse_change(s@, at as int) == Some((j as int, c))
            && at <= j <= s@.len(),
{
    match either_address_parser(s, at) {
        Some((j, addr)) => {
            if j < s.len() && s[j] == 99 {
                Some((j + 1, Command::Change(ChangeCommand { addr })))
            } else {
                None
            }
        },
        None => None,
    }
}

/// `command`, executable: the five command forms in grammar order.
pub fn command_parser(s: &[u8], at: usize) -> (r: Option<(usize, Command)>)
    requires
        at <= s@.len(),
    ensures
        r is None <==> spec_parse_command(s@, at as int) is None,
        r matches Some((j, c)) ==> spec_parse_command(s@, at as int) == Some((j as int, c))
            && at <= j <= s@.len(),
{
    match append_parser(s, at) {
        Some(x) => Some(x),
        None => match move_parser(s, at) {
            Some(x) => Some(x),
            None => match insert_parser(s, at) {
                Some(x) => Some(x),
                None => match print_no_lines_parser(s, at) {
                    Some(x) => Some(x),
                    None => change_parser(s, at),
                },
            },
        },
    }
}

/// Parses one whole input line as a command.
///
/// The line must be consumed in full: a command token followed by
/// trailing bytes is rejected, with the index where consumption
/// stopped.
pub fn parse_command(line: &[u8]) -> (r: Result<Command, ParseError>)
    ensures
        match spec_parse_command(line@, 0) {
            Some((j, c)) => if j == line@.len() {
                r == Ok::<Command, ParseError>(c)
            } else {
                r == Err::<Command, ParseError>((ParseError::TrailingInput { at: j as usize }))
            },
            None => r == Err::<Command, ParseError>(ParseError::NoMatch),
        },
{
    match command_parser(line, 0) {
        Some((j, c)) => {
            if j == line.len() {
                Ok(c)
            } else {
                Err(ParseError::TrailingInput { at: j })
            }
        },
        None => Err(ParseError::NoMatch),
    }
}

} // verus!
