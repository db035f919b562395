//! Address resolution: from a parsed address and the editor state to
//! concrete 1-indexed line positions.
//!
//! Resolution is pure arithmetic. Each command supplies the two
//! default endpoints its semantics require; substitution of a default
//! for an omitted endpoint is a per-endpoint operation. No clamping
//! happens at this layer: a resolved bound may be zero, negative, or
//! beyond the end of the buffer, and the executor decides what that
//! means.

use crate::parser::{
    Address, AddressPosition, AddressRange, AppendCommand, Command, SingularAddress,
    spec_parse_command,
};
use vstd::math::min;
use vstd::prelude::*;

verus! {

/// The line that an anchor denotes, given the current line and the
/// buffer length. An unwritten anchor counts from zero, so a bare
/// offset such as `+3` denotes an absolute line.
pub open spec fn spec_anchor(p: AddressPosition, current: int, len: int) -> int {
    match p {
        AddressPosition::Default => 0,
        AddressPosition::CurrentLine => current,
        AddressPosition::LastLine => len,
        AddressPosition::Line(n) => n as int,
    }
}

/// A singular address resolves to its anchor plus its offset.
pub open spec fn spec_resolve_singular(a: SingularAddress, current: int, len: int) -> int {
    spec_anchor(a.position, current, len) + a.offset as int
}

/// An omitted endpoint falls back to the given default endpoint.
pub open spec fn spec_or_default(
    a: Option<SingularAddress>,
    d: SingularAddress,
) -> SingularAddress {
    match a {
        Some(x) => x,
        None => d,
    }
}

/// The pair of bounds an address resolves to, given the command's two
/// default endpoints.
///
/// - A supplied singular address gives the same value for both bounds.
/// - An omitted address resolves both default endpoints.
/// - An absolute range resolves each endpoint independently against
///   the corresponding default.
/// - A relative range resolves its first endpoint normally; the second
///   endpoint's value is a displacement added to the first. An omitted
///   second endpoint reuses the first default, since the second bound
///   is defined as a displacement.
pub open spec fn spec_resolve_range(
    addr: Address,
    default1: SingularAddress,
    default2: SingularAddress,
    current: int,
    len: int,
) -> (int, int) {
    match addr {
        Address::Singular(opt) => match opt {
            Some(a) => {
                let v = spec_resolve_singular(a, current, len);
                (v, v)
            },
            None => (
                spec_resolve_singular(default1, current, len),
                spec_resolve_singular(default2, current, len),
            ),
        },
        Address::Range(AddressRange::Absolute((o1, o2))) => (
            spec_resolve_singular(spec_or_default(o1, default1), current, len),
            spec_resolve_singular(spec_or_default(o2, default2), current, len),
        ),
        Address::Range(AddressRange::Relative((o1, o2))) => {
            let first = spec_resolve_singular(spec_or_default(o1, default1), current, len);
            let delta = spec_resolve_singular(spec_or_default(o2, default1), current, len);
            (first, first + delta)
        },
    }
}

/// The default endpoint of `append` and `change`: the current line.
pub open spec fn current_line_default() -> SingularAddress {
    SingularAddress { position: AddressPosition::CurrentLine, offset: 0 }
}

/// The first default endpoint of `print`: line 1.
pub open spec fn first_line_default() -> SingularAddress {
    SingularAddress { position: AddressPosition::Line(1), offset: 0 }
}

/// The second default endpoint of `print`: the last line.
pub open spec fn last_line_default() -> SingularAddress {
    SingularAddress { position: AddressPosition::LastLine, offset: 0 }
}

/// Resolves a singular address. The result is exact, never clamped;
/// `i128` holds every anchor-plus-offset value.
pub fn resolve_singular(a: &SingularAddress, current_line: usize, buffer_len: usize) -> (r: i128)
    ensures
        r == spec_resolve_singular(*a, current_line as int, buffer_len as int),
{
    let anchor: i128 = match a.position {
        AddressPosition::Default => 0,
        AddressPosition::CurrentLine => current_line as i128,
        AddressPosition::LastLine => buffer_len as i128,
        AddressPosition::Line(n) => n as i128,
    };
    anchor + (a.offset as i128)
}

/// Resolves an address to its two bounds, substituting the command's
/// default endpoints for whatever the user omitted.
pub fn resolve_range(
    addr: &Address,
    default1: &SingularAddress,
    default2: &SingularAddress,
    current_line: usize,
    buffer_len: usize,
) -> (r: (i128, i128))
    ensures
        ({
            let b = spec_resolve_range(
                *addr,
                *default1,
                *default2,
                current_line as int,
                buffer_len as int,
            );
            r.0 == b.0 && r.1 == b.1
        }),
{
    match addr {
        Address::Singular(opt) => match opt {
            Some(a) => {
                let v = resolve_singular(a, current_line, buffer_len);
                (v, v)
            },
            None => (
                resolve_singular(default1, current_line, buffer_len),
                resolve_singular(default2, current_line, buffer_len),
            ),
        },
        Address::Range(AddressRange::Absolute((o1, o2))) => {
            let a1 = match o1 {
                Some(x) => *x,
                None => *default1,
            };
            let a2 = match o2 {
                Some(x) => *x,
                None => *default2,
            };
            (
                resolve_singular(&a1, current_line, buffer_len),
                resolve_singular(&a2, current_line, buffer_len),
            )
        },
        Address::Range(AddressRange::Relative((o1, o2))) => {
            let a1 = match o1 {
                Some(x) => *x,
                None => *default1,
            };
            let a2 = match o2 {
                Some(x) => *x,
                None => *default1,
            };
            let first = resolve_singular(&a1, current_line, buffer_len);
            let delta = resolve_singular(&a2, current_line, buffer_len);
            (first, first + delta)
        },
    }
}

// ===== Resolution laws =====

/// Law: the bare command `a` parses to an append whose address was
/// omitted, and an omitted address under the current-line default
/// resolves to the current line on both bounds, whatever the state.
pub proof fn lemma_omitted_address_resolves_to_current(current: int, len: int)
    ensures
        spec_parse_command(seq![97u8], 0) == Some(
            (1int, Command::Append((AppendCommand { addr: Address::Singular(None) }))),
        ),
        spec_resolve_range(
            Address::Singular(None),
            current_line_default(),
            current_line_default(),
            current,
            len,
        ) == (current, current),
{
}

/// Law: `$a` parses to an append anchored at the last line, and a
/// last-line address resolves to the buffer length on both bounds,
/// whatever the defaults and the current line.
pub proof fn lemma_last_line_resolves_to_len(
    default1: SingularAddress,
    default2: SingularAddress,
    current: int,
    len: int,
)
    ensures
        spec_parse_command(seq![36u8, 97u8], 0) == Some(
            (
                2int,
                Command::Append(
                    (
                        AppendCommand {
                            addr: Address::Singular(
                                Some(
                                    (
                                        SingularAddress {
                                            position: AddressPosition::LastLine,
                                            offset: 0,
                                        }
                                    ),
                                ),
                            ),
                        }
                    ),
                ),
            ),
        ),
        spec_resolve_range(
            Address::Singular(
                Some((SingularAddress { position: AddressPosition::LastLine, offset: 0 })),
            ),
            default1,
            default2,
            current,
            len,
        ) == (len, len),
{
}

/// Law: an absolute range with both endpoints supplied resolves each
/// endpoint independently; the defaults play no part.
pub proof fn lemma_absolute_range_ignores_default(
    a1: SingularAddress,
    a2: SingularAddress,
    default1: SingularAddress,
    default2: SingularAddress,
    current: int,
    len: int,
)
    ensures
        spec_resolve_range(
            Address::Range(AddressRange::Absolute((Some(a1), Some(a2)))),
            default1,
            default2,
            current,
            len,
        ) == (
            spec_resolve_singular(a1, current, len),
            spec_resolve_singular(a2, current, len),
        ),
{
}

/// Law: the second bound of a relative range with both endpoints
/// supplied is the first bound plus the second endpoint's value; the
/// defaults play no part.
pub proof fn lemma_relative_range_adds_displacement(
    a1: SingularAddress,
    a2: SingularAddress,
    default1: SingularAddress,
    default2: SingularAddress,
    current: int,
    len: int,
)
    ensures
        ({
            let first = spec_resolve_singular(a1, current, len);
            let delta = spec_resolve_singular(a2, current, len);
            spec_resolve_range(
                Address::Range(AddressRange::Relative((Some(a1), Some(a2)))),
                default1,
                default2,
                current,
                len,
            ) == (first, first + delta)
        }),
{
}

} // verus!
