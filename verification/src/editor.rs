//! The command executor: owns the line buffer and the cursor, drives
//! address resolution, applies each command's effect, and manages the
//! interactive insert sub-mode.
//!
//! Conventions, all stated over 1-indexed line positions:
//! - the cursor `current_line` always lies in `[1, len + 1]`; the
//!   extra position past the end is the insertion point after the
//!   last line;
//! - iteration over a resolved range, for printing and for deletion,
//!   stops as soon as an index reaches or exceeds the buffer length,
//!   silently truncating;
//! - a resolved bound that is zero or negative is an address error
//!   (`append` alone accepts an upper bound of 0, meaning "insert at
//!   the top", since its insertion point is the bound plus one).

use crate::parser::{Address, AddressPosition, Command, SingularAddress};
use crate::resolve::{
    current_line_default, first_line_default, last_line_default, resolve_range,
    spec_resolve_range,
};
use vstd::assert_seqs_equal;
use vstd::math::min;
use vstd::prelude::*;

verus! {

/// Whether the editor is reading commands or collecting raw lines.
#[derive(Debug, PartialEq, Eq, Clone, Copy)]
pub enum Mode {
    Normal,
    Insert,
}

/// The whole mutable state of the editor: the cursor, the line
/// buffer, and the mode. Owned exclusively by the executor's entry
/// points; nothing else mutates it.
#[derive(Debug)]
pub struct EditorState {
    /// 1-indexed cursor, always in `[1, buffer.len() + 1]`.
    pub current_line: usize,
    /// The text lines, 1-indexed from the caller's perspective.
    pub buffer: Vec<String>,
    pub mode: Mode,
}

/// A resolved bound fell outside the buffer where the command cannot
/// tolerate it.
#[derive(Debug, PartialEq, Eq, Clone, Copy)]
pub enum ExecError {
    AddressOutOfRange,
}

/// What executing one command did.
#[derive(Debug, PartialEq, Eq)]
pub enum ExecutionOutcome {
    /// The command ran: the lines it emitted (non-empty only for
    /// print) and the mode it left the editor in.
    Ran { printed: Vec<String>, mode: Mode },
    /// `Move` and `Insert` are parsed but not executed by this core.
    NotSupported,
}

/// The answer of `feed_insert_line`: whether insert mode goes on.
#[derive(Debug, PartialEq, Eq, Clone, Copy)]
pub enum ModeOutcome {
    /// The line was added to the buffer; still collecting.
    Inserted,
    /// The line was the `.` terminator; back to command mode.
    Terminated,
}

impl EditorState {
    /// Well-formedness: the cursor is a valid insertion point, and
    /// the buffer leaves room to grow.
    pub open spec fn wf(self) -> bool {
        &&& 1 <= self.current_line
        &&& self.current_line <= self.buffer@.len() + 1
        &&& self.buffer@.len() < usize::MAX
    }

    /// A fresh editor: empty buffer, cursor at 1, command mode.
    pub fn new() -> (s: EditorState)
        ensures
            s.wf(),
            s.current_line == 1,
            s.buffer@.len() == 0,
            s.mode == Mode::Normal,
    {
        EditorState { current_line: 1, buffer: Vec::new(), mode: Mode::Normal }
    }
}

/// The buffer, the cursor and the mode are all as they were.
pub open spec fn state_unchanged(pre: EditorState, post: EditorState) -> bool {
    &&& post.buffer@ == pre.buffer@
    &&& post.current_line == pre.current_line
    &&& post.mode == pre.mode
}

/// The largest 1-indexed line that range iteration visits: the upper
/// bound, clipped strictly below the buffer length.
pub open spec fn clipped_upper(up: int, len: int) -> int {
    min(up, len - 1)
}

/// How many lines `change` deletes from a buffer of length `len`:
/// the 1-indexed lines in `[lo, clipped_upper(up, len)]`.
pub open spec fn spec_delete_count(lo: int, up: int, len: int) -> int {
    if clipped_upper(up, len) >= lo {
        clipped_upper(up, len) - lo + 1
    } else {
        0
    }
}

/// The buffer after `change` deletes the lines in `[lo, up]`,
/// truncated at the buffer length.
pub open spec fn spec_buffer_after_change(buf: Seq<String>, lo: int, up: int) -> Seq<String>
    recommends
        1 <= lo,
{
    let d = spec_delete_count(lo, up, buf.len() as int);
    if d == 0 {
        buf
    } else {
        buf.subrange(0, lo - 1) + buf.subrange(lo - 1 + d, buf.len() as int)
    }
}

/// The lines `print` emits: the 1-indexed lines in `[lo, up]`, in
/// order, truncated at the buffer length.
pub open spec fn spec_printed_lines(buf: Seq<String>, lo: int, up: int) -> Seq<String>
    recommends
        1 <= lo,
{
    let hi = clipped_upper(up, buf.len() as int);
    if hi >= lo {
        buf.subrange(lo - 1, hi)
    } else {
        Seq::empty()
    }
}

/// Effect of `append`: resolve with the current line as both default
/// endpoints; the upper bound names the line after which input will
/// be inserted. Zero (the top of the buffer) is allowed; a bound past
/// the end clips to the end; a negative bound is an address error.
pub open spec fn spec_append(
    addr: Address,
    pre: EditorState,
    post: EditorState,
    r: Result<ExecutionOutcome, ExecError>,
) -> bool {
    let len = pre.buffer@.len() as int;
    let (lo, up) = spec_resolve_range(
        addr,
        current_line_default(),
        current_line_default(),
        pre.current_line as int,
        len,
    );
    if up < 0 {
        state_unchanged(pre, post) && r == Err::<ExecutionOutcome, ExecError>(
            ExecError::AddressOutOfRange,
        )
    } else {
        &&& post.buffer@ == pre.buffer@
        &&& post.current_line as int == min(up, len) + 1
        &&& post.mode == Mode::Insert
        &&& r matches Ok(ExecutionOutcome::Ran { printed, mode }) && printed@ == Seq::<
            String,
        >::empty() && mode == Mode::Insert
    }
}

/// Effect of `change`: resolve with the current line as both default
/// endpoints; delete the addressed lines (truncated at the buffer
/// length); leave the cursor at the insertion point of the deleted
/// range, so replacement text is typed in place; enter insert mode.
/// A non-positive bound is an address error.
pub open spec fn spec_change(
    addr: Address,
    pre: EditorState,
    post: EditorState,
    r: Result<ExecutionOutcome, ExecError>,
) -> bool {
    let len = pre.buffer@.len() as int;
    let (lo, up) = spec_resolve_range(
        addr,
        current_line_default(),
        current_line_default(),
        pre.current_line as int,
        len,
    );
    if lo < 1 || up < 1 {
        state_unchanged(pre, post) && r == Err::<ExecutionOutcome, ExecError>(
            ExecError::AddressOutOfRange,
        )
    } else {
        &&& post.buffer@ == spec_buffer_after_change(pre.buffer@, lo, up)
        &&& post.current_line as int == min(lo, post.buffer@.len() as int + 1)
        &&& post.mode == Mode::Insert
        &&& r matches Ok(ExecutionOutcome::Ran { printed, mode }) && printed@ == Seq::<
            String,
        >::empty() && mode == Mode::Insert
    }
}

/// Effect of `print`: resolve with line 1 and the last line as the
/// default endpoints; emit the addressed lines in order (truncated at
/// the buffer length); move the cursor to the upper bound, clipped to
/// a valid cursor position. A non-positive bound is an address error.
/// The buffer is never changed.
pub open spec fn spec_print(
    addr: Address,
    pre: EditorState,
    post: EditorState,
    r: Result<ExecutionOutcome, ExecError>,
) -> bool {
    let len = pre.buffer@.len() as int;
    let (lo, up) = spec_resolve_range(
        addr,
        first_line_default(),
        last_line_default(),
        pre.current_line as int,
        len,
    );
    if lo < 1 || up < 1 {
        state_unchanged(pre, post) && r == Err::<ExecutionOutcome, ExecError>(
            ExecError::AddressOutOfRange,
        )
    } else {
        &&& post.buffer@ == pre.buffer@
        &&& post.current_line as int == min(up, len + 1)
        &&& post.mode == Mode::Normal
        &&& r matches Ok(ExecutionOutcome::Ran { printed, mode }) && printed@
            == spec_printed_lines(pre.buffer@, lo, up) && mode == Mode::Normal
    }
}

/// What `execute` does for every command.
pub open spec fn spec_execute(
    cmd: Command,
    pre: EditorState,
    post: EditorState,
    r: Result<ExecutionOutcome, ExecError>,
) -> bool {
    match cmd {
        Command::Append(c) => spec_append(c.addr, pre, post, r),
        Command::Change(c) => spec_change(c.addr, pre, post, r),
        Command::PrintNoLines(c) => spec_print(c.addr, pre, post, r),
        Command::Move(_) => state_unchanged(pre, post) && r matches Ok(
            ExecutionOutcome::NotSupported,
        ),
        Command::Insert(_) => state_unchanged(pre, post) && r matches Ok(
            ExecutionOutcome::NotSupported,
        ),
    }
}

fn run_append(addr: &Address, state: &mut EditorState) -> (r: Result<ExecutionOutcome, ExecError>)
    requires
        old(state).wf(),
    ensures
        final(state).wf(),
        spec_append(*addr, *old(state), *final(state), r),
{
    let len = state.buffer.len();
    let d = SingularAddress { position: AddressPosition::CurrentLine, offset: 0 };
    let (_, up) = resolve_range(addr, &d, &d, state.current_line, len);
    if up < 0 {
        return Err(ExecError::AddressOutOfRange);
    }
    let clipped: usize = if up >= len as i128 {
        len
    } else {
        up as usize
    };
    state.current_line = clipped + 1;
    state.mode = Mode::Insert;
    let printed: Vec<String> = Vec::new();
    proof {
        assert(printed@ =~= Seq::<String>::empty());
    }
    Ok(ExecutionOutcome::Ran { printed, mode: Mode::Insert })
}

fn run_change(addr: &Address, state: &mut EditorState) -> (r: Result<ExecutionOutcome, ExecError>)
    requires
        old(state).wf(),
    ensures
        final(state).wf(),
        spec_change(*addr, *old(state), *final(state), r),
{
    let len = state.buffer.len();
    let d = SingularAddress { position: AddressPosition::CurrentLine, offset: 0 };
    let (lo, up) = resolve_range(addr, &d, &d, state.current_line, len);
    if lo < 1 || up < 1 {
        return Err(ExecError::AddressOutOfRange);
    }
    let ghost buf0 = state.buffer@;
    let hi: i128 = if up <= len as i128 - 1 {
        up
    } else {
        len as i128 - 1
    };
    if hi >= lo {
        let lo_us: usize = lo as usize;
        let count: usize = (hi - lo + 1) as usize;
        let mut t: usize = 0;
        while t < count
            invariant
                1 <= lo_us,
                lo_us as int == lo as int,
                t <= count,
                count as int == spec_delete_count(lo as int, up as int, buf0.len() as int),
                lo_us as int + count as int - 1 <= buf0.len() - 1,
                state.buffer@.len() == buf0.len() - t,
                state.buffer@ == buf0.subrange(0, lo_us as int - 1) + buf0.subrange(
                    lo_us as int - 1 + t as int,
                    buf0.len() as int,
                ),
            decreases count - t,
        {
            state.buffer.remove(lo_us - 1);
            proof {
                assert_seqs_equal!(
                    state.buffer@ == buf0.subrange(0, lo_us as int - 1)
                        + buf0.subrange(lo_us as int + t as int, buf0.len() as int)
                );
            }
            t = t + 1;
        }
        proof {
            assert(state.buffer@ =~= spec_buffer_after_change(buf0, lo as int, up as int));
        }
    } else {
        proof {
            assert(spec_delete_count(lo as int, up as int, buf0.len() as int) == 0);
        }
    }
    let new_len = state.buffer.len();
    let cursor: usize = if lo >= new_len as i128 + 1 {
        new_len + 1
    } else {
        lo as usize
    };
    state.current_line = cursor;
    state.mode = Mode::Insert;
    let printed: Vec<String> = Vec::new();
    proof {
        assert(printed@ =~= Seq::<String>::empty());
    }
    Ok(ExecutionOutcome::Ran { printed, mode: Mode::Insert })
}

fn run_print(addr: &Address, state: &mut EditorState) -> (r: Result<ExecutionOutcome, ExecError>)
    requires
        old(state).wf(),
    ensures
        final(state).wf(),
        spec_print(*addr, *old(state), *final(state), r),
{
    let len = state.buffer.len();
    let d1 = SingularAddress { position: AddressPosition::Line(1), offset: 0 };
    let d2 = SingularAddress { position: AddressPosition::LastLine, offset: 0 };
    let (lo, up) = resolve_range(addr, &d1, &d2, state.current_line, len);
    if lo < 1 || up < 1 {
        return Err(ExecError::AddressOutOfRange);
    }
    let mut printed: Vec<String> = Vec::new();
    let hi: i128 = if up <= len as i128 - 1 {
        up
    } else {
        len as i128 - 1
    };
    if hi >= lo {
        let lo_us: usize = lo as usize;
        let hi_us: usize = hi as usize;
        let mut i: usize = lo_us;
        while i <= hi_us
            invariant
                1 <= lo_us <= i,
                i <= hi_us + 1,
                hi_us as int == clipped_upper(up as int, state.buffer@.len() as int),
                lo_us as int == lo as int,
                hi_us < state.buffer@.len(),
                state.buffer@.len() < usize::MAX,
                printed@ == state.buffer@.subrange(lo_us as int - 1, i as int - 1),
            decreases hi_us + 1 - i,
        {
            let line = state.buffer[i - 1].clone();
            printed.push(line);
            proof {
                assert_seqs_equal!(
                    printed@ == state.buffer@.subrange(lo_us as int - 1, i as int)
                );
            }
            i = i + 1;
        }
        proof {
            assert(printed@ =~= spec_printed_lines(state.buffer@, lo as int, up as int));
        }
    } else {
        proof {
            assert(printed@ =~= spec_printed_lines(state.buffer@, lo as int, up as int));
        }
    }
    let cursor: usize = if up >= len as i128 + 1 {
        len + 1
    } else {
        up as usize
    };
    state.current_line = cursor;
    state.mode = Mode::Normal;
    Ok(ExecutionOutcome::Ran { printed, mode: Mode::Normal })
}

/// Executes one parsed command against the editor state, reporting
/// any emitted lines and the mode the driver must switch to.
pub fn execute(cmd: &Command, state: &mut EditorState) -> (r: Result<ExecutionOutcome, ExecError>)
    requires
        old(state).wf(),
    ensures
        final(state).wf(),
        spec_execute(*cmd, *old(state), *final(state), r),
{
    match cmd {
        Command::Append(c) => run_append(&c.addr, state),
        Command::Change(c) => run_change(&c.addr, state),
        Command::PrintNoLines(c) => run_print(&c.addr, state),
        Command::Move(_) => Ok(ExecutionOutcome::NotSupported),
        Command::Insert(_) => Ok(ExecutionOutcome::NotSupported),
    }
}

/// The line that leaves insert mode: a lone `.`.
pub open spec fn is_terminator(l: Seq<char>) -> bool {
    l =~= seq!['.']
}

/// Consumes one raw input line while in insert mode. A lone `.` ends
/// the mode without being inserted; any other line is inserted at the
/// cursor, which advances past it.
pub fn feed_insert_line(line: String, state: &mut EditorState) -> (r: ModeOutcome)
    requires
        old(state).wf(),
        old(state).mode == Mode::Insert,
        old(state).buffer@.len() + 2 <= usize::MAX,
    ensures
        final(state).wf(),
        is_terminator(line@) ==> r == ModeOutcome::Terminated && final(state).mode == Mode::Normal
            && final(state).buffer@ == old(state).buffer@ && final(state).current_line == old(
            state,
        ).current_line,
        !is_terminator(line@) ==> r == ModeOutcome::Inserted && final(state).mode == Mode::Insert
            && final(state).buffer@ == old(state).buffer@.insert(
            old(state).current_line - 1,
            line,
        ) && final(state).current_line == old(state).current_line + 1,
{
    let dot: String = ".".to_owned();
    proof {
        reveal_strlit(".");
        assert("."@ =~= seq!['.']);
    }
    if line == dot {
        state.mode = Mode::Normal;
        ModeOutcome::Terminated
    } else {
        let at = state.current_line - 1;
        state.buffer.insert(at, line);
        state.current_line = state.current_line + 1;
        ModeOutcome::Inserted
    }
}

} // verus!
