use red::editor::{
    execute, feed_insert_line, EditorState, ExecError, ExecutionOutcome, Mode, ModeOutcome,
};
use red::parser::parse_command;

fn lines(v: &[&str]) -> Vec<String> {
    v.iter().map(|s| s.to_string()).collect()
}

fn state_with(buffer: &[&str], current_line: usize) -> EditorState {
    EditorState { current_line, buffer: lines(buffer), mode: Mode::Normal }
}

fn five_lines() -> EditorState {
    state_with(&["L1", "L2", "L3", "L4", "L5"], 1)
}

fn run(state: &mut EditorState, input: &str) -> ExecutionOutcome {
    let cmd = parse_command(input.as_bytes()).unwrap();
    execute(&cmd, state).unwrap()
}

#[test]
fn print_range_scenario() {
    // buffer of 5 lines: `2,4p` prints lines 2..4 in order and the
    // cursor lands on line 4
    let mut st = five_lines();
    let out = run(&mut st, "2,4p");
    assert_eq!(
        out,
        ExecutionOutcome::Ran { printed: lines(&["L2", "L3", "L4"]), mode: Mode::Normal }
    );
    assert_eq!(st.current_line, 4);
    assert_eq!(st.buffer, lines(&["L1", "L2", "L3", "L4", "L5"]));
    assert_eq!(st.mode, Mode::Normal);
}

#[test]
fn append_scenario() {
    // `a` on line 1, then X, Y, `.`: the two lines go in after line 1
    // and the cursor points at the line after Y
    let mut st = five_lines();
    let out = run(&mut st, "a");
    assert_eq!(out, ExecutionOutcome::Ran { printed: vec![], mode: Mode::Insert });
    assert_eq!(st.mode, Mode::Insert);
    assert_eq!(st.current_line, 2);
    assert_eq!(feed_insert_line("X".to_string(), &mut st), ModeOutcome::Inserted);
    assert_eq!(feed_insert_line("Y".to_string(), &mut st), ModeOutcome::Inserted);
    assert_eq!(feed_insert_line(".".to_string(), &mut st), ModeOutcome::Terminated);
    assert_eq!(st.buffer, lines(&["L1", "X", "Y", "L2", "L3", "L4", "L5"]));
    assert_eq!(st.current_line, 4);
    assert_eq!(st.mode, Mode::Normal);
}

#[test]
fn change_scenario() {
    // `2,3c` then Z, `.`: lines 2 and 3 give way to Z
    let mut st = five_lines();
    let out = run(&mut st, "2,3c");
    assert_eq!(out, ExecutionOutcome::Ran { printed: vec![], mode: Mode::Insert });
    assert_eq!(st.buffer, lines(&["L1", "L4", "L5"]));
    assert_eq!(st.current_line, 2);
    assert_eq!(feed_insert_line("Z".to_string(), &mut st), ModeOutcome::Inserted);
    assert_eq!(feed_insert_line(".".to_string(), &mut st), ModeOutcome::Terminated);
    assert_eq!(st.buffer, lines(&["L1", "Z", "L4", "L5"]));
    assert_eq!(st.buffer.len(), 4);
    assert_eq!(st.mode, Mode::Normal);
}

#[test]
fn append_at_line_zero_is_defined() {
    // `0a` is grammatical and inserts at the very top
    let mut st = five_lines();
    st.current_line = 3;
    let out = run(&mut st, "0a");
    assert_eq!(out, ExecutionOutcome::Ran { printed: vec![], mode: Mode::Insert });
    assert_eq!(st.current_line, 1);
    assert_eq!(feed_insert_line("T".to_string(), &mut st), ModeOutcome::Inserted);
    assert_eq!(st.buffer, lines(&["T", "L1", "L2", "L3", "L4", "L5"]));
}

#[test]
fn append_past_end_clips_to_end() {
    let mut st = five_lines();
    let out = run(&mut st, "99a");
    assert_eq!(out, ExecutionOutcome::Ran { printed: vec![], mode: Mode::Insert });
    assert_eq!(st.current_line, 6);
    assert_eq!(feed_insert_line("End".to_string(), &mut st), ModeOutcome::Inserted);
    assert_eq!(st.buffer, lines(&["L1", "L2", "L3", "L4", "L5", "End"]));
}

#[test]
fn negative_append_address_fails() {
    let mut st = five_lines();
    st.current_line = 2;
    let cmd = parse_command(b"-9a").unwrap();
    let r = execute(&cmd, &mut st);
    assert_eq!(r, Err(ExecError::AddressOutOfRange));
    assert_eq!(st.buffer, lines(&["L1", "L2", "L3", "L4", "L5"]));
    assert_eq!(st.current_line, 2);
    assert_eq!(st.mode, Mode::Normal);
}

#[test]
fn zero_bound_fails_for_change_and_print() {
    let mut st = five_lines();
    let cmd = parse_command(b"0c").unwrap();
    assert_eq!(execute(&cmd, &mut st), Err(ExecError::AddressOutOfRange));
    let cmd = parse_command(b"0p").unwrap();
    assert_eq!(execute(&cmd, &mut st), Err(ExecError::AddressOutOfRange));
    assert_eq!(st.buffer.len(), 5);
    assert_eq!(st.current_line, 1);
}

#[test]
fn print_truncates_at_buffer_length() {
    // iteration stops as soon as an index reaches the buffer length
    let mut st = five_lines();
    let out = run(&mut st, "1,9p");
    assert_eq!(
        out,
        ExecutionOutcome::Ran { printed: lines(&["L1", "L2", "L3", "L4"]), mode: Mode::Normal }
    );
    assert_eq!(st.current_line, 6);
}

#[test]
fn bare_print_defaults_to_whole_buffer() {
    let mut st = five_lines();
    st.current_line = 3;
    let out = run(&mut st, "p");
    assert_eq!(
        out,
        ExecutionOutcome::Ran { printed: lines(&["L1", "L2", "L3", "L4"]), mode: Mode::Normal }
    );
    assert_eq!(st.current_line, 5);
}

#[test]
fn change_truncates_at_buffer_length() {
    let mut st = five_lines();
    let out = run(&mut st, "3,9c");
    assert_eq!(out, ExecutionOutcome::Ran { printed: vec![], mode: Mode::Insert });
    // lines 3 and 4 go; the last line survives the truncating walk
    assert_eq!(st.buffer, lines(&["L1", "L2", "L5"]));
    assert_eq!(st.current_line, 3);
}

#[test]
fn bare_change_replaces_current_line() {
    let mut st = five_lines();
    st.current_line = 2;
    let out = run(&mut st, "c");
    assert_eq!(out, ExecutionOutcome::Ran { printed: vec![], mode: Mode::Insert });
    assert_eq!(st.buffer, lines(&["L1", "L3", "L4", "L5"]));
    assert_eq!(st.current_line, 2);
    assert_eq!(feed_insert_line("R".to_string(), &mut st), ModeOutcome::Inserted);
    assert_eq!(feed_insert_line(".".to_string(), &mut st), ModeOutcome::Terminated);
    assert_eq!(st.buffer, lines(&["L1", "R", "L3", "L4", "L5"]));
}

#[test]
fn relative_range_prints_displaced_span() {
    // `2;+2p` prints lines 2 through 4
    let mut st = five_lines();
    let out = run(&mut st, "2;+2p");
    assert_eq!(
        out,
        ExecutionOutcome::Ran { printed: lines(&["L2", "L3", "L4"]), mode: Mode::Normal }
    );
    assert_eq!(st.current_line, 4);
}

#[test]
fn move_and_insert_are_not_supported() {
    let mut st = five_lines();
    st.current_line = 2;
    let cmd = parse_command(b"1m2").unwrap();
    assert_eq!(execute(&cmd, &mut st), Ok(ExecutionOutcome::NotSupported));
    let cmd = parse_command(b"3i").unwrap();
    assert_eq!(execute(&cmd, &mut st), Ok(ExecutionOutcome::NotSupported));
    assert_eq!(st.buffer, lines(&["L1", "L2", "L3", "L4", "L5"]));
    assert_eq!(st.current_line, 2);
    assert_eq!(st.mode, Mode::Normal);
}

#[test]
fn fresh_editor_is_empty() {
    let st = EditorState::new();
    assert_eq!(st.current_line, 1);
    assert_eq!(st.buffer.len(), 0);
    assert_eq!(st.mode, Mode::Normal);
}

#[test]
fn insert_mode_into_empty_buffer() {
    let mut st = EditorState::new();
    let out = run(&mut st, "a");
    assert_eq!(out, ExecutionOutcome::Ran { printed: vec![], mode: Mode::Insert });
    assert_eq!(st.current_line, 1);
    assert_eq!(feed_insert_line("first".to_string(), &mut st), ModeOutcome::Inserted);
    assert_eq!(feed_insert_line(".".to_string(), &mut st), ModeOutcome::Terminated);
    assert_eq!(st.buffer, lines(&["first"]));
    assert_eq!(st.current_line, 2);
}

#[test]
fn dot_line_terminates_without_inserting() {
    let mut st = five_lines();
    run(&mut st, "a");
    let before = st.buffer.clone();
    assert_eq!(feed_insert_line(".".to_string(), &mut st), ModeOutcome::Terminated);
    assert_eq!(st.buffer, before);
    assert_eq!(st.mode, Mode::Normal);
}
