use lineview::file::{visible_lines, File};
use lineview::index::{line_count, max_columns, Metadata};
use lineview::ui::{
    handle_event, line_percent, parse_cmd, try_parse_lineno, Command, EventResult, UIState,
    UiEvent,
};

fn mk_file(bytes: &[u8]) -> File {
    let mut m = memmap::MmapMut::map_anon(bytes.len()).unwrap();
    m.copy_from_slice(bytes);
    File::from_map(m.make_read_only().unwrap())
}

#[test]
fn three_line_file_counts() {
    let f = mk_file("hi\nwörld\n!\n".as_bytes());
    let idx = Metadata::new(&f);
    assert_eq!(f.build_linemap(&idx), Some(3));
    assert_eq!(line_count(&idx), 3);
    assert_eq!(max_columns(&idx), 5);
    let h = idx.snapshot();
    let m = h.borrow();
    assert_eq!(m.line_column_count(0), 2);
    assert_eq!(m.line_column_count(1), 5);
    assert_eq!(m.line_column_count(2), 1);
    let s = f.get_text(m, 1, 0, 2);
    assert_eq!(s, "wö");
    h.release_read();
}

#[test]
fn line_spans_are_contiguous() {
    let f = mk_file(b"a\nbb\nccc");
    let idx = Metadata::new(&f);
    assert_eq!(f.build_linemap(&idx), Some(3));
    let h = idx.snapshot();
    let m = h.borrow();
    assert_eq!(m.line_start_byte(0), 0);
    assert_eq!(m.line_byte_length(0), 2);
    assert_eq!(m.line_start_byte(1), 2);
    assert_eq!(m.line_byte_length(1), 3);
    assert_eq!(m.line_start_byte(2), 5);
    assert_eq!(m.line_byte_length(2), 3);
    assert_eq!(m.line_start_byte(0) + m.line_byte_length(0), m.line_start_byte(1));
    assert_eq!(m.line_start_byte(1) + m.line_byte_length(1), m.line_start_byte(2));
    h.release_read();
}

#[test]
fn unterminated_last_line_counts_once() {
    let f = mk_file(b"a\nb");
    let idx = Metadata::new(&f);
    assert_eq!(f.build_linemap(&idx), Some(2));
    assert_eq!(line_count(&idx), 2);
    let h = idx.snapshot();
    let m = h.borrow();
    assert_eq!(m.line_byte_length(1), 1);
    assert_eq!(m.line_column_count(1), 1);
    assert_eq!(f.get_text(m, 1, 0, 5), "b");
    h.release_read();
}

#[test]
fn newline_only_lines_have_no_columns() {
    let f = mk_file(b"\n\n\n");
    let idx = Metadata::new(&f);
    assert_eq!(f.build_linemap(&idx), Some(3));
    assert_eq!(max_columns(&idx), 0);
    let h = idx.snapshot();
    let m = h.borrow();
    assert_eq!(m.line_column_count(0), 0);
    assert_eq!(m.line_byte_length(0), 1);
    assert_eq!(f.get_text(m, 0, 0, 10), "");
    h.release_read();
}

#[test]
fn empty_column_range_yields_empty_text() {
    let f = mk_file("hi\nwörld\n!\n".as_bytes());
    let idx = Metadata::new(&f);
    f.build_linemap(&idx);
    let h = idx.snapshot();
    let m = h.borrow();
    assert_eq!(f.get_text(m, 0, 0, 0), "");
    assert_eq!(f.get_text(m, 1, 3, 3), "");
    assert_eq!(f.get_text(m, 2, 100, 100), "");
    assert_eq!(f.get_text(m, 1, 3, 1), "");
    h.release_read();
}

#[test]
fn clamping_far_col_end_is_idempotent() {
    let f = mk_file("hi\nwörld\n!\n".as_bytes());
    let idx = Metadata::new(&f);
    f.build_linemap(&idx);
    let h = idx.snapshot();
    let m = h.borrow();
    assert_eq!(f.get_text(m, 1, 1, 1000), f.get_text(m, 1, 1, 5));
    assert_eq!(f.get_text(m, 1, 1, 1000), "örld");
    h.release_read();
}

#[test]
fn past_the_end_window_is_empty() {
    let f = mk_file(b"hi\n");
    let idx = Metadata::new(&f);
    f.build_linemap(&idx);
    let h = idx.snapshot();
    let m = h.borrow();
    assert_eq!(f.get_text(m, 0, 5, 10), "");
    h.release_read();
}

#[test]
fn undecodable_line_keeps_byte_accounting() {
    let f = mk_file(&[b'a', b'b', b'\n', 0xff, 0xfe, b'\n', b'c', b'\n']);
    let idx = Metadata::new(&f);
    assert_eq!(f.build_linemap(&idx), Some(3));
    let h = idx.snapshot();
    let m = h.borrow();
    assert_eq!(m.line_column_count(1), 2);
    assert_eq!(m.line_byte_length(1), 3);
    assert_eq!(m.line_start_byte(2), 6);
    assert_eq!(f.get_text(m, 1, 0, 10), "");
    assert_eq!(f.get_text(m, 2, 0, 10), "c");
    h.release_read();
}

#[test]
fn rebuild_leaves_index_unchanged() {
    let f = mk_file(b"one\ntwo\n");
    let idx = Metadata::new(&f);
    assert_eq!(f.build_linemap(&idx), Some(2));
    assert_eq!(f.build_linemap(&idx), Some(2));
    assert_eq!(line_count(&idx), 2);
    assert_eq!(max_columns(&idx), 3);
}

#[test]
fn fresh_index_is_empty() {
    let f = mk_file(b"data\n");
    let idx = Metadata::new(&f);
    assert_eq!(line_count(&idx), 0);
    assert_eq!(max_columns(&idx), 0);
}

#[test]
fn visible_lines_clip_to_window() {
    let f = mk_file(b"alpha\nbeta\ngamma\n");
    let idx = Metadata::new(&f);
    f.build_linemap(&idx);
    let v = visible_lines(&f, &idx, 1, 1, 4, 10);
    assert_eq!(v, vec!["eta", "amm"]);
    let v = visible_lines(&f, &idx, 0, 0, 100, 2);
    assert_eq!(v, vec!["alpha", "beta"]);
    let v = visible_lines(&f, &idx, 5, 0, 100, 2);
    assert_eq!(v, Vec::<&str>::new());
}

#[test]
fn parse_lineno_reads_digits() {
    assert_eq!(try_parse_lineno(":12"), Some(12));
    assert_eq!(try_parse_lineno(":+7"), Some(7));
    assert_eq!(try_parse_lineno(":0"), Some(0));
    assert_eq!(try_parse_lineno(":18446744073709551615"), Some(u64::MAX));
}

#[test]
fn parse_lineno_rejects_junk() {
    assert_eq!(try_parse_lineno(""), None);
    assert_eq!(try_parse_lineno(":"), None);
    assert_eq!(try_parse_lineno(":+"), None);
    assert_eq!(try_parse_lineno(":x"), None);
    assert_eq!(try_parse_lineno(":1x"), None);
    assert_eq!(try_parse_lineno(":99999999999999999999"), None);
}

#[test]
fn scrolling_clamps_at_edges() {
    let mut ui = UIState::new(String::from("f"));
    ui.scroll_up(1);
    assert_eq!(ui.cur_line, 0);
    ui.scroll_down(5, 2);
    assert_eq!(ui.cur_line, 2);
    ui.scroll_down(5, 100);
    assert_eq!(ui.cur_line, 4);
    ui.scroll_up(1);
    assert_eq!(ui.cur_line, 3);
    ui.scroll_down(0, 1);
    assert_eq!(ui.cur_line, 0);
    ui.scroll_right(4, 10);
    assert_eq!(ui.cur_col, 3);
    ui.scroll_left(1);
    assert_eq!(ui.cur_col, 2);
    ui.scroll_left(10);
    assert_eq!(ui.cur_col, 0);
    ui.scroll_right(0, 1);
    assert_eq!(ui.cur_col, 0);
}

#[test]
fn scroll_to_y_clamps() {
    let mut ui = UIState::new(String::from("f"));
    ui.scroll_to_y(10, 4);
    assert_eq!(ui.cur_line, 4);
    ui.scroll_to_y(10, 99);
    assert_eq!(ui.cur_line, 9);
    ui.scroll_to_y(0, 3);
    assert_eq!(ui.cur_line, 0);
}

#[test]
fn command_box_composes_and_cancels() {
    let mut ui = UIState::new(String::from("f"));
    handle_event(&mut ui, UiEvent::Char(':'), 0, 0);
    match &ui.cmd {
        Command::Cmd(s) => assert_eq!(s, ":"),
        _ => panic!("expected a composing command"),
    }
    handle_event(&mut ui, UiEvent::Char('4'), 0, 0);
    handle_event(&mut ui, UiEvent::Char('2'), 0, 0);
    match &ui.cmd {
        Command::Cmd(s) => assert_eq!(s, ":42"),
        _ => panic!("expected a composing command"),
    }
    handle_event(&mut ui, UiEvent::Backspace, 0, 0);
    match &ui.cmd {
        Command::Cmd(s) => assert_eq!(s, ":4"),
        _ => panic!("expected a composing command"),
    }
    handle_event(&mut ui, UiEvent::Esc, 0, 0);
    assert!(matches!(ui.cmd, Command::Idle));
}

#[test]
fn quit_command_exits() {
    let mut ui = UIState::new(String::from("f"));
    handle_event(&mut ui, UiEvent::Char(':'), 0, 0);
    handle_event(&mut ui, UiEvent::Char('q'), 0, 0);
    let r = handle_event(&mut ui, UiEvent::Enter, 0, 0);
    assert!(matches!(r, EventResult::Exit));
}

#[test]
fn line_command_jumps_one_based() {
    let mut ui = UIState::new(String::from("f"));
    let r = parse_cmd(":3", 10, &mut ui);
    assert!(matches!(r, EventResult::Continue));
    assert_eq!(ui.cur_line, 2);
    assert!(matches!(ui.cmd, Command::Idle));
    parse_cmd(":0", 10, &mut ui);
    assert_eq!(ui.cur_line, 0);
    parse_cmd(":99", 10, &mut ui);
    assert_eq!(ui.cur_line, 9);
}

#[test]
fn bad_command_reports_error_then_clears() {
    let mut ui = UIState::new(String::from("f"));
    let r = parse_cmd(":zz", 10, &mut ui);
    assert!(matches!(r, EventResult::Continue));
    match &ui.cmd {
        Command::Error(e) => assert_eq!(e, "Invalid command: ':zz'"),
        _ => panic!("expected an error"),
    }
    handle_event(&mut ui, UiEvent::Other, 0, 0);
    assert!(matches!(ui.cmd, Command::Idle));
}

#[test]
fn arrow_events_move_viewport() {
    let mut ui = UIState::new(String::from("f"));
    handle_event(&mut ui, UiEvent::Down, 5, 5);
    handle_event(&mut ui, UiEvent::Down, 5, 5);
    assert_eq!(ui.cur_line, 2);
    handle_event(&mut ui, UiEvent::Up, 5, 5);
    assert_eq!(ui.cur_line, 1);
    handle_event(&mut ui, UiEvent::Right, 5, 5);
    assert_eq!(ui.cur_col, 1);
    handle_event(&mut ui, UiEvent::Left, 5, 5);
    assert_eq!(ui.cur_col, 0);
}

#[test]
fn percent_of_file() {
    assert_eq!(line_percent(1, 3), 33);
    assert_eq!(line_percent(3, 3), 100);
    assert_eq!(line_percent(0, 0), 0);
}

#[test]
fn many_lines_are_indexed_in_order() {
    let mut data = String::new();
    for i in 0..500 {
        data.push_str(&format!("line number {}\n", i));
    }
    let f = mk_file(data.as_bytes());
    let idx = Metadata::new(&f);
    assert_eq!(f.build_linemap(&idx), Some(500));
    assert_eq!(line_count(&idx), 500);
    let h = idx.snapshot();
    let m = h.borrow();
    assert_eq!(f.get_text(m, 0, 0, 100), "line number 0");
    assert_eq!(f.get_text(m, 499, 0, 100), "line number 499");
    assert_eq!(m.line_start_byte(1), "line number 0\n".len());
    h.release_read();
}
