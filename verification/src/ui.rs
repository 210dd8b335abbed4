//! The interactive state around the viewer: the viewport cursor, the
//! command-box state machine, and the decisions taken on each input event.
//! The event loop itself (terminal I/O) lives outside; it hands events and
//! the index's current counters in, and carries the decisions out.

use vstd::prelude::*;

verus! {

/// The command box: empty, composing a command, or showing an error.
pub enum Command {
    Idle,
    Cmd(String),
    Error(String),
}

/// What the event loop should do after an event has been handled.
pub enum EventResult {
    Continue,
    Exit,
}

/// An input event, reduced to what the viewer reacts to. Mouse wheel
/// scrolling arrives as the matching arrow direction.
pub enum UiEvent {
    Enter,
    Char(char),
    Backspace,
    Esc,
    Up,
    Down,
    Left,
    Right,
    Other,
}

/// The viewport cursor and command-box state.
pub struct UIState {
    pub cur_line: usize,
    pub cur_col: usize,
    pub filename: String,
    pub cmd: Command,
}

/// Relies on `String::push`: appends one character at the end.
#[verifier::external_body]
fn push_char(s: &mut String, c: char)
    ensures
        final(s)@ == old(s)@.push(c),
{
    s.push(c);
}

/// Relies on `String::pop`: removes and returns the last character, if any.
#[verifier::external_body]
fn pop_char(s: &mut String) -> (r: Option<char>)
    ensures
        old(s)@.len() == 0 ==> final(s)@ == old(s)@ && r is None,
        old(s)@.len() > 0 ==> final(s)@ == old(s)@.drop_last() && r == Some(old(s)@.last()),
{
    s.pop()
}

impl UIState {
    pub fn new(filename: String) -> (r: UIState)
        ensures
            r.cur_line == 0,
            r.cur_col == 0,
            r.filename == filename,
            r.cmd is Idle,
    {
        UIState { cur_line: 0, cur_col: 0, filename, cmd: Command::Idle }
    }

    /// Jump to `line`, clamped to the last line known so far.
    pub fn scroll_to_y(&mut self, num_lines: usize, line: usize)
        ensures
            final(self).cur_line as int == (if num_lines == 0 {
                0int
            } else if line as int <= num_lines - 1 {
                line as int
            } else {
                num_lines - 1
            }),
            final(self).cur_col == old(self).cur_col,
            final(self).filename == old(self).filename,
            final(self).cmd == old(self).cmd,
    {
        let newpos = if num_lines > 0 {
            if line <= num_lines - 1 {
                line
            } else {
                num_lines - 1
            }
        } else {
            0
        };
        self.cur_line = newpos;
    }

    /// Scroll up by `amt` lines, stopping at the first line.
    pub fn scroll_up(&mut self, amt: usize)
        ensures
            final(self).cur_line as int == (if amt > old(self).cur_line {
                0int
            } else {
                old(self).cur_line - amt
            }),
            final(self).cur_col == old(self).cur_col,
            final(self).filename == old(self).filename,
            final(self).cmd == old(self).cmd,
    {
        let newpos: usize = if amt > self.cur_line {
            0
        } else {
            self.cur_line - amt
        };
        self.cur_line = newpos;
    }

    /// Scroll down by `amt` lines, stopping at the last line known so far.
    pub fn scroll_down(&mut self, num_lines: usize, amt: usize)
        ensures
            final(self).cur_line as int == (if num_lines == 0 {
                0int
            } else if old(self).cur_line + amt <= num_lines - 1 {
                old(self).cur_line + amt
            } else {
                num_lines - 1
            }),
            final(self).cur_col == old(self).cur_col,
            final(self).filename == old(self).filename,
            final(self).cmd == old(self).cmd,
    {
        let newpos = if num_lines > 0 {
            let cap = num_lines - 1;
            if self.cur_line >= cap {
                cap
            } else if amt >= cap - self.cur_line {
                cap
            } else {
                self.cur_line + amt
            }
        } else {
            0
        };
        self.cur_line = newpos;
    }

    /// Scroll left by `amt` columns, stopping at the first column.
    pub fn scroll_left(&mut self, amt: usize)
        ensures
            final(self).cur_col as int == (if amt > old(self).cur_col {
                0int
            } else {
                old(self).cur_col - amt
            }),
            final(self).cur_line == old(self).cur_line,
            final(self).filename == old(self).filename,
            final(self).cmd == old(self).cmd,
    {
        let newpos: usize = if amt > self.cur_col {
            0
        } else {
            self.cur_col - amt
        };
        self.cur_col = newpos;
    }

    /// Scroll right by `amt` columns, stopping at the widest column known
    /// so far.
    pub fn scroll_right(&mut self, max_col: usize, amt: usize)
        ensures
            final(self).cur_col as int == (if max_col == 0 {
                0int
            } else if old(self).cur_col + amt <= max_col - 1 {
                old(self).cur_col + amt
            } else {
                max_col - 1
            }),
            final(self).cur_line == old(self).cur_line,
            final(self).filename == old(self).filename,
            final(self).cmd == old(self).cmd,
    {
        let newpos = if max_col > 0 {
            let cap = max_col - 1;
            if self.cur_col >= cap {
                cap
            } else if amt >= cap - self.cur_col {
                cap
            } else {
                self.cur_col + amt
            }
        } else {
            0
        };
        self.cur_col = newpos;
    }
}

pub open spec fn is_digit(c: char) -> bool {
    48 <= c as int <= 57
}

pub open spec fn digit_val(c: char) -> nat {
    (c as int - 48) as nat
}

pub open spec fn all_digits(s: Seq<char>) -> bool {
    forall|i: int| 0 <= i < s.len() ==> is_digit(#[trigger] s[i])
}

/// The number a digit string denotes, most significant digit first.
pub open spec fn digits_val(s: Seq<char>) -> nat
    decreases s.len(),
{
    if s.len() == 0 {
        0
    } else {
        digits_val(s.drop_last()) * 10 + digit_val(s.last())
    }
}

/// An unsigned number may carry one leading plus sign.
pub open spec fn strip_plus(s: Seq<char>) -> Seq<char> {
    if s.len() > 0 && s[0] == '+' {
        s.subrange(1, s.len() as int)
    } else {
        s
    }
}

/// The character sequences `u64` parsing accepts: an optional plus sign,
/// then at least one digit, denoting a value that fits.
pub open spec fn parse_u64_ok(s: Seq<char>) -> bool {
    let d = strip_plus(s);
    d.len() > 0 && all_digits(d) && digits_val(d) <= u64::MAX
}

pub open spec fn parse_u64_val(s: Seq<char>) -> nat {
    digits_val(strip_plus(s))
}

/// A longer digit string never denotes a smaller number.
proof fn lemma_digits_val_prefix(s: Seq<char>, j: int)
    requires
        0 <= j <= s.len(),
    ensures
        digits_val(s) >= digits_val(s.subrange(0, j)),
    decreases s.len() - j,
{
    if j == s.len() {
        assert(s.subrange(0, j) =~= s);
    } else {
        lemma_digits_val_prefix(s, j + 1);
        assert(s.subrange(0, j + 1).drop_last() =~= s.subrange(0, j));
        assert(digits_val(s.subrange(0, j + 1)) == digits_val(s.subrange(0, j)) * 10 + digit_val(
            s[j],
        ));
    }
}

/// Reads a line number from a command of the form `:123`: everything after
/// the command's first character must parse as a `u64`.
pub fn try_parse_lineno(cmd: &str) -> (r: Option<u64>)
    ensures
        ({
            let rest = cmd@.subrange(1, cmd@.len() as int);
            &&& r is Some <==> (cmd@.len() >= 2 && parse_u64_ok(rest))
            &&& (r matches Some(v) ==> v as nat == parse_u64_val(rest))
        }),
{
    let n = cmd.unicode_len();
    if n < 2 {
        return None;
    }
    let ghost rest = cmd@.subrange(1, n as int);
    let first: usize = if cmd.get_char(1) == '+' {
        2
    } else {
        1
    };
    proof {
        if cmd@[1] == '+' {
            assert(strip_plus(rest) =~= cmd@.subrange(2, n as int));
        } else {
            assert(strip_plus(rest) =~= cmd@.subrange(1, n as int));
        }
    }
    let ghost ds = strip_plus(rest);
    if first >= n {
        return None;
    }
    let mut val: u64 = 0;
    let mut i: usize = first;
    while i < n
        invariant
            first <= i <= n,
            first < n,
            n as int == cmd@.len(),
            ds == cmd@.subrange(first as int, n as int),
            ds == strip_plus(rest),
            rest == cmd@.subrange(1, n as int),
            all_digits(cmd@.subrange(first as int, i as int)),
            val as nat == digits_val(cmd@.subrange(first as int, i as int)),
        decreases n - i,
    {
        let c = cmd.get_char(i);
        let u = c as u32;
        if u < 48 || u > 57 {
            proof {
                assert(ds[i as int - first as int] == cmd@[i as int]);
            }
            return None;
        }
        let d = (u - 48) as u64;
        let ghost prefix1 = cmd@.subrange(first as int, i as int + 1);
        proof {
            assert(prefix1.drop_last() =~= cmd@.subrange(first as int, i as int));
            assert(prefix1.last() == cmd@[i as int]);
            assert(digits_val(prefix1) == val as nat * 10 + d as nat);
        }
        if val > (u64::MAX - d) / 10 {
            proof {
                assert(val as int * 10 + d as int > u64::MAX as int);
                assert(prefix1 =~= ds.subrange(0, i as int + 1 - first as int));
                lemma_digits_val_prefix(ds, i as int + 1 - first as int);
            }
            return None;
        }
        val = val * 10 + d;
        i = i + 1;
    }
    proof {
        assert(cmd@.subrange(first as int, i as int) =~= ds);
    }
    Some(val)
}

/// The percentage shown in the status line: how far `line_no` (1-based)
/// sits within `num_lines`.
pub fn line_percent(line_no: usize, num_lines: usize) -> (r: usize)
    requires
        line_no <= num_lines,
    ensures
        num_lines == 0 ==> r == 0,
        num_lines > 0 ==> r as int == (line_no as int * 100) / (num_lines as int),
{
    if num_lines == 0 {
        0
    } else {
        let p = (line_no as u128) * 100 / (num_lines as u128);
        proof {
            assert((line_no as int * 100) / (num_lines as int) <= 100) by (nonlinear_arith)
                requires
                    0 < num_lines as int,
                    line_no as int <= num_lines as int,
            ;
        }
        p as usize
    }
}

/// The quit command, `:q`.
pub open spec fn is_quit(s: Seq<char>) -> bool {
    s.len() == 2 && s[0] == ':' && s[1] == 'q'
}

/// What entering a finished command does: `:q` quits; `:123` jumps to that
/// 1-based line (`:0` is allowed and means line 1), clamped to the lines
/// known so far, and closes the command box; anything else leaves the
/// cursor alone and shows an error naming the rejected command.
pub open spec fn parse_cmd_effect(
    cmd: Seq<char>,
    num_lines: usize,
    pre: UIState,
    post: UIState,
    r: EventResult,
) -> bool {
    if is_quit(cmd) {
        &&& r is Exit
        &&& post == pre
    } else if cmd.len() >= 2 && parse_u64_ok(cmd.subrange(1, cmd.len() as int)) {
        let v = parse_u64_val(cmd.subrange(1, cmd.len() as int));
        let target: nat = if v <= 1 {
            0
        } else {
            (v - 1) as nat
        };
        &&& r is Continue
        &&& post.cur_line as int == (if num_lines == 0 {
            0int
        } else if target <= num_lines - 1 {
            target as int
        } else {
            num_lines - 1
        })
        &&& post.cur_col == pre.cur_col
        &&& post.filename == pre.filename
        &&& post.cmd is Idle
    } else {
        &&& r is Continue
        &&& post.cur_line == pre.cur_line
        &&& post.cur_col == pre.cur_col
        &&& post.filename == pre.filename
        &&& (post.cmd matches Command::Error(e) && e@ == "Invalid command: '"@ + cmd + "'"@)
    }
}

/// Runs one finished command against the viewer state.
pub fn parse_cmd(cmd: &str, num_lines: usize, ui: &mut UIState) -> (r: EventResult)
    ensures
        parse_cmd_effect(cmd@, num_lines, *old(ui), *final(ui), r),
{
    let n = cmd.unicode_len();
    if n == 2 && cmd.get_char(0) == ':' && cmd.get_char(1) == 'q' {
        return EventResult::Exit;
    }
    match try_parse_lineno(cmd) {
        Some(v) => {
            // The line number is 1-based in the command, and `:0` is taken
            // as line 1.
            let lineno: u64 = if v >= 1 {
                v - 1
            } else {
                0
            };
            let line_clamped: usize = if lineno >= num_lines as u64 {
                num_lines
            } else {
                lineno as usize
            };
            ui.scroll_to_y(num_lines, line_clamped);
            ui.cmd = Command::Idle;
            EventResult::Continue
        },
        None => {
            let mut msg = String::from_str("Invalid command: '");
            msg.append(cmd);
            msg.append("'");
            ui.cmd = Command::Error(msg);
            EventResult::Continue
        },
    }
}

/// An error shown in the command box goes away at the next event.
pub open spec fn cleared(c: Command) -> Command {
    match c {
        Command::Error(_) => Command::Idle,
        _ => c,
    }
}

/// What one input event does to the viewer state, given the line and
/// column counters read from the index at that moment.
pub open spec fn handle_event_effect(
    ev: UiEvent,
    num_lines: usize,
    max_col: usize,
    pre: UIState,
    post: UIState,
    r: EventResult,
) -> bool {
    let cmd0 = cleared(pre.cmd);
    let base = (UIState {
        cur_line: pre.cur_line,
        cur_col: pre.cur_col,
        filename: pre.filename,
        cmd: cmd0,
    });
    match ev {
        UiEvent::Enter => match cmd0 {
            Command::Cmd(s) => parse_cmd_effect(s@, num_lines, base, post, r),
            _ => post == base && r is Continue,
        },
        UiEvent::Char(c) => {
            &&& r is Continue
            &&& post.cur_line == pre.cur_line
            &&& post.cur_col == pre.cur_col
            &&& post.filename == pre.filename
            &&& match cmd0 {
                Command::Idle => {
                    if c == ':' {
                        post.cmd matches Command::Cmd(s2) && s2@ == seq![':']
                    } else {
                        post.cmd is Idle
                    }
                },
                Command::Cmd(s) => post.cmd matches Command::Cmd(s2) && s2@ == s@.push(c),
                Command::Error(_) => true,
            }
        },
        UiEvent::Backspace => {
            &&& r is Continue
            &&& post.cur_line == pre.cur_line
            &&& post.cur_col == pre.cur_col
            &&& post.filename == pre.filename
            &&& match cmd0 {
                Command::Cmd(s) => post.cmd matches Command::Cmd(s2) && s2@ == (if s@.len() > 0 {
                    s@.drop_last()
                } else {
                    s@
                }),
                _ => post.cmd == cmd0,
            }
        },
        UiEvent::Esc => {
            &&& r is Continue
            &&& post.cur_line == pre.cur_line
            &&& post.cur_col == pre.cur_col
            &&& post.filename == pre.filename
            &&& (match cmd0 {
                Command::Cmd(_) => post.cmd is Idle,
                _ => post.cmd == cmd0,
            })
        },
        UiEvent::Up => {
            &&& r is Continue
            &&& post.cmd == cmd0
            &&& post.cur_col == pre.cur_col
            &&& post.filename == pre.filename
            &&& post.cur_line as int == (if 1 > pre.cur_line {
                0int
            } else {
                pre.cur_line - 1
            })
        },
        UiEvent::Down => {
            &&& r is Continue
            &&& post.cmd == cmd0
            &&& post.cur_col == pre.cur_col
            &&& post.filename == pre.filename
            &&& post.cur_line as int == (if num_lines == 0 {
                0int
            } else if pre.cur_line + 1 <= num_lines - 1 {
                pre.cur_line + 1
            } else {
                num_lines - 1
            })
        },
        UiEvent::Left => {
            &&& r is Continue
            &&& post.cmd == cmd0
            &&& post.cur_line == pre.cur_line
            &&& post.filename == pre.filename
            &&& post.cur_col as int == (if 1 > pre.cur_col {
                0int
            } else {
                pre.cur_col - 1
            })
        },
        UiEvent::Right => {
            &&& r is Continue
            &&& post.cmd == cmd0
            &&& post.cur_line == pre.cur_line
            &&& post.filename == pre.filename
            &&& post.cur_col as int == (if max_col == 0 {
                0int
            } else if pre.cur_col + 1 <= max_col - 1 {
                pre.cur_col + 1
            } else {
                max_col - 1
            })
        },
        UiEvent::Other => post == base && r is Continue,
    }
}

/// Reacts to one input event: composes or runs commands and moves the
/// viewport, against the index counters read at this moment.
pub fn handle_event(ui: &mut UIState, ev: UiEvent, num_lines: usize, max_col: usize) -> (r:
    EventResult)
    ensures
        handle_event_effect(ev, num_lines, max_col, *old(ui), *final(ui), r),
{
    // Any event clears an error from the command box first.
    if let Command::Error(_) = ui.cmd {
        ui.cmd = Command::Idle;
    }
    match ev {
        UiEvent::Enter => {
            let scopy: Option<String> = match &ui.cmd {
                Command::Cmd(s) => Some(s.clone()),
                _ => None,
            };
            match scopy {
                Some(s) => parse_cmd(s.as_str(), num_lines, ui),
                None => EventResult::Continue,
            }
        },
        UiEvent::Char(c) => {
            let start_new = c == ':' && (match &ui.cmd {
                Command::Idle => true,
                _ => false,
            });
            if start_new {
                let s = String::from_str(":");
                proof {
                    reveal_strlit(":");
                    assert(s@ =~= seq![':']);
                }
                ui.cmd = Command::Cmd(s);
            } else {
                let mut taken = Command::Idle;
                core::mem::swap(&mut taken, &mut ui.cmd);
                match taken {
                    Command::Cmd(mut s) => {
                        push_char(&mut s, c);
                        ui.cmd = Command::Cmd(s);
                    },
                    other => {
                        ui.cmd = other;
                    },
                }
            }
            EventResult::Continue
        },
        UiEvent::Backspace => {
            let mut taken = Command::Idle;
            core::mem::swap(&mut taken, &mut ui.cmd);
            match taken {
                Command::Cmd(mut s) => {
                    let _popped = pop_char(&mut s);
                    ui.cmd = Command::Cmd(s);
                },
                other => {
                    ui.cmd = other;
                },
            }
            EventResult::Continue
        },
        UiEvent::Esc => {
            if let Command::Cmd(_) = ui.cmd {
                ui.cmd = Command::Idle;
            }
            EventResult::Continue
        },
        UiEvent::Up => {
            ui.scroll_up(1);
            EventResult::Continue
        },
        UiEvent::Down => {
            ui.scroll_down(num_lines, 1);
            EventResult::Continue
        },
        UiEvent::Left => {
            ui.scroll_left(1);
            EventResult::Continue
        },
        UiEvent::Right => {
            ui.scroll_right(max_col, 1);
            EventResult::Continue
        },
        UiEvent::Other => EventResult::Continue,
    }
}

} // verus!
