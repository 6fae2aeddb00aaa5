//! The command interpreter: tokenizes the composed command line with
//! POSIX-shell word splitting (the `shellwords` crate) and parses the
//! first word as a verb of a fixed grammar.  Every failure is recovered
//! into a status message; persistence is requested from the caller
//! through a [`CommandAction`](crate::editor::CommandAction), never
//! performed here.

use vstd::prelude::*;
use vstd::utf8::{decode_utf8, encode_utf8};
use vstd::string::{StringExecFns, StrSliceExecFns};
use crate::editor::{Editor, Mode, CommandAction};
use crate::text::{rope_bytes, rope_new, rope_to_string};

verus! {

/// What POSIX-shell word splitting yields for a command line: its words,
/// or nothing when a quote is left open.
pub uninterp spec fn shell_split(s: Seq<char>) -> Option<Seq<Seq<char>>>;

/// Relies on `shellwords::split`: Bourne-shell word splitting, a pure
/// function of the input; mismatched quotes are the only error.
#[verifier::external_body]
fn shell_split_exec(s: &str) -> (r: Option<Vec<String>>)
    ensures
        r.deep_view() == shell_split(s@),
{
    shellwords::split(s).ok()
}

/// The token that switches `echo` to an error-styled message.
pub open spec fn err_flag() -> Seq<char> {
    "--error"@
}

/// The words `echo` prints: its arguments with every `--error` removed.
pub open spec fn echo_words(args: Seq<Seq<char>>) -> Seq<Seq<char>>
    decreases args.len(),
{
    if args.len() == 0 {
        Seq::empty()
    } else {
        let front = echo_words(args.drop_last());
        if args.last() == err_flag() {
            front
        } else {
            front.push(args.last())
        }
    }
}

/// Whether `echo` was asked for an error-styled message.
pub open spec fn echo_is_error(args: Seq<Seq<char>>) -> bool
    decreases args.len(),
{
    if args.len() == 0 {
        false
    } else {
        echo_is_error(args.drop_last()) || args.last() == err_flag()
    }
}

/// Words joined with single spaces.
pub open spec fn join_spaces(ws: Seq<Seq<char>>) -> Seq<char>
    decreases ws.len(),
{
    if ws.len() == 0 {
        Seq::empty()
    } else if ws.len() == 1 {
        ws[0]
    } else {
        join_spaces(ws.drop_last()) + seq![' '] + ws.last()
    }
}

pub open spec fn is_digit(c: char) -> bool {
    48 <= c as int <= 57
}

/// The value of a decimal digit string (most significant first).
pub open spec fn digits_val(t: Seq<char>) -> int
    decreases t.len(),
{
    if t.len() == 0 {
        0
    } else {
        digits_val(t.drop_last()) * 10 + (t.last() as int - 48)
    }
}

pub open spec fn all_digits(t: Seq<char>) -> bool {
    t.len() > 0 && forall|i: int| 0 <= i < t.len() ==> is_digit(#[trigger] t[i])
}

/// A small exit code: decimal digits after an optional `+`, up to 255.
pub open spec fn parse_u8_spec(t: Seq<char>) -> Option<u8> {
    let body = if t.len() > 0 && t[0] == '+' {
        t.drop_first()
    } else {
        t
    };
    if all_digits(body) && digits_val(body) <= 255 {
        Some(digits_val(body) as u8)
    } else {
        None
    }
}

/// Status text for a verb outside the grammar.
pub open spec fn unknown_verb_msg(v: Seq<char>) -> Seq<char> {
    "unrecognized subcommand '"@ + v + "'"@
}

/// Status text for an argument a verb does not take.
pub open spec fn unexpected_arg_msg(a: Seq<char>) -> Seq<char> {
    "unexpected argument '"@ + a + "' found"@
}

/// Status text for an exit code that is not a small integer.
pub open spec fn invalid_value_msg(a: Seq<char>) -> Seq<char> {
    "invalid value '"@ + a + "' for exit code"@
}

/// The exit code the quit-family verbs were given: 0 when absent, or a
/// diagnostic when malformed or followed by more arguments.
pub open spec fn quit_code(args: Seq<Seq<char>>) -> Result<u8, Seq<char>> {
    if args.len() == 0 {
        Ok(0u8)
    } else if args.len() >= 2 {
        Err(unexpected_arg_msg(args[1]))
    } else {
        match parse_u8_spec(args[0]) {
            Some(c) => Ok(c),
            None => Err(invalid_value_msg(args[0])),
        }
    }
}

/// What a token list means: the status message to set (if any), the exit
/// signal to set (if any), and the persistence work requested.
pub open spec fn interpret(toks: Seq<Seq<char>>, modified: bool) -> (
    Option<Result<Seq<char>, Seq<char>>>,
    Option<u8>,
    CommandAction,
) {
    if toks.len() == 0 {
        (None, None, CommandAction::Nothing)
    } else {
        let verb = toks[0];
        let args = toks.drop_first();
        if verb == "echo"@ {
            let m = join_spaces(echo_words(args));
            if echo_is_error(args) {
                (Some(Err(m)), None, CommandAction::Nothing)
            } else {
                (Some(Ok(m)), None, CommandAction::Nothing)
            }
        } else if verb == "write"@ || verb == "w"@ {
            if args.len() == 0 {
                (None, None, CommandAction::Write)
            } else {
                (Some(Err(unexpected_arg_msg(args[0]))), None, CommandAction::Nothing)
            }
        } else if verb == "quit"@ || verb == "q"@ {
            match quit_code(args) {
                Err(m) => (Some(Err(m)), None, CommandAction::Nothing),
                Ok(c) => if modified {
                    (Some(Err("Unsaved changes"@)), None, CommandAction::Nothing)
                } else {
                    (None, Some(c), CommandAction::Nothing)
                },
            }
        } else if verb == "quit!"@ || verb == "q!"@ {
            match quit_code(args) {
                Err(m) => (Some(Err(m)), None, CommandAction::Nothing),
                Ok(c) => (None, Some(c), CommandAction::Nothing),
            }
        } else if verb == "write-quit"@ || verb == "wq"@ {
            match quit_code(args) {
                Err(m) => (Some(Err(m)), None, CommandAction::Nothing),
                Ok(c) => (None, None, CommandAction::WriteAndQuit(c)),
            }
        } else {
            (Some(Err(unknown_verb_msg(verb))), None, CommandAction::Nothing)
        }
    }
}

/// String equality, decided byte by byte.
pub fn str_eq(a: &str, b: &str) -> (r: bool)
    ensures
        r == (a@ == b@),
{
    let ab = a.as_bytes();
    let bb = b.as_bytes();
    proof {
        vstd::utf8::encode_utf8_decode_utf8(a@);
        vstd::utf8::encode_utf8_decode_utf8(b@);
    }
    if ab.len() != bb.len() {
        return false;
    }
    let mut i: usize = 0;
    while i < ab.len()
        invariant
            i <= ab.len(),
            ab.len() == bb.len(),
            ab@ == encode_utf8(a@),
            bb@ == encode_utf8(b@),
            forall|j: int| 0 <= j < i ==> ab@[j] == bb@[j],
        decreases ab.len() - i,
    {
        if ab[i] != bb[i] {
            return false;
        }
        i = i + 1;
    }
    proof {
        assert(ab@ =~= bb@);
        vstd::utf8::encode_utf8_decode_utf8(a@);
        vstd::utf8::encode_utf8_decode_utf8(b@);
    }
    true
}

proof fn lemma_digits_val_nonneg(t: Seq<char>)
    requires
        forall|i: int| 0 <= i < t.len() ==> is_digit(#[trigger] t[i]),
    ensures
        digits_val(t) >= 0,
    decreases t.len(),
{
    if t.len() > 0 {
        lemma_digits_val_nonneg(t.drop_last());
        assert(forall|i: int|
            0 <= i < t.drop_last().len() ==> is_digit(#[trigger] t.drop_last()[i]));
    }
}

/// With more digits the value only grows.
proof fn lemma_digits_val_mono(t: Seq<char>, k: int)
    requires
        0 <= k <= t.len(),
        forall|i: int| 0 <= i < t.len() ==> is_digit(#[trigger] t[i]),
    ensures
        digits_val(t.take(k)) <= digits_val(t),
    decreases t.len() - k,
{
    if k < t.len() {
        lemma_digits_val_mono(t, k + 1);
        let u = t.take(k + 1);
        assert(u.drop_last() =~= t.take(k));
        assert(u.last() == t[k]);
        lemma_digits_val_nonneg(t.take(k));
        assert(digits_val(u) == digits_val(t.take(k)) * 10 + (t[k] as int - 48));
        assert(digits_val(t.take(k)) <= digits_val(t.take(k)) * 10 + (t[k] as int - 48)) by {
            lemma_digits_val_nonneg(t.take(k));
        }
    } else {
        assert(t.take(k) =~= t);
    }
}

/// Parse a small exit code from decimal digits (optional leading `+`).
pub fn parse_u8(t: &str) -> (r: Option<u8>)
    ensures
        r == parse_u8_spec(t@),
{
    let n = t.unicode_len();
    let start: usize = if n >= 1 && t.get_char(0) == '+' {
        1
    } else {
        0
    };
    let ghost body = if t@.len() > 0 && t@[0] == '+' {
        t@.drop_first()
    } else {
        t@
    };
    proof {
        assert(body =~= t@.subrange(start as int, t@.len() as int));
    }
    if n == start {
        return None;
    }
    let mut val: u32 = 0;
    let mut i: usize = start;
    while i < n
        invariant
            start <= i <= n,
            n == t@.len(),
            start <= 1,
            body == t@.subrange(start as int, t@.len() as int),
            body == (if t@.len() > 0 && t@[0] == '+' {
                t@.drop_first()
            } else {
                t@
            }),
            body.len() == n - start,
            val <= 255,
            forall|j: int| 0 <= j < i - start ==> is_digit(#[trigger] body[j]),
            val as int == digits_val(body.take(i - start)),
        decreases n - i,
    {
        let ch = t.get_char(i);
        let d = ch as u32;
        proof {
            assert(body[i - start] == t@[i as int]);
        }
        if d < 48 || d > 57 {
            proof {
                assert(!is_digit(body[i - start]));
                assert(!all_digits(body));
            }
            return None;
        }
        let dv = d - 48;
        proof {
            let u = body.take(i - start + 1);
            assert(u.drop_last() =~= body.take(i - start));
            assert(u.last() == body[i - start]);
        }
        if val * 10 + dv > 255 {
            proof {
                if all_digits(body) {
                    lemma_digits_val_mono(body, i - start + 1);
                }
            }
            return None;
        }
        val = val * 10 + dv;
        i = i + 1;
    }
    proof {
        assert(body.take(body.len() as int) =~= body);
        assert(all_digits(body));
    }
    Some(val as u8)
}

fn unknown_verb_exec(v: &str) -> (m: String)
    ensures
        m@ == unknown_verb_msg(v@),
{
    let mut s = String::from_str("unrecognized subcommand '");
    s.append(v);
    s.append("'");
    s
}

fn unexpected_arg_exec(a: &str) -> (m: String)
    ensures
        m@ == unexpected_arg_msg(a@),
{
    let mut s = String::from_str("unexpected argument '");
    s.append(a);
    s.append("' found");
    s
}

fn invalid_value_exec(a: &str) -> (m: String)
    ensures
        m@ == invalid_value_msg(a@),
{
    let mut s = String::from_str("invalid value '");
    s.append(a);
    s.append("' for exit code");
    s
}

/// Gather `echo`'s words (dropping each `--error`) and whether the
/// error flag was present.
fn gather_echo(toks: &Vec<String>) -> (r: (Vec<String>, bool))
    requires
        toks.len() >= 1,
    ensures
        r.0.deep_view() == echo_words(toks.deep_view().drop_first()),
        r.1 == echo_is_error(toks.deep_view().drop_first()),
{
    let ghost args = toks.deep_view().drop_first();
    let mut words: Vec<String> = Vec::new();
    let mut flag = false;
    let mut i: usize = 1;
    proof {
        assert(args.take(0) =~= Seq::<Seq<char>>::empty());
    }
    while i < toks.len()
        invariant
            1 <= i <= toks.len(),
            args == toks.deep_view().drop_first(),
            args.len() == toks.len() - 1,
            words.deep_view() == echo_words(args.take(i - 1)),
            flag == echo_is_error(args.take(i - 1)),
        decreases toks.len() - i,
    {
        proof {
            let u = args.take(i as int);
            assert(u.drop_last() =~= args.take(i - 1));
            assert(u.last() == args[i - 1] && args[i - 1] == toks.deep_view()[i as int]);
        }
        if str_eq(toks[i].as_str(), "--error") {
            flag = true;
        } else {
            words.push(toks[i].clone());
            proof {
                assert(words.deep_view() =~= echo_words(args.take(i as int)));
            }
        }
        i = i + 1;
    }
    proof {
        assert(args.take(args.len() as int) =~= args);
    }
    (words, flag)
}

/// Join words with single spaces.
fn join_words(words: &Vec<String>) -> (m: String)
    ensures
        m@ == join_spaces(words.deep_view()),
{
    let ghost ws = words.deep_view();
    let mut out = String::new();
    let mut i: usize = 0;
    while i < words.len()
        invariant
            i <= words.len(),
            ws == words.deep_view(),
            out@ == join_spaces(ws.take(i as int)),
        decreases words.len() - i,
    {
        proof {
            let u = ws.take(i + 1);
            assert(u.drop_last() =~= ws.take(i as int));
            assert(u.last() == ws[i as int]);
        }
        if i > 0 {
            out.append(" ");
            proof {
                reveal_strlit(" ");
                assert(" "@ =~= seq![' ']);
            }
        }
        out.append(words[i].as_str());
        proof {
            assert(ws.take(i + 1).len() == i + 1);
            if i == 0 {
                assert(join_spaces(ws.take(1)) == ws[0]);
            }
        }
        i = i + 1;
    }
    proof {
        assert(ws.take(ws.len() as int) =~= ws);
    }
    out
}

impl Editor {
    /// Run the composed command line: tokenize it, parse the verb, apply
    /// the effect, and leave Command mode with the sub-editor discarded.
    /// The returned action names the persistence work the caller must do.
    pub fn execute_command(&mut self) -> (act: CommandAction)
        requires
            old(self).wf(),
        ensures
            final(self).wf(),
            rope_bytes(final(self).command).len() == 0,
            final(self).command_cursor == 0,
            final(self).mode == Mode::Normal,
            final(self).text == old(self).text,
            final(self).anchor == old(self).anchor,
            final(self).head == old(self).head,
            final(self).desired_column == old(self).desired_column,
            final(self).vertical_scroll == old(self).vertical_scroll,
            final(self).path == old(self).path,
            final(self).pwd == old(self).pwd,
            final(self).modified == old(self).modified,
            shell_split(decode_utf8(rope_bytes(old(self).command))) is None ==> ({
                &&& final(self).message matches Some(m) && m matches Err(e) && e@
                    == "Invalid command"@
                &&& final(self).exit_code == old(self).exit_code
                &&& act == CommandAction::Nothing
            }),
            shell_split(decode_utf8(rope_bytes(old(self).command))) matches Some(toks) ==> ({
                let outcome = interpret(toks, old(self).modified);
                &&& act == outcome.2
                &&& (outcome.0 is None ==> final(self).message == old(self).message)
                &&& (outcome.0 matches Some(Ok(tm)) ==> final(self).message matches Some(m)
                    && m matches Ok(mm) && mm@ == tm)
                &&& (outcome.0 matches Some(Err(tm)) ==> final(self).message matches Some(m)
                    && m matches Err(mm) && mm@ == tm)
                &&& (outcome.1 is None ==> final(self).exit_code == old(self).exit_code)
                &&& (outcome.1 matches Some(c) ==> final(self).exit_code == Some(c))
            }),
    {
        let ghost c0 = rope_bytes(self.command);
        let cmd_string = rope_to_string(&self.command);
        proof {
            vstd::utf8::encode_utf8_decode_utf8(cmd_string@);
        }
        let parts = shell_split_exec(cmd_string.as_str());
        self.command = rope_new();
        self.command_cursor = 0;
        self.mode = Mode::Normal;
        proof {
            vstd::utf8::is_char_boundary_start_end_of_seq(rope_bytes(self.command));
            vstd::utf8::encode_utf8_valid_utf8(Seq::<char>::empty());
            assert(encode_utf8(Seq::<char>::empty()) =~= Seq::<u8>::empty());
        }
        let toks = match parts {
            None => {
                self.message = Some(Err(String::from_str("Invalid command")));
                return CommandAction::Nothing;
            },
            Some(t) => t,
        };
        let ghost tv = toks.deep_view();
        if toks.len() == 0 {
            return CommandAction::Nothing;
        }
        let ghost args = tv.drop_first();
        if str_eq(toks[0].as_str(), "echo") {
            let (words, is_err) = gather_echo(&toks);
            let joined = join_words(&words);
            if is_err {
                self.message = Some(Err(joined));
            } else {
                self.message = Some(Ok(joined));
            }
            return CommandAction::Nothing;
        }
        if str_eq(toks[0].as_str(), "write") || str_eq(toks[0].as_str(), "w") {
            if toks.len() == 1 {
                return CommandAction::Write;
            }
            proof {
                assert(args[0] == tv[1]);
            }
            self.message = Some(Err(unexpected_arg_exec(toks[1].as_str())));
            return CommandAction::Nothing;
        }
        let is_quit = str_eq(toks[0].as_str(), "quit") || str_eq(toks[0].as_str(), "q");
        let is_quit_force = str_eq(toks[0].as_str(), "quit!") || str_eq(toks[0].as_str(), "q!");
        let is_write_quit = str_eq(toks[0].as_str(), "write-quit") || str_eq(
            toks[0].as_str(),
            "wq",
        );
        if is_quit || is_quit_force || is_write_quit {
            if toks.len() >= 3 {
                proof {
                    assert(args[1] == tv[2]);
                }
                self.message = Some(Err(unexpected_arg_exec(toks[2].as_str())));
                return CommandAction::Nothing;
            }
            let code: u8 = if toks.len() == 2 {
                proof {
                    assert(args[0] == tv[1]);
                }
                match parse_u8(toks[1].as_str()) {
                    Some(c) => c,
                    None => {
                        self.message = Some(Err(invalid_value_exec(toks[1].as_str())));
                        return CommandAction::Nothing;
                    },
                }
            } else {
                0
            };
            if is_quit {
                if self.modified {
                    self.message = Some(Err(String::from_str("Unsaved changes")));
                } else {
                    self.exit_code = Some(code);
                }
                return CommandAction::Nothing;
            }
            if is_quit_force {
                self.exit_code = Some(code);
                return CommandAction::Nothing;
            }
            return CommandAction::WriteAndQuit(code);
        }
        self.message = Some(Err(unknown_verb_exec(toks[0].as_str())));
        CommandAction::Nothing
    }
}

} // verus!
