//! The quit channel: how a *running* instance is asked to end its session
//! from outside. The protocol is one line each way: the client writes
//! `quit\n`, and the server answers `ok\n` after it has scheduled the quit,
//! `err\n` if the schedule failed. The pipe itself is the platform's; this
//! module holds what the two ends decide.

use vstd::prelude::*;
use crate::text::{equals, lemma_leading_white, lemma_trailing_white, spec_trim, trim, white_space};

verus! {

/// The pipe the running instance owns. One name, because there is one
/// session to end.
pub const PIPE_NAME: &'static str = "\\\\.\\pipe\\quire-desktop-quit";

/// The request a client writes.
pub const QUIT_REQUEST: &'static str = "quit\n";

/// `CreateFileW` on a name whose only instance is in use.
pub const ERROR_PIPE_BUSY: i32 = 231;
pub const ERROR_FILE_NOT_FOUND: i32 = 2;

/// How many times a client tries to open the channel.
pub const OPEN_ATTEMPTS: usize = 5;

// ---- the server's side ----

/// A request line is a quit request when, trimmed, it is `quit`.
pub open spec fn spec_is_quit_request(line: Seq<char>) -> bool {
    spec_trim(line) == "quit"@
}

/// Whether the line a client sent asks this instance to quit.
pub fn is_quit_request(line: &str) -> (r: bool)
    ensures
        r == spec_is_quit_request(line@),
{
    let t = trim(line);
    let n = t.unicode_len();
    proof {
        reveal_strlit("quit");
    }
    if n != 4 {
        return false;
    }
    let same = t.get_char(0) == 'q' && t.get_char(1) == 'u' && t.get_char(2) == 'i' && t.get_char(3)
        == 't';
    proof {
        if same {
            assert(t@ =~= "quit"@);
        } else {
            assert(t@ != "quit"@);
        }
    }
    same
}

/// The answer to a quit request: `ok` when the exit was scheduled.
pub fn answer_line(accepted: bool) -> (r: &'static str)
    ensures
        r@ == (if accepted { "ok\n"@ } else { "err\n"@ }),
{
    if accepted {
        "ok\n"
    } else {
        "err\n"
    }
}

// ---- the client's side ----

/// Whether a failed open is "ask again": the server is between instances
/// (its only instance is spent, or the next one is not created yet).
pub fn retry_open(os_error: Option<i32>) -> (r: bool)
    ensures
        r == (os_error == Some(ERROR_PIPE_BUSY) || os_error == Some(ERROR_FILE_NOT_FOUND)),
{
    match os_error {
        Some(code) => code == ERROR_PIPE_BUSY || code == ERROR_FILE_NOT_FOUND,
        None => false,
    }
}

/// What an answer line means, trimmed: `ok` is an accepted quit, and every
/// other answer is the reason the caller has to say out loud.
pub open spec fn spec_read_answer(answer: Seq<char>) -> Result<(), Seq<char>> {
    let a = spec_trim(answer);
    if a == "ok"@ {
        Ok(())
    } else if a == "err"@ {
        Err("the instance refused the request: it could not schedule its exit"@)
    } else if a.len() == 0 {
        Err("the instance closed the channel without answering"@)
    } else {
        Err("the channel answered '"@ + a + "', which is not Quire"@)
    }
}

/// Read the instance's answer: `Ok(())` means it answered `ok` — it has
/// scheduled its own exit.
pub fn read_answer(answer: &str) -> (r: Result<(), String>)
    ensures
        match r {
            Ok(()) => spec_read_answer(answer@) == Ok::<(), Seq<char>>(()),
            Err(e) => spec_read_answer(answer@) == Err::<(), Seq<char>>(e@),
        },
{
    let a = trim(answer);
    if equals(a, "ok") {
        Ok(())
    } else if equals(a, "err") {
        Err(String::from_str("the instance refused the request: it could not schedule its exit"))
    } else if a.unicode_len() == 0 {
        Err(String::from_str("the instance closed the channel without answering"))
    } else {
        let mut e = String::from_str("the channel answered '");
        e.append(a);
        e.append("', which is not Quire");
        Err(e)
    }
}

proof fn lemma_trim_line(word: Seq<char>, line: Seq<char>)
    requires
        word.len() > 0,
        !white_space(word[0]),
        !white_space(word.last()),
        line == word.push('\n'),
    ensures
        spec_trim(line) == word,
{
    lemma_leading_white(line, 0);
    assert(line[line.len() - 1] == '\n');
    assert(line[word.len() - 1] == word.last());
    lemma_trailing_white(line, word.len() as int);
    assert(spec_trim(line) =~= word);
}

/// The two ends speak one protocol: the line a client writes is a quit
/// request to the server, the server's `ok` is an accepted quit to the
/// client, and its `err` is a refusal the client reports as one.
pub proof fn lemma_protocol_roundtrip()
    ensures
        spec_is_quit_request(QUIT_REQUEST@),
        spec_read_answer("ok\n"@) == Ok::<(), Seq<char>>(()),
        spec_read_answer("err\n"@) == Err::<(), Seq<char>>(
            "the instance refused the request: it could not schedule its exit"@,
        ),
{
    reveal_strlit("quit\n");
    reveal_strlit("quit");
    reveal_strlit("ok\n");
    reveal_strlit("ok");
    reveal_strlit("err\n");
    reveal_strlit("err");
    assert("quit\n"@ =~= "quit"@.push('\n'));
    assert("ok\n"@ =~= "ok"@.push('\n'));
    assert("err\n"@ =~= "err"@.push('\n'));
    lemma_trim_line("quit"@, "quit\n"@);
    lemma_trim_line("ok"@, "ok\n"@);
    lemma_trim_line("err"@, "err\n"@);
    assert("err"@ != "ok"@) by {
        assert("err"@.len() != "ok"@.len());
    }
}

} // verus!
