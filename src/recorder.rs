//! The recorder: the lines that one captured step adds to a script.

use vstd::prelude::*;

use crate::settings::{line_starts_at, step_comments_enabled, step_comments_on};
use crate::text::{trim_text, trimmed};

verus! {

/// Starts a step-comment line: an `echo` that prints in green.
pub const ECHO_OPEN: &'static str = "echo -e \"\\033[0;32m";

/// Ends a step-comment line: back to the default colour.
pub const ECHO_CLOSE: &'static str = "\\033[0m\"";

pub open spec fn echo_line(comment: Seq<char>) -> Seq<char> {
    ECHO_OPEN@ + comment + ECHO_CLOSE@
}

/// The lines of one step: the echoed comment where there is one, then the command.
pub open spec fn step_lines(comment: Seq<char>, command: Seq<char>) -> Seq<char> {
    if comment.len() == 0 {
        command + "\n"@
    } else {
        echo_line(comment) + "\n"@ + command + "\n"@
    }
}

/// A line break that ends an unfinished last line of `content`, so that what
/// follows starts a line of its own.
pub open spec fn line_break_before(content: Seq<char>) -> Seq<char> {
    if content.len() > 0 && content.last() != '\n' {
        "\n"@
    } else {
        Seq::empty()
    }
}

/// The comment that a step records: the trimmed answer, where the script asks
/// for step comments.
pub open spec fn step_comment(content: Seq<char>, answer: Seq<char>) -> Seq<char> {
    if step_comments_on(content) {
        trimmed(answer)
    } else {
        Seq::empty()
    }
}

/// Whatever the comment, recording a step keeps the script's text as it was
/// and puts the command, as a line of its own, at the end.
pub proof fn lemma_command_is_last_line(content: Seq<char>, comment: Seq<char>, command: Seq<char>)
    ensures
        ({
            let after = content + line_break_before(content) + step_lines(comment, command);
            let n = after.len();
            let start = n - command.len() - 1;
            &&& after.subrange(0, content.len() as int) == content
            &&& start >= content.len()
            &&& after.subrange(start, n as int) == command + "\n"@
            &&& line_starts_at(after, start)
        }),
{
    reveal_strlit("\n");
    let after = content + line_break_before(content) + step_lines(comment, command);
    let n = after.len();
    let start = n - command.len() - 1;
    assert(after.subrange(0, content.len() as int) =~= content);
    assert(after.subrange(start, n as int) =~= command + "\n"@);
    if start > 0 {
        if comment.len() > 0 {
            assert(after[start - 1] == step_lines(comment, command)[echo_line(comment).len() as int]);
        } else if content.len() > 0 && content.last() != '\n' {
            assert(after[start - 1] == line_break_before(content)[0]);
        } else {
            assert(after[start - 1] == content.last());
        }
    }
}

/// The lines of one step, for a comment that is already trimmed.
pub fn step_text(comment: &str, command: &str) -> (r: String)
    ensures
        r@ == step_lines(comment@, command@),
{
    let mut r = String::new();
    if comment.unicode_len() > 0 {
        r.append(ECHO_OPEN);
        r.append(comment);
        r.append(ECHO_CLOSE);
        r.append("\n");
    }
    r.append(command);
    r.append("\n");
    proof {
        if comment@.len() == 0 {
            assert(r@ =~= command@ + "\n"@);
        }
    }
    r
}

/// What recording `command` appends to a script whose text is `content`;
/// `answer` is the reply to the comment prompt, ignored where the script does
/// not ask for step comments. An unfinished last line is ended first.
pub fn record_step(content: &str, answer: &str, command: &str) -> (r: String)
    ensures
        r@ == line_break_before(content@) + step_lines(step_comment(content@, answer@), command@),
{
    let len = content.unicode_len();
    let mut r = String::new();
    if len > 0 && content.get_char(len - 1) != '\n' {
        r.append("\n");
    }
    let lines = if step_comments_enabled(content) {
        step_text(trim_text(answer), command)
    } else {
        proof {
            reveal_strlit("");
        }
        step_text("", command)
    };
    r.append(lines.as_str());
    proof {
        assert(r@ =~= line_break_before(content@) + lines@);
    }
    r
}

} // verus!
