//! The command line, and what is written to standard error.

use vstd::arithmetic::power;
use vstd::prelude::*;
use vstd::string::*;

use crate::decimal;
use crate::preview;

verus! {

/// What the command line asks for.
#[derive(Clone, Copy, Debug, PartialEq, Eq, Structural)]
pub enum Launch {
    /// Print the help text and exit.
    Help { exit_code: i32 },
    /// Run the command that begins at this argument.
    Command { show_head: bool, show_tail: bool, start: usize },
}

/// Whether there is an argument `i`, and it is `text`.
pub open spec fn argument_is(args: Seq<Seq<char>>, i: int, text: Seq<char>) -> bool {
    0 <= i < args.len() && args[i] == text
}

/// What the arguments ask for: `[--head] [--tail] <command> [args...]`, or
/// `-h` or `--help` in front.
pub open spec fn launch(args: Seq<Seq<char>>) -> Launch {
    let show_head = argument_is(args, 0, "--head"@);
    let after_head = if show_head {
        1int
    } else {
        0int
    };
    let show_tail = argument_is(args, after_head, "--tail"@);
    let start = if show_tail {
        after_head + 1
    } else {
        after_head
    };
    if argument_is(args, 0, "-h"@) || argument_is(args, 0, "--help"@) {
        Launch::Help { exit_code: 0 }
    } else if start >= args.len() {
        Launch::Help { exit_code: 1 }
    } else {
        Launch::Command { show_head, show_tail, start: start as usize }
    }
}

/// Whether there is an argument `i`, and it is `text`.
fn is_argument(args: &Vec<String>, i: usize, text: &str) -> (res: bool)
    ensures
        res == argument_is(args.deep_view(), i as int, text@),
{
    if i < args.len() {
        args[i] == text.to_owned()
    } else {
        false
    }
}

/// What the arguments, without the program's own name, ask for.
pub fn parse_args(args: &Vec<String>) -> (res: Launch)
    ensures
        res == launch(args.deep_view()),
        args@.len() == 0 ==> res == (Launch::Help { exit_code: 1 }),
        args@.len() > 0 && (args@[0]@ == "-h"@ || args@[0]@ == "--help"@) ==> res
            == (Launch::Help { exit_code: 0 }),
        args@.len() > 0 && args@[0]@ != "-h"@ && args@[0]@ != "--help"@ ==> match res {
            Launch::Help { exit_code } => {
                &&& exit_code == 1
                &&& args@.len() <= 2
                &&& args@[0]@ == "--head"@ || (args@[0]@ == "--tail"@ && args@.len() == 1)
                &&& args@.len() == 2 ==> args@[1]@ == "--tail"@
            },
            Launch::Command { show_head, show_tail, start } => {
                &&& start < args@.len()
                &&& show_head <==> args@[0]@ == "--head"@
                &&& show_tail <==> args@[0]@ == "--tail"@ || (args@[0]@ == "--head"@
                    && args@[1]@ == "--tail"@)
                &&& start == (if show_head && show_tail {
                    2int
                } else if show_head || show_tail {
                    1int
                } else {
                    0int
                })
            },
        },
{
    proof {
        lemma_flags_differ();
        assert(forall|i: int|
            0 <= i < args@.len() ==> #[trigger] args.deep_view()[i] == args@[i]@);
    }
    if is_argument(args, 0, "-h") || is_argument(args, 0, "--help") {
        return Launch::Help { exit_code: 0 };
    }
    let mut start: usize = 0;
    let show_head = is_argument(args, start, "--head");
    if show_head {
        start = start + 1;
    }
    let show_tail = is_argument(args, start, "--tail");
    if show_tail {
        start = start + 1;
    }
    if start >= args.len() {
        Launch::Help { exit_code: 1 }
    } else {
        Launch::Command { show_head, show_tail, start }
    }
}

/// The flags that come before the command.
pub open spec fn flags(show_head: bool, show_tail: bool) -> Seq<Seq<char>> {
    (if show_head {
        seq!["--head"@]
    } else {
        seq![]
    }) + (if show_tail {
        seq!["--tail"@]
    } else {
        seq![]
    })
}

proof fn lemma_flags_differ()
    ensures
        "--head"@ != "--tail"@,
        "--head"@ != "-h"@,
        "--head"@ != "--help"@,
        "--tail"@ != "-h"@,
        "--tail"@ != "--help"@,
{
    reveal_strlit("--head");
    reveal_strlit("--tail");
    reveal_strlit("-h");
    reveal_strlit("--help");
    assert("--head"@.len() == 6 && "--tail"@.len() == 6 && "-h"@.len() == 2);
    assert("--head"@[2] == 'h' && "--head"@[4] == 'a');
    assert("--tail"@[2] == 't');
    assert("--help"@[2] == 'h' && "--help"@[4] == 'l');
}

/// Whatever runs a command is one of four forms: no flag, `--head`, `--tail`,
/// or `--head --tail`, with nothing but these before the command.
pub proof fn law_only_four_forms_run_a_command(args: Seq<Seq<char>>)
    requires
        args.len() <= usize::MAX,
    ensures
        launch(args) matches Launch::Command { show_head, show_tail, start } ==> {
            &&& start < args.len()
            &&& args == flags(show_head, show_tail) + args.skip(start as int)
        },
{
    if let Launch::Command { show_head, show_tail, start } = launch(args) {
        assert(args =~= flags(show_head, show_tail) + args.skip(start as int));
    }
}

/// Each of the four forms runs the command that follows the flags, where the
/// command's name is not itself a flag that is looked for at its place.
pub proof fn law_four_forms_run_the_command(
    show_head: bool,
    show_tail: bool,
    command: Seq<Seq<char>>,
)
    requires
        0 < command.len(),
        command.len() + 2 <= usize::MAX,
        !show_tail ==> command[0] != "--tail"@,
        !show_head && !show_tail ==> command[0] != "--head"@ && command[0] != "-h"@ && command[0]
            != "--help"@,
    ensures
        launch(flags(show_head, show_tail) + command) == (Launch::Command {
            show_head,
            show_tail,
            start: flags(show_head, show_tail).len() as usize,
        }),
        (flags(show_head, show_tail) + command).skip(flags(show_head, show_tail).len() as int)
            == command,
{
    lemma_flags_differ();
    let args = flags(show_head, show_tail) + command;
    let n = flags(show_head, show_tail).len() as int;
    assert(args.skip(n) =~= command);
    assert(args[n] == command[0]);
    if show_head {
        assert(args[0] == "--head"@);
        if show_tail {
            assert(args[1] == "--tail"@);
        }
    } else if show_tail {
        assert(args[0] == "--tail"@);
    }
}

/// The help text, where `dir` is the directory of the log files.
pub open spec fn help(dir: Seq<char>) -> Seq<char> {
    "Usage: llmtmplog [--head] [--tail] <command> [args...]\n\n"@
        + "Runs <command> and redirects stdout+stderr to a unique log file\nin "@ + dir + "/.\n\n"@
        + "Options:\n  --head  Print the first "@ + decimal::decimal(preview::HEAD_LINES as nat)
        + " lines to stdout (streamed)\n  --tail  Print the last "@ + decimal::decimal(
        preview::TAIL_LINES as nat,
    ) + " lines to stdout (after command exits)\n\n"@
        + "The log file path is printed immediately so you can tail -f it.\n"@
        + "llmtmplog exits with the same exit code as <command>.\n"@
}

/// The help text, where `dir` is the directory of the log files.
pub fn help_text(dir: &str) -> (text: String)
    ensures
        text@ == help(dir@),
        text@
            == "Usage: llmtmplog [--head] [--tail] <command> [args...]\n\nRuns <command> and redirects stdout+stderr to a unique log file\nin "@
            + dir@
            + "/.\n\nOptions:\n  --head  Print the first 50 lines to stdout (streamed)\n  --tail  Print the last 50 lines to stdout (after command exits)\n\nThe log file path is printed immediately so you can tail -f it.\nllmtmplog exits with the same exit code as <command>.\n"@,
{
    proof {
        law_help_in_full(dir@);
    }
    let mut text = "Usage: llmtmplog [--head] [--tail] <command> [args...]\n\n".to_owned();
    text.append("Runs <command> and redirects stdout+stderr to a unique log file\nin ");
    text.append(dir);
    text.append("/.\n\n");
    text.append("Options:\n  --head  Print the first ");
    decimal::append_decimal(&mut text, preview::HEAD_LINES as u64);
    text.append(" lines to stdout (streamed)\n  --tail  Print the last ");
    decimal::append_decimal(&mut text, preview::TAIL_LINES as u64);
    text.append(" lines to stdout (after command exits)\n\n");
    text.append("The log file path is printed immediately so you can tail -f it.\n");
    text.append("llmtmplog exits with the same exit code as <command>.\n");
    text
}

/// The line that announces a command.
pub open spec fn running(program: Seq<char>) -> Seq<char> {
    "llmtmplog: running `"@ + program + "`"@
}

/// The line that says where the log file is.
pub open spec fn redirected(path: Seq<char>) -> Seq<char> {
    "llmtmplog: stdout & stderr redirected to "@ + path
}

/// The line that says that a command could not be started, and why.
pub open spec fn spawn_failed(program: Seq<char>, error: Seq<char>) -> Seq<char> {
    "llmtmplog: failed to spawn `"@ + program + "`: "@ + error
}

/// The line that reports a command's exit code.
pub open spec fn exited(code: int) -> Seq<char> {
    "llmtmplog: EXIT_CODE="@ + decimal::signed_decimal(code)
}

/// The line that announces a command.
pub fn running_line(program: &str) -> (line: String)
    ensures
        line@ == running(program@),
        line@ == "llmtmplog: running `"@ + program@ + "`"@,
{
    let mut line = "llmtmplog: running `".to_owned();
    line.append(program);
    line.append("`");
    line
}

/// The line that says where the log file is.
pub fn redirected_line(path: &str) -> (line: String)
    ensures
        line@ == redirected(path@),
        line@ == "llmtmplog: stdout & stderr redirected to "@ + path@,
{
    let mut line = "llmtmplog: stdout & stderr redirected to ".to_owned();
    line.append(path);
    line
}

/// The line that says that a command could not be started, and why.
pub fn spawn_failed_line(program: &str, error: &str) -> (line: String)
    ensures
        line@ == spawn_failed(program@, error@),
        line@ == "llmtmplog: failed to spawn `"@ + program@ + "`: "@ + error@,
{
    let mut line = "llmtmplog: failed to spawn `".to_owned();
    line.append(program);
    line.append("`: ");
    line.append(error);
    line
}

/// The line that reports a command's exit code.
pub fn exited_line(code: i32) -> (line: String)
    ensures
        line@ == exited(code as int),
        line@ == "llmtmplog: EXIT_CODE="@ + decimal::signed_decimal(code as int),
{
    let mut line = "llmtmplog: EXIT_CODE=".to_owned();
    decimal::append_signed(&mut line, code);
    line
}

/// Every command line there is, form by form. `-h` or `--help` in front asks
/// for help, which is no mistake; flags without a command, or nothing at all,
/// are one. The command begins after the flags, which come in one order only.
pub proof fn law_every_command_line(command: Seq<Seq<char>>)
    requires
        0 < command.len(),
        command.len() + 2 <= usize::MAX,
    ensures
        launch(seq![]) == (Launch::Help { exit_code: 1 }),
        launch(seq!["--head"@]) == (Launch::Help { exit_code: 1 }),
        launch(seq!["--tail"@]) == (Launch::Help { exit_code: 1 }),
        launch(seq!["--head"@, "--tail"@]) == (Launch::Help { exit_code: 1 }),
        command[0] == "-h"@ || command[0] == "--help"@ ==> launch(command) == (Launch::Help {
            exit_code: 0,
        }),
        command[0] != "-h"@ && command[0] != "--help"@ && command[0] != "--head"@ && command[0]
            != "--tail"@ ==> launch(command) == (Launch::Command {
            show_head: false,
            show_tail: false,
            start: 0,
        }),
        command[0] != "--tail"@ ==> launch(seq!["--head"@] + command) == (Launch::Command {
            show_head: true,
            show_tail: false,
            start: 1,
        }),
        launch(seq!["--tail"@] + command) == (Launch::Command {
            show_head: false,
            show_tail: true,
            start: 1,
        }),
        launch(seq!["--head"@, "--tail"@] + command) == (Launch::Command {
            show_head: true,
            show_tail: true,
            start: 2,
        }),
{
    lemma_flags_differ();
    let head = seq!["--head"@] + command;
    let tail = seq!["--tail"@] + command;
    let both = seq!["--head"@, "--tail"@] + command;
    assert(head[0] == "--head"@ && head[1] == command[0]);
    assert(tail[0] == "--tail"@ && tail[1] == command[0]);
    assert(both[0] == "--head"@ && both[1] == "--tail"@ && both[2] == command[0]);
}

/// The help text in full: it names the directory and the number of lines, 50
/// at either end.
pub proof fn law_help_in_full(dir: Seq<char>)
    ensures
        help(dir)
            == "Usage: llmtmplog [--head] [--tail] <command> [args...]\n\nRuns <command> and redirects stdout+stderr to a unique log file\nin "@
            + dir
            + "/.\n\nOptions:\n  --head  Print the first 50 lines to stdout (streamed)\n  --tail  Print the last 50 lines to stdout (after command exits)\n\nThe log file path is printed immediately so you can tail -f it.\nllmtmplog exits with the same exit code as <command>.\n"@,
{
    reveal_strlit("Usage: llmtmplog [--head] [--tail] <command> [args...]\n\n");
    reveal_strlit("Runs <command> and redirects stdout+stderr to a unique log file\nin ");
    reveal_strlit(
        "Usage: llmtmplog [--head] [--tail] <command> [args...]\n\nRuns <command> and redirects stdout+stderr to a unique log file\nin ",
    );
    reveal_strlit("/.\n\n");
    reveal_strlit("Options:\n  --head  Print the first ");
    reveal_strlit(" lines to stdout (streamed)\n  --tail  Print the last ");
    reveal_strlit(" lines to stdout (after command exits)\n\n");
    reveal_strlit("The log file path is printed immediately so you can tail -f it.\n");
    reveal_strlit("llmtmplog exits with the same exit code as <command>.\n");
    reveal_strlit(
        "/.\n\nOptions:\n  --head  Print the first 50 lines to stdout (streamed)\n  --tail  Print the last 50 lines to stdout (after command exits)\n\nThe log file path is printed immediately so you can tail -f it.\nllmtmplog exits with the same exit code as <command>.\n",
    );
    reveal_with_fuel(decimal::decimal, 2);
    assert(decimal::decimal(50) =~= seq!['5', '0']);
    assert("Usage: llmtmplog [--head] [--tail] <command> [args...]\n\n"@
        + "Runs <command> and redirects stdout+stderr to a unique log file\nin "@
        =~= "Usage: llmtmplog [--head] [--tail] <command> [args...]\n\nRuns <command> and redirects stdout+stderr to a unique log file\nin "@);
    assert("/.\n\n"@ + "Options:\n  --head  Print the first "@ + seq!['5', '0']
        + " lines to stdout (streamed)\n  --tail  Print the last "@ + seq!['5', '0']
        + " lines to stdout (after command exits)\n\n"@
        + "The log file path is printed immediately so you can tail -f it.\n"@
        + "llmtmplog exits with the same exit code as <command>.\n"@
        =~= "/.\n\nOptions:\n  --head  Print the first 50 lines to stdout (streamed)\n  --tail  Print the last 50 lines to stdout (after command exits)\n\nThe log file path is printed immediately so you can tail -f it.\nllmtmplog exits with the same exit code as <command>.\n"@);
    assert(help(dir)
        =~= "Usage: llmtmplog [--head] [--tail] <command> [args...]\n\nRuns <command> and redirects stdout+stderr to a unique log file\nin "@
        + dir + ("/.\n\n"@ + "Options:\n  --head  Print the first "@ + seq!['5', '0']
        + " lines to stdout (streamed)\n  --tail  Print the last "@ + seq!['5', '0']
        + " lines to stdout (after command exits)\n\n"@
        + "The log file path is printed immediately so you can tail -f it.\n"@
        + "llmtmplog exits with the same exit code as <command>.\n"@));
}

/// The lines on standard error, each in full.
pub proof fn law_lines_in_full(
    program: Seq<char>,
    path: Seq<char>,
    error: Seq<char>,
    code: int,
)
    ensures
        running(program) == "llmtmplog: running `"@ + program + "`"@,
        redirected(path) == "llmtmplog: stdout & stderr redirected to "@ + path,
        spawn_failed(program, error) == "llmtmplog: failed to spawn `"@ + program + "`: "@ + error,
        exited(code) == "llmtmplog: EXIT_CODE="@ + decimal::signed_decimal(code),
{
}

/// The line on the exit code tells which code it is: after the equals sign
/// stands the number, with a minus sign if it is negative, and then the digit
/// of each place.
pub proof fn law_exit_line_tells_the_code(code: i32)
    ensures
        ({
            let line = exited(code as int);
            let n = line.len() as int;
            let size = if code < 0 {
                -code as int
            } else {
                code as int
            };
            let first = if code < 0 {
                22int
            } else {
                21int
            };
            &&& line.take(21) == "llmtmplog: EXIT_CODE="@
            &&& code < 0 ==> line[21] == '-'
            &&& first < n
            &&& forall|i: int|
                first <= i < n ==> #[trigger] line[i] as int == 48 + (size / power::pow(
                    10,
                    (n - 1 - i) as nat,
                )) % 10
            &&& size < power::pow(10, (n - first) as nat)
            &&& first + 1 < n ==> power::pow(10, (n - first - 1) as nat) <= size
        }),
{
    let line = exited(code as int);
    let n = line.len() as int;
    let digits = decimal::signed_decimal(code as int);
    let size: nat = if code < 0 {
        (-code) as nat
    } else {
        code as nat
    };
    let first = if code < 0 {
        22int
    } else {
        21int
    };
    reveal_strlit("llmtmplog: EXIT_CODE=");
    assert("llmtmplog: EXIT_CODE="@.len() == 21);
    assert(line.take(21) =~= "llmtmplog: EXIT_CODE="@);
    decimal::law_signed_decimal_reads_as_the_number(code as int);
    decimal::law_decimal_reads_as_the_number(size);
    let plain = decimal::decimal(size);
    assert(n == first + plain.len());
    assert forall|i: int| first <= i < n implies #[trigger] line[i] as int == 48 + (size as int
        / power::pow(10, (n - 1 - i) as nat)) % 10 by {
        assert(line[i] == digits[i - 21]);
        assert(line[i] == plain[i - first]) by {
            if code < 0 {
                assert(digits.skip(1)[i - first] == digits[i - 21]);
            }
        }
    }
}

} // verus!
