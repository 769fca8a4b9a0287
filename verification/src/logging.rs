//! What is logged and how it is written.
use vstd::prelude::*;

use crate::args::LogLevel;
use crate::error::ErrorChain;
use crate::text;
use crate::text::joined;
use crate::text::law_split_undoes_join;
use crate::text::split;

verus! {

/// The severity of a log event.
#[derive(Clone, Copy, Debug, PartialEq, Eq, Structural)]
pub enum Level {
    TRACE,
    DEBUG,
    INFO,
    WARN,
    ERROR,
}

/// `n` spaces.
pub open spec fn spaces(n: nat) -> Seq<char> {
    Seq::new(n, |i: int| ' ')
}

/// One line for each cause, each indented by five columns more than the one
/// before.
pub open spec fn cause_lines(causes: Seq<Seq<char>>) -> Seq<char>
    decreases causes.len(),
{
    if causes.len() == 0 {
        seq![]
    } else {
        cause_lines(causes.drop_last()) + "\n"@ + spaces(5 * causes.len()) + "Caused by: "@
            + causes.last()
    }
}

/// An error and its causes as a text: the message and one line for each cause.
/// An error without a cause is written as its own cause.
pub open spec fn error_text(chain: Seq<Seq<char>>) -> Seq<char> {
    if chain.len() == 1 {
        cause_lines(chain)
    } else {
        chain[0] + cause_lines(chain.drop_first())
    }
}

/// Writes an error with its causes.
pub fn format_error_chain(err: &ErrorChain) -> (r: String)
    ensures
        r@ == error_text(err@),
{
    let n: usize = err.causes.len();
    let ghost causes = err.causes.deep_view();
    assert(err@.drop_first() == causes);
    let mut indent: String = String::new();
    if n == 0 {
        indent.append("     ");
        let mut out: String = String::new();
        out.append("\n");
        out.append(indent.as_str());
        out.append("Caused by: ");
        out.append(err.message.as_str());
        proof {
            reveal_strlit("     ");
            assert(indent@ == spaces(5));
            assert(err@.drop_last() == Seq::<Seq<char>>::empty());
            assert(cause_lines(Seq::<Seq<char>>::empty()) == Seq::<char>::empty());
            assert(cause_lines(err@) == cause_lines(err@.drop_last()) + "\n"@ + spaces(5)
                + "Caused by: "@ + err@.last());
        }
        return out;
    }
    let mut out: String = String::new();
    out.append(err.message.as_str());
    let mut i: usize = 0;
    while i < n
        invariant
            i <= n,
            n == err.causes@.len(),
            causes == err.causes.deep_view(),
            indent@ == spaces(5 * i as nat),
            out@ == err.message@ + cause_lines(causes.take(i as int)),
        decreases n - i,
    {
        let ghost before = indent@;
        let ghost written = out@;
        indent.append("     ");
        proof {
            reveal_strlit("     ");
            assert(indent@ == spaces(5 * (i + 1) as nat));
        }
        out.append("\n");
        out.append(indent.as_str());
        out.append("Caused by: ");
        out.append(err.causes[i].as_str());
        proof {
            assert(causes.take(i + 1).drop_last() == causes.take(i as int));
            assert(causes.take(i + 1).last() == err.causes@[i as int]@);
            assert(out@ == err.message@ + cause_lines(causes.take(i + 1)));
        }
        i += 1;
    }
    assert(causes.take(n as int) == causes);
    out
}

/// The lines of an error with causes: its message, and each cause indented by
/// five columns more than the one before.
pub open spec fn error_rows(chain: Seq<Seq<char>>) -> Seq<Seq<char>> {
    Seq::new(
        chain.len(),
        |i: int|
            if i == 0 {
                chain[0]
            } else {
                spaces(5 * i as nat) + "Caused by: "@ + chain[i]
            },
    )
}

/// An error with causes is its lines, one below the other.
proof fn lemma_error_rows(chain: Seq<Seq<char>>)
    requires
        chain.len() > 0,
    ensures
        joined(error_rows(chain), "\n"@) == chain[0] + cause_lines(chain.drop_first()),
    decreases chain.len(),
{
    let rows = error_rows(chain);
    if chain.len() == 1 {
        assert(cause_lines(chain.drop_first()) == Seq::<char>::empty());
        assert(chain[0] + Seq::<char>::empty() == chain[0]);
    } else {
        let front = chain.drop_last();
        lemma_error_rows(front);
        assert(rows.drop_last() == error_rows(front));
        let causes = chain.drop_first();
        assert(causes.drop_last() == front.drop_first());
        assert(causes.last() == chain.last());
        assert(joined(rows, "\n"@) == chain[0] + cause_lines(causes));
    }
}

/// An error with causes takes one line for each message, and the indentation
/// grows from line to line.
pub proof fn law_causes_are_indented_line_by_line(chain: Seq<Seq<char>>)
    requires
        chain.len() > 1,
        forall|i: int| 0 <= i < chain.len() ==> !(#[trigger] chain[i]).contains('\n'),
    ensures
        split(error_text(chain), '\n') == error_rows(chain),
{
    reveal_strlit("\n");
    reveal_strlit("Caused by: ");
    let rows = error_rows(chain);
    assert("\n"@ == seq!['\n']);
    lemma_error_rows(chain);
    assert forall|i: int| 0 <= i < rows.len() implies !(#[trigger] rows[i]).contains('\n') by {
        let message = chain[i];
        assert forall|j: int| 0 <= j < rows[i].len() implies rows[i][j] != '\n' by {
            if i == 0 {
                assert(message[j] != '\n');
            } else if j >= 5 * i + 11 {
                assert(rows[i][j] == message[j - 5 * i - 11]);
                assert(message[j - 5 * i - 11] != '\n');
            }
        }
    }
    law_split_undoes_join(rows, '\n');
}

/// The least severe events that a log level lets through. Nothing is more
/// severe than an error.
pub fn convert_to_tracing_levels(level: &LogLevel) -> (r: Level)
    ensures
        r == match *level {
            LogLevel::DEBUG => Level::DEBUG,
            LogLevel::INFO => Level::INFO,
            LogLevel::WARN => Level::WARN,
            LogLevel::ERROR => Level::ERROR,
            LogLevel::CRITICAL => Level::ERROR,
        },
{
    match level {
        LogLevel::DEBUG => Level::DEBUG,
        LogLevel::INFO => Level::INFO,
        LogLevel::WARN => Level::WARN,
        LogLevel::ERROR => Level::ERROR,
        LogLevel::CRITICAL => Level::ERROR,
    }
}

/// The name of a severity.
pub open spec fn level_text(level: Level) -> Seq<char> {
    match level {
        Level::TRACE => "TRACE"@,
        Level::DEBUG => "DEBUG"@,
        Level::INFO => "INFO"@,
        Level::WARN => "WARN"@,
        Level::ERROR => "ERROR"@,
    }
}

/// The name of a severity.
pub fn level_name(level: Level) -> (r: &'static str)
    ensures
        r@ == level_text(level),
{
    match level {
        Level::TRACE => "TRACE",
        Level::DEBUG => "DEBUG",
        Level::INFO => "INFO",
        Level::WARN => "WARN",
        Level::ERROR => "ERROR",
    }
}

/// A severity on a background: red for an error, yellow for a warning, green
/// for a note, cyan for a detail.
pub open spec fn level_ansi(level: Level) -> Seq<char> {
    match level {
        Level::ERROR => "\u{1b}[41;37;1m ERROR \u{1b}[0m"@,
        Level::WARN => "\u{1b}[43;37;1m WARN  \u{1b}[0m"@,
        Level::INFO => "\u{1b}[42;37;1m INFO  \u{1b}[0m"@,
        Level::DEBUG => "\u{1b}[46;37;1m DEBUG \u{1b}[0m"@,
        Level::TRACE => ""@,
    }
}

/// A severity on a background of its own colour.
pub fn get_level_ansi(level: &Level) -> (r: &'static str)
    ensures
        r@ == level_ansi(*level),
{
    match level {
        Level::ERROR => "\u{1b}[41;37;1m ERROR \u{1b}[0m",
        Level::WARN => "\u{1b}[43;37;1m WARN  \u{1b}[0m",
        Level::INFO => "\u{1b}[42;37;1m INFO  \u{1b}[0m",
        Level::DEBUG => "\u{1b}[46;37;1m DEBUG \u{1b}[0m",
        Level::TRACE => "",
    }
}

/// What stands before the message of an event on a terminal.
pub open spec fn coloured_head_text(time: Seq<char>, level: Level) -> Seq<char> {
    "\u{1b}[35m"@ + time + "\u{1b}[0m"@ + " - "@ + level_ansi(level) + " - "@
}

/// What stands before the message of an event in a file.
pub open spec fn plain_head_text(time: Seq<char>, level: Level) -> Seq<char> {
    time + " - "@ + level_text(level) + spaces((5 - level_text(level).len()) as nat) + " - "@
}

/// What stands before the message of an event on a terminal: the time in
/// magenta and the severity in its colour.
pub fn coloured_head(time: &str, level: Level) -> (r: String)
    ensures
        r@ == coloured_head_text(time@, level),
{
    let mut r = "\u{1b}[35m".to_string();
    r.append(time);
    r.append("\u{1b}[0m");
    r.append(" - ");
    r.append(get_level_ansi(&level));
    r.append(" - ");
    r
}

/// What stands before the message of an event in a file: the time and the
/// severity, which takes five columns.
pub fn plain_head(time: &str, level: Level) -> (r: String)
    ensures
        r@ == plain_head_text(time@, level),
{
    let mut r = time.to_string();
    r.append(" - ");
    r.append(level_name(level));
    proof {
        reveal_strlit("TRACE");
        reveal_strlit("DEBUG");
        reveal_strlit("INFO");
        reveal_strlit("WARN");
        reveal_strlit("ERROR");
        assert(spaces(1) == seq![' ']);
        assert(spaces(0) == Seq::<char>::empty());
    }
    let ghost named = r@;
    match level {
        Level::INFO | Level::WARN => {
            r.push(' ');
            assert(r@ == named + spaces(1));
        },
        _ => {
            assert(r@ == named + spaces(0));
        },
    }
    r.append(" - ");
    r
}

/// What is printed before anything else.
pub fn banner(version: &str) -> (r: String)
    ensures
        r@ == "============================ k8s-auth-ldap-rs webhook authentication server ============================"@
            + "\nVersion: "@ + version@ + "\n\n"@,
{
    let mut r =
        "============================ k8s-auth-ldap-rs webhook authentication server ============================".to_string();
    r.append("\nVersion: ");
    r.append(version);
    r.append("\n\n");
    r
}

/// What is logged of an environment variable that the program knows: whether it
/// was set, and if not, what is used in its place.
pub open spec fn env_var_text(var: Seq<char>, default_value: Seq<char>, is_set: bool) -> (
    Level,
    Seq<char>,
) {
    if is_set {
        (Level::INFO, "Loaded environment variable "@ + var)
    } else if default_value != ""@ {
        (
            Level::DEBUG,
            "Environment variable "@ + var + " not found. Using default value: "@ + default_value,
        )
    } else {
        (
            Level::DEBUG,
            "Environment variable "@ + var + " not found. Using value from command line"@,
        )
    }
}

/// What is logged of an environment variable that the program knows.
pub fn env_var_notice(var: &str, default_value: &str, is_set: bool) -> (r: (Level, String))
    ensures
        (r.0, r.1@) == env_var_text(var@, default_value@, is_set),
{
    if is_set {
        let mut message = "Loaded environment variable ".to_string();
        message.append(var);
        (Level::INFO, message)
    } else if !text::same(default_value, "") {
        let mut message = "Environment variable ".to_string();
        message.append(var);
        message.append(" not found. Using default value: ");
        message.append(default_value);
        (Level::DEBUG, message)
    } else {
        let mut message = "Environment variable ".to_string();
        message.append(var);
        message.append(" not found. Using value from command line");
        (Level::DEBUG, message)
    }
}

/// The warning that is logged when events go to the terminal only: because no
/// file was asked for, or because it could not be opened.
pub fn log_file_warning(opened: Option<Result<(), ErrorChain>>) -> (r: Option<String>)
    ensures
        r.deep_view() == match opened {
            None => Some("No log file path provided. Using only stdout"@),
            Some(Ok(_)) => None,
            Some(Err(error)) => Some(
                "Could not initialize file log layer. Using only stdout. "@ + error_text(error@),
            ),
        },
{
    match opened {
        None => Some("No log file path provided. Using only stdout".to_string()),
        Some(Ok(_)) => None,
        Some(Err(error)) => {
            let mut message =
                "Could not initialize file log layer. Using only stdout. ".to_string();
            message.append(format_error_chain(&error).as_str());
            Some(message)
        },
    }
}

/// An error without a cause is written as one indented line below an empty one,
/// and each further cause adds one line below what was there.
pub proof fn law_error_texts(message: Seq<char>, chain: Seq<Seq<char>>, cause: Seq<char>)
    ensures
        error_text(seq![message]) == "\n     Caused by: "@ + message,
        chain.len() > 1 ==> error_text(chain.push(cause)) == error_text(chain) + "\n"@ + spaces(
            5 * chain.len(),
        ) + "Caused by: "@ + cause,
        error_text(seq![message, cause]) == message + "\n     Caused by: "@ + cause,
{
    reveal_strlit("\n     Caused by: ");
    reveal_strlit("\n");
    reveal_strlit("Caused by: ");
    let none = Seq::<Seq<char>>::empty();
    assert(cause_lines(none) == Seq::<char>::empty());
    assert(seq![message].drop_last() == none);
    assert(seq![cause].drop_last() == none);
    assert("\n"@ + spaces(5) + "Caused by: "@ == "\n     Caused by: "@);
    assert(cause_lines(seq![message]) == "\n"@ + spaces(5) + "Caused by: "@ + message);
    assert(seq![message, cause].drop_first() == seq![cause]);
    assert(cause_lines(seq![cause]) == "\n"@ + spaces(5) + "Caused by: "@ + cause);
    assert(message + ("\n     Caused by: "@ + cause) == message + "\n     Caused by: "@ + cause);
    if chain.len() > 1 {
        let causes = chain.drop_first();
        assert(chain.push(cause).drop_first() == causes.push(cause));
        assert(causes.push(cause).drop_last() == causes);
        assert(causes.push(cause).len() == chain.len());
        assert(chain.push(cause)[0] == chain[0]);
        assert(error_text(chain.push(cause)) == error_text(chain) + "\n"@ + spaces(5 * chain.len())
            + "Caused by: "@ + cause);
    }
}

/// On a terminal a severity is its name, padded to five columns and set between
/// two spaces, on a background of its own colour.
pub proof fn law_coloured_levels(level: Level)
    requires
        level != Level::TRACE,
    ensures
        level_ansi(level) == "\u{1b}[4"@ + (match level {
            Level::ERROR => "1"@,
            Level::WARN => "3"@,
            Level::INFO => "2"@,
            _ => "6"@,
        }) + ";37;1m "@ + level_text(level) + spaces((5 - level_text(level).len()) as nat)
            + " \u{1b}[0m"@,
        level_ansi(Level::TRACE) == ""@,
{
    reveal_strlit("\u{1b}[4");
    reveal_strlit("1");
    reveal_strlit("3");
    reveal_strlit("2");
    reveal_strlit("6");
    reveal_strlit(";37;1m ");
    reveal_strlit(" \u{1b}[0m");
    reveal_strlit("ERROR");
    reveal_strlit("WARN");
    reveal_strlit("INFO");
    reveal_strlit("DEBUG");
    reveal_strlit("\u{1b}[41;37;1m ERROR \u{1b}[0m");
    reveal_strlit("\u{1b}[43;37;1m WARN  \u{1b}[0m");
    reveal_strlit("\u{1b}[42;37;1m INFO  \u{1b}[0m");
    reveal_strlit("\u{1b}[46;37;1m DEBUG \u{1b}[0m");
}

/// A variable that is set is noted; one that is not is a detail, told with the
/// value that stands in for it, or that the command line gives it.
pub proof fn law_variable_notices(var: Seq<char>, default_value: Seq<char>)
    ensures
        env_var_text(var, default_value, true) == (
            Level::INFO,
            "Loaded environment variable "@ + var,
        ),
        default_value.len() > 0 ==> env_var_text(var, default_value, false) == (
            Level::DEBUG,
            "Environment variable "@ + var + " not found. Using default value: "@ + default_value,
        ),
        default_value.len() == 0 ==> env_var_text(var, default_value, false) == (
            Level::DEBUG,
            "Environment variable "@ + var + " not found. Using value from command line"@,
        ),
{
    reveal_strlit("");
    assert(default_value.len() == 0 ==> default_value == ""@);
}

/// The messages of events at one time stand below each other: what comes before
/// them is equally wide for every severity, starts with the time and tells the
/// severity by its name. On a terminal the time is in magenta.
pub proof fn law_heads_are_equally_wide(time: Seq<char>, a: Level, b: Level)
    ensures
        plain_head_text(time, a).len() == plain_head_text(time, b).len(),
        (time + " - "@ + level_text(a)).is_prefix_of(plain_head_text(time, a)),
        " - "@.is_suffix_of(plain_head_text(time, a)),
        a != Level::TRACE && b != Level::TRACE ==> coloured_head_text(time, a).len()
            == coloured_head_text(time, b).len(),
        ("\u{1b}[35m"@ + time + "\u{1b}[0m - "@ + level_ansi(a)).is_prefix_of(
            coloured_head_text(time, a),
        ),
        " - "@.is_suffix_of(coloured_head_text(time, a)),
        level_text(Level::TRACE) == "TRACE"@,
        level_text(Level::DEBUG) == "DEBUG"@,
        level_text(Level::INFO) == "INFO"@,
        level_text(Level::WARN) == "WARN"@,
        level_text(Level::ERROR) == "ERROR"@,
{
    reveal_strlit("TRACE");
    reveal_strlit("DEBUG");
    reveal_strlit("INFO");
    reveal_strlit("WARN");
    reveal_strlit("ERROR");
    reveal_strlit(" - ");
    reveal_strlit("\u{1b}[0m");
    reveal_strlit("\u{1b}[0m - ");
    if a != Level::TRACE && b != Level::TRACE {
        law_coloured_levels(a);
        law_coloured_levels(b);
    }
    let plain = plain_head_text(time, a);
    let front = time + " - "@ + level_text(a);
    assert(plain.take(front.len() as int) == front);
    assert(plain.skip(plain.len() - 3) == " - "@);
    let coloured = coloured_head_text(time, a);
    assert("\u{1b}[0m"@ + " - "@ == "\u{1b}[0m - "@);
    let start = "\u{1b}[35m"@ + time + "\u{1b}[0m - "@ + level_ansi(a);
    assert(coloured == start + " - "@);
    assert(coloured.take(start.len() as int) == start);
    assert(coloured.skip(coloured.len() - 3) == " - "@);
    reveal_strlit("1");
    reveal_strlit("2");
    reveal_strlit("3");
    reveal_strlit("6");
}

} // verus!
