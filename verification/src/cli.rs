use vstd::prelude::*;
use crate::text::push_str;

verus! {

/// Which interface to run.
#[derive(Debug, Clone, Copy, PartialEq, Eq, Structural)]
pub enum Mode {
    Gui,
    Tui,
}

/// The command line as read: the interface, the starting path if one was given, and whether
/// help was asked for.
#[derive(Debug, Clone, PartialEq, Eq)]
pub struct ParsedArgs {
    pub mode: Mode,
    pub path: Option<String>,
    pub help: bool,
}

/// A parsed command line as plain values: mode, path, help.
pub type ArgsV = (Mode, Option<Seq<char>>, bool);

/// The text of an optional string.
pub open spec fn opt_view(o: Option<String>) -> Option<Seq<char>> {
    match o {
        Some(s) => Some(s@),
        None => None,
    }
}

/// The plain values of a parsed command line.
pub open spec fn args_view(p: ParsedArgs) -> ArgsV {
    (p.mode, opt_view(p.path), p.help)
}

/// The text of the error for an option that is not known.
pub open spec fn unknown_option_text(arg: Seq<char>) -> Seq<char> {
    "unknown option: "@ + arg
}

/// The text of the error for a second path.
pub open spec fn multiple_paths_text() -> Seq<char> {
    "multiple paths provided; expected at most one"@
}

/// The command line after reading one more argument: `-h`/`--help` asks for help, `-t`/`--tui`
/// picks the terminal interface, any other argument that starts with `-` is an unknown option,
/// and anything else is the path, of which there may be one.
pub open spec fn parse_step(acc: Result<ArgsV, Seq<char>>, arg: Seq<char>) -> Result<ArgsV, Seq<char>> {
    match acc {
        Err(e) => Err(e),
        Ok(v) => if arg == "-h"@ || arg == "--help"@ {
            Ok((v.0, v.1, true))
        } else if arg == "-t"@ || arg == "--tui"@ {
            Ok((Mode::Tui, v.1, v.2))
        } else if arg.len() > 0 && arg[0] == '-' {
            Err(unknown_option_text(arg))
        } else if v.1 is Some {
            Err(multiple_paths_text())
        } else {
            Ok((v.0, Some(arg), v.2))
        },
    }
}

/// The command line `args` read from the first argument to the last, starting from the
/// graphical interface, no path and no help.
pub open spec fn parse_spec(args: Seq<Seq<char>>) -> Result<ArgsV, Seq<char>>
    decreases args.len(),
{
    if args.len() == 0 {
        Ok((Mode::Gui, None, false))
    } else {
        parse_step(parse_spec(args.drop_last()), args.last())
    }
}

/// The texts of the arguments.
pub open spec fn args_text(args: Seq<String>) -> Seq<Seq<char>> {
    Seq::new(args.len(), |k: int| args[k]@)
}

/// Whether `arg` is the text `lit`.
fn is_text(arg: &String, lit: &str) -> (res: bool)
    ensures
        res == (arg@ == lit@),
{
    let other = String::from_str(lit);
    *arg == other
}

/// Reads the command line `args`: the interface to run, the optional starting path and
/// whether help was asked for, or the message for the first argument that is refused.
pub fn parse_args(args: Vec<String>) -> (res: Result<ParsedArgs, String>)
    ensures
        match res {
            Ok(p) => parse_spec(args_text(args@)) == Ok::<ArgsV, Seq<char>>(args_view(p)),
            Err(e) => parse_spec(args_text(args@)) == Err::<ArgsV, Seq<char>>(e@),
        },
{
    let ghost texts = args_text(args@);
    let mut mode = Mode::Gui;
    let mut path: Option<String> = None;
    let mut help = false;
    let mut i: usize = 0;
    while i < args.len()
        invariant
            texts == args_text(args@),
            i <= args@.len(),
            parse_spec(texts.take(i as int)) == Ok::<ArgsV, Seq<char>>((mode, opt_view(path), help)),
        decreases args@.len() - i,
    {
        let arg = &args[i];
        proof {
            assert(texts.take(i + 1).drop_last() =~= texts.take(i as int));
            assert(texts.take(i + 1).last() == arg@);
        }
        if is_text(arg, "-h") || is_text(arg, "--help") {
            help = true;
        } else if is_text(arg, "-t") || is_text(arg, "--tui") {
            mode = Mode::Tui;
        } else if arg.as_str().unicode_len() > 0 && arg.as_str().get_char(0) == '-' {
            let mut msg = String::from_str("unknown option: ");
            push_str(&mut msg, arg.as_str());
            proof {
                lemma_parse_error_stays(texts, i + 1);
            }
            return Err(msg);
        } else if path.is_some() {
            proof {
                lemma_parse_error_stays(texts, i + 1);
            }
            return Err(String::from_str("multiple paths provided; expected at most one"));
        } else {
            path = Some(arg.clone());
        }
        i = i + 1;
    }
    assert(texts.take(texts.len() as int) =~= texts);
    Ok(ParsedArgs { mode, path, help })
}

/// Once an argument is refused, reading more arguments keeps that error.
proof fn lemma_parse_error_stays(args: Seq<Seq<char>>, n: int)
    requires
        0 <= n <= args.len(),
        parse_spec(args.take(n)) is Err,
    ensures
        parse_spec(args) == parse_spec(args.take(n)),
    decreases args.len() - n,
{
    if n < args.len() {
        let t = args.take(n + 1);
        assert(t.drop_last() =~= args.take(n));
        lemma_parse_error_stays(args, n + 1);
    } else {
        assert(args.take(n) =~= args);
    }
}

/// Whether `a` is the option that picks the terminal interface.
pub open spec fn is_tui_flag(a: Seq<char>) -> bool {
    a == "-t"@ || a == "--tui"@
}

/// Whether `a` is the option that asks for help.
pub open spec fn is_help_flag(a: Seq<char>) -> bool {
    a == "-h"@ || a == "--help"@
}

/// A command line that is read without error runs the terminal interface exactly when some
/// argument is `-t` or `--tui`, and asks for help exactly when some argument is `-h` or
/// `--help`; a path never changes the interface, and the path read is one of the arguments
/// and not an option.
pub proof fn law_mode_follows_flags(args: Seq<Seq<char>>)
    ensures
        parse_spec(args) matches Ok(p) ==> {
            &&& (p.0 == Mode::Tui <==> exists|i: int| 0 <= i < args.len() && is_tui_flag(#[trigger] args[i]))
            &&& (p.2 <==> exists|i: int| 0 <= i < args.len() && is_help_flag(#[trigger] args[i]))
            &&& (p.1 matches Some(q) ==> exists|i: int|
                0 <= i < args.len() && #[trigger] args[i] == q && !is_tui_flag(q) && !is_help_flag(q) && !(q.len()
                    > 0 && q[0] == '-'))
        },
    decreases args.len(),
{
    reveal_strlit("-t");
    reveal_strlit("--tui");
    reveal_strlit("-h");
    reveal_strlit("--help");
    assert("-h"@[1] != "-t"@[1]);
    assert("-h"@.len() != "--tui"@.len());
    assert("--help"@.len() != "-t"@.len());
    assert("--help"@.len() != "--tui"@.len());
    if args.len() > 0 {
        let rest = args.drop_last();
        let a = args.last();
        law_mode_follows_flags(rest);
        if let Ok(p) = parse_spec(args) {
            let prev = parse_spec(rest);
            assert(prev is Ok);
            let v = prev->Ok_0;
            assert(args[args.len() - 1] == a);
            assert forall|i: int| 0 <= i < rest.len() implies #[trigger] rest[i] == args[i] by {}
            if (exists|i: int| 0 <= i < rest.len() && is_tui_flag(#[trigger] rest[i])) {
                let i = choose|i: int| 0 <= i < rest.len() && is_tui_flag(#[trigger] rest[i]);
                assert(args[i] == rest[i]);
            }
            if (exists|i: int| 0 <= i < rest.len() && is_help_flag(#[trigger] rest[i])) {
                let i = choose|i: int| 0 <= i < rest.len() && is_help_flag(#[trigger] rest[i]);
                assert(args[i] == rest[i]);
            }
            if (exists|i: int| 0 <= i < args.len() && is_tui_flag(#[trigger] args[i])) {
                let i = choose|i: int| 0 <= i < args.len() && is_tui_flag(#[trigger] args[i]);
                if i < rest.len() {
                    assert(rest[i] == args[i]);
                }
            }
            if (exists|i: int| 0 <= i < args.len() && is_help_flag(#[trigger] args[i])) {
                let i = choose|i: int| 0 <= i < args.len() && is_help_flag(#[trigger] args[i]);
                if i < rest.len() {
                    assert(rest[i] == args[i]);
                }
            }
            let n = args.len() - 1;
            if is_help_flag(a) {
                assert(p == (v.0, v.1, true));
                assert(is_help_flag(args[n]));
                assert(!is_tui_flag(a));
            } else if is_tui_flag(a) {
                assert(p == (Mode::Tui, v.1, v.2));
                assert(is_tui_flag(args[n]));
            } else {
                assert(!(a.len() > 0 && a[0] == '-'));
                assert(v.1 is None);
                assert(p == (v.0, Some(a), v.2));
                assert(args[n] == a);
            }
            if let Some(q) = v.1 {
                let i = choose|i: int|
                    0 <= i < rest.len() && #[trigger] rest[i] == q && !is_tui_flag(q) && !is_help_flag(q) && !(q.len()
                        > 0 && q[0] == '-');
                assert(args[i] == rest[i]);
            }
        }
    }
}

/// The help text.
pub open spec fn help_text_spec() -> Seq<char> {
    "treefold [OPTIONS] [PATH]

Default mode: GUI

Options:
  -t, --tui    Run in terminal UI mode
  -h, --help   Show this help

Args:
  PATH         Optional starting path (GUI default: home, TUI default: current working directory)"@
}

/// The help text: usage, the default interface, the options and the path argument.
pub fn help_text() -> (s: &'static str)
    ensures
        s@ == help_text_spec(),
{
    "treefold [OPTIONS] [PATH]

Default mode: GUI

Options:
  -t, --tui    Run in terminal UI mode
  -h, --help   Show this help

Args:
  PATH         Optional starting path (GUI default: home, TUI default: current working directory)"
}

} // verus!
