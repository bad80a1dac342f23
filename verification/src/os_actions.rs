use vstd::prelude::*;
use crate::text::push_char;

verus! {

/// The operating system family the file browser is opened on.
#[derive(Debug, Clone, Copy, PartialEq, Eq, Structural)]
pub enum TargetOs {
    MacOs,
    Windows,
    Other,
}

/// `s` with every `/` replaced by `\`.
pub open spec fn backslashed(s: Seq<char>) -> Seq<char> {
    Seq::new(s.len(), |k: int| if s[k] == '/' { '\\' } else { s[k] })
}

/// The program that shows a location in the file browser: `open` on macOS, `explorer` on
/// Windows, `xdg-open` elsewhere.
pub open spec fn open_program(os: TargetOs) -> Seq<char> {
    match os {
        TargetOs::MacOs => "open"@,
        TargetOs::Windows => "explorer"@,
        TargetOs::Other => "xdg-open"@,
    }
}

/// The single argument given to that program: the path, with `\` separators on Windows.
pub open spec fn open_argument(os: TargetOs, path: Seq<char>) -> Seq<char> {
    if os == TargetOs::Windows { backslashed(path) } else { path }
}

/// The command that shows `path` in the file browser of `os`: the program and its arguments.
pub fn open_command(os: TargetOs, path: &str) -> (res: (&'static str, Vec<String>))
    ensures
        res.0@ == open_program(os),
        res.1@.len() == 1,
        res.1@[0]@ == open_argument(os, path@),
{
    let mut args: Vec<String> = Vec::new();
    match os {
        TargetOs::MacOs => {
            args.push(String::from_str(path));
            ("open", args)
        },
        TargetOs::Windows => {
            let n = path.unicode_len();
            let mut out = String::new();
            let mut i: usize = 0;
            while i < n
                invariant
                    n == path@.len(),
                    i <= n,
                    out@ == backslashed(path@).subrange(0, i as int),
                decreases n - i,
            {
                let c = path.get_char(i);
                push_char(&mut out, if c == '/' { '\\' } else { c });
                assert(out@ =~= backslashed(path@).subrange(0, i + 1));
                i = i + 1;
            }
            assert(out@ =~= backslashed(path@));
            args.push(out);
            ("explorer", args)
        },
        TargetOs::Other => {
            args.push(String::from_str(path));
            ("xdg-open", args)
        },
    }
}

} // verus!
