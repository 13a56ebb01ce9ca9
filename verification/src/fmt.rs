//! Rendering values as text: decimal numbers and `Debug` renderings.
use vstd::prelude::*;
use crate::task::Shell;
use crate::text::{push_text, strs};

verus! {

/// What `format!("{:?}", s)` gives for a string: the string quoted, with escapes.
pub uninterp spec fn str_debug_text(s: Seq<char>) -> Seq<char>;

/// The `Debug` rendering of a string slice (std's `<str as Debug>::fmt`).
///
/// Trusted: the result equals `str_debug_text` of the argument; what that text is (quotes and
/// escape sequences) is not stated here.
#[verifier::external_body]
pub(crate) fn debug_str(s: &str) -> (res: String)
    ensures
        res@ == str_debug_text(s@),
{
    format!("{:?}", s)
}

/// The decimal digit for `d < 10`.
pub open spec fn digit_char(d: nat) -> char {
    if d == 0 {
        '0'
    } else if d == 1 {
        '1'
    } else if d == 2 {
        '2'
    } else if d == 3 {
        '3'
    } else if d == 4 {
        '4'
    } else if d == 5 {
        '5'
    } else if d == 6 {
        '6'
    } else if d == 7 {
        '7'
    } else if d == 8 {
        '8'
    } else {
        '9'
    }
}

/// The decimal rendering of `n`, without leading zeros.
pub open spec fn decimal_text(n: nat) -> Seq<char>
    decreases n,
{
    if n < 10 {
        seq![digit_char(n)]
    } else {
        decimal_text(n / 10).push(digit_char(n % 10))
    }
}

fn digit(d: u64) -> (c: char)
    requires
        d < 10,
    ensures
        c == digit_char(d as nat),
{
    if d == 0 {
        '0'
    } else if d == 1 {
        '1'
    } else if d == 2 {
        '2'
    } else if d == 3 {
        '3'
    } else if d == 4 {
        '4'
    } else if d == 5 {
        '5'
    } else if d == 6 {
        '6'
    } else if d == 7 {
        '7'
    } else if d == 8 {
        '8'
    } else {
        '9'
    }
}

/// The decimal rendering of a number (as `Display` writes it).
pub fn decimal(n: u64) -> (res: String)
    ensures
        res@ == decimal_text(n as nat),
    decreases n,
{
    if n < 10 {
        let mut s = String::new();
        s.push(digit(n));
        assert(s@ =~= seq![digit_char(n as nat)]);
        s
    } else {
        let mut s = decimal(n / 10);
        s.push(digit(n % 10));
        s
    }
}

/// `Debug` rendering of a list of strings: `["a", "b"]`.
pub open spec fn debug_list_text(items: Seq<Seq<char>>) -> Seq<char>
    decreases items.len(),
{
    "["@ + debug_items_text(items) + "]"@
}

pub open spec fn debug_items_text(items: Seq<Seq<char>>) -> Seq<char>
    decreases items.len(),
{
    if items.len() == 0 {
        Seq::empty()
    } else if items.len() == 1 {
        str_debug_text(items[0])
    } else {
        debug_items_text(items.drop_last()) + ", "@ + str_debug_text(items.last())
    }
}

/// `Debug` rendering of a shell, as `#[derive(Debug)]` writes it.
pub open spec fn shell_debug_text(shell: Shell) -> Seq<char> {
    match shell {
        Shell::Sh => "Sh"@,
        Shell::Bash => "Bash"@,
        Shell::Zsh => "Zsh"@,
        Shell::PowerShell => "PowerShell"@,
        Shell::Cmd => "Cmd"@,
        Shell::Custom { program, args } => "Custom { program: "@ + str_debug_text(program@)
            + ", args: "@ + debug_list_text(strs(args@)) + " }"@,
    }
}

/// `Debug` rendering of an optional shell.
pub open spec fn option_shell_debug_text(shell: Option<Shell>) -> Seq<char> {
    match shell {
        Some(s) => "Some("@ + shell_debug_text(s) + ")"@,
        None => "None"@,
    }
}

/// Appends the `Debug` rendering of a list of strings.
pub fn push_debug_list(out: &mut String, items: &Vec<String>)
    ensures
        final(out)@ == old(out)@ + debug_list_text(strs(items@)),
{
    let ghost start = out@;
    push_text(out, "[");
    let mut i: usize = 0;
    while i < items.len()
        invariant
            i <= items@.len(),
            out@ == start + "["@ + debug_items_text(strs(items@.take(i as int))),
        decreases items@.len() - i,
    {
        proof {
            let t = strs(items@.take(i + 1));
            assert(t.drop_last() =~= strs(items@.take(i as int)));
            assert(t.last() == items@[i as int]@);
        }
        if i > 0 {
            push_text(out, ", ");
        }
        let d = debug_str(items[i].as_str());
        push_text(out, d.as_str());
        i = i + 1;
    }
    assert(items@.take(items@.len() as int) =~= items@);
    push_text(out, "]");
}

/// The `Debug` rendering of a shell.
pub fn shell_debug(shell: &Shell) -> (res: String)
    ensures
        res@ == shell_debug_text(*shell),
{
    let mut out = String::new();
    match shell {
        Shell::Sh => push_text(&mut out, "Sh"),
        Shell::Bash => push_text(&mut out, "Bash"),
        Shell::Zsh => push_text(&mut out, "Zsh"),
        Shell::PowerShell => push_text(&mut out, "PowerShell"),
        Shell::Cmd => push_text(&mut out, "Cmd"),
        Shell::Custom { program, args } => {
            push_text(&mut out, "Custom { program: ");
            let p = debug_str(program.as_str());
            push_text(&mut out, p.as_str());
            push_text(&mut out, ", args: ");
            push_debug_list(&mut out, args);
            push_text(&mut out, " }");
        },
    }
    out
}

/// The `Debug` rendering of an optional shell.
pub fn option_shell_debug(shell: &Option<Shell>) -> (res: String)
    ensures
        res@ == option_shell_debug_text(*shell),
{
    let mut out = String::new();
    match shell {
        Some(s) => {
            push_text(&mut out, "Some(");
            let d = shell_debug(s);
            push_text(&mut out, d.as_str());
            push_text(&mut out, ")");
        },
        None => push_text(&mut out, "None"),
    }
    out
}

} // verus!
