//! The shell command line that runs a script from the library.
use vstd::prelude::*;
use vstd::string::*;
use super::ScriptHeader;
use crate::text::{chars_of, push_char};

verus! {

/// `s` with a backslash inserted before every double quote.
pub open spec fn escaped(s: Seq<char>) -> Seq<char>
    decreases s.len(),
{
    if s.len() == 0 {
        Seq::empty()
    } else if s.last() == '"' {
        escaped(s.drop_last()) + seq!['\\', '"']
    } else {
        escaped(s.drop_last()).push(s.last())
    }
}

/// Escapes the double quotes of `s` with backslashes.
pub fn escape_quotes(s: &str) -> (r: String)
    ensures
        r@ == escaped(s@),
{
    let v = chars_of(s);
    let mut out = String::new();
    let mut i: usize = 0;
    while i < v.len()
        invariant
            i <= v@.len(),
            v@ == s@,
            out@ == escaped(v@.take(i as int)),
        decreases v@.len() - i,
    {
        let c = v[i];
        assert(v@.take(i + 1).drop_last() =~= v@.take(i as int));
        if c == '"' {
            push_char(&mut out, '\\');
            push_char(&mut out, '"');
            assert(out@ =~= escaped(v@.take(i as int)) + seq!['\\', '"']);
        } else {
            push_char(&mut out, c);
        }
        i = i + 1;
    }
    assert(v@.take(v@.len() as int) =~= v@);
    out
}

/// The command that runs the script at `path` (already escaped) for a
/// header asking for hooks and/or FBInk output.
pub open spec fn command_text(path: Seq<char>, use_hooks: bool, use_fbink: bool) -> Seq<char> {
    let run = if use_hooks {
        "sh -l -c \"source \\\""@ + path + "\\\"; on_run;\""@
    } else {
        "sh -l \""@ + path + "\""@
    };
    if use_fbink {
        "/mnt/us/libkh/bin/fbink -k; "@ + run + " 2>&1 | /mnt/us/libkh/bin/fbink -y 5 -r"@
    } else {
        run
    }
}

/// The shell command that runs the script, honouring its `UseHooks` and
/// `DontUseFBInk` declarations.
pub fn generate_command(script_path: &str, header: &ScriptHeader) -> (r: String)
    ensures
        r@ == command_text(escaped(script_path@), header.use_hooks, header.use_fbink),
{
    let escaped_path = escape_quotes(script_path);
    let mut command = if header.use_hooks {
        let mut c = String::from_str("sh -l -c \"source \\\"");
        c.append(escaped_path.as_str());
        c.append("\\\"; on_run;\"");
        c
    } else {
        let mut c = String::from_str("sh -l \"");
        c.append(escaped_path.as_str());
        c.append("\"");
        c
    };
    if header.use_fbink {
        let mut c = String::from_str("/mnt/us/libkh/bin/fbink -k; ");
        c.append(command.as_str());
        c.append(" 2>&1 | /mnt/us/libkh/bin/fbink -y 5 -r");
        command = c;
    }
    command
}

/// FBInk output wraps whatever command runs the script, hooks or not: with
/// FBInk the command is the FBInk clear, the plain command with its output
/// piped to FBInk. Without FBInk, a hooks script is sourced in a login
/// shell and `on_run` called; any other script is run by a login shell.
pub proof fn lemma_command_shape(path: Seq<char>, use_hooks: bool)
    ensures
        command_text(path, use_hooks, true) == "/mnt/us/libkh/bin/fbink -k; "@ + command_text(
            path,
            use_hooks,
            false,
        ) + " 2>&1 | /mnt/us/libkh/bin/fbink -y 5 -r"@,
        command_text(path, true, false) == "sh -l -c \"source \\\""@ + path + "\\\"; on_run;\""@,
        command_text(path, false, false) == "sh -l \""@ + path + "\""@,
{
}

} // verus!
