//! The launcher's answers to the application manager: the file a `go`
//! request names, the command that opens it, and the replies it owes.
use vstd::prelude::*;
use vstd::string::*;
use crate::koreader_companion_sys::lipc::LIPCcode;
use crate::text::{
    chars_of, concat, decimal, decimal_of, find_char, find_char_pos, is_prefix, slice_chars,
    starts_with, string_from_chars, substring,
};

verus! {

/// The launcher's service name on the property bus.
pub open spec fn service_name() -> Seq<char> {
    "com.notmarek.kompanion.launcher"@
}

/// What the launcher keeps between callbacks: the process it started
/// (`-1` for none) and whether it was told to unload.
pub struct LauncherState {
    pub app_pid: i32,
    pub should_exit: bool,
}

impl Default for LauncherState {
    fn default() -> (r: Self)
        ensures
            r.app_pid == -1,
            !r.should_exit,
    {
        LauncherState { app_pid: -1, should_exit: false }
    }
}

/// One string property to set on the bus.
pub struct PropertyWrite {
    pub service: String,
    pub property: String,
    pub value: String,
}

/// The request id at the start of a callback value: the text before the
/// first `:` (all of it when there is none).
pub open spec fn request_id(value: Seq<char>) -> Seq<char> {
    match find_char(value, ':') {
        Some(i) => value.subrange(0, i),
        None => value,
    }
}

/// The reply to a callback for `property` with `value`: the application
/// manager's `<property>result` is set to `<id>:0:`, and the callback
/// answers `Success`.
pub fn stub_reply(property: &str, value: &str) -> (r: (LIPCcode, PropertyWrite))
    ensures
        r.0 == LIPCcode::Success,
        r.1.service@ == "com.lab126.appmgrd"@,
        r.1.property@ == property@ + "result"@,
        r.1.value@ == request_id(value@) + ":0:"@,
{
    let v = chars_of(value);
    let id = match find_char_pos(v.as_slice(), ':') {
        Some(i) => {
            proof {
                crate::text::lemma_find_char_from(v@, ':', 0);
            }
            substring(v.as_slice(), 0, i)
        },
        None => {
            assert(v@.subrange(0, v@.len() as int) =~= v@);
            substring(v.as_slice(), 0, v.len())
        },
    };
    let response = concat(id.as_str(), ":0:");
    let target = concat(property, "result");
    let service = String::from_str("com.lab126.appmgrd");
    (LIPCcode::Success, PropertyWrite { service, property: target, value: response })
}

/// The file path that a `go` value names: after the first `:`, behind
/// `app://<service>/`, up to a `?`.
pub open spec fn go_path(value: Seq<char>) -> Option<Seq<char>> {
    match find_char(value, ':') {
        None => None,
        Some(i) => {
            let after = value.subrange(i + 1, value.len() as int);
            let prefix = "app://"@ + service_name() + "/"@;
            if is_prefix(prefix, after) {
                let part = after.subrange(prefix.len() as int, after.len() as int);
                match find_char(part, '?') {
                    Some(q) => Some(part.subrange(0, q)),
                    None => Some(part),
                }
            } else {
                None
            }
        },
    }
}

/// The file path of a `go` request, or `None` when the value does not
/// address this launcher.
pub fn parse_go_value(value: &str) -> (r: Option<String>)
    ensures
        match r {
            Some(p) => go_path(value@) == Some(p@),
            None => go_path(value@) is None,
        },
{
    let v = chars_of(value);
    let found = find_char_pos(v.as_slice(), ':');
    let i = match found {
        Some(i) => i,
        None => return None,
    };
    proof {
        crate::text::lemma_find_char_from(v@, ':', 0);
    }
    assert(i < v.len());
    let after = slice_chars(v.as_slice(), i + 1, v.len());
    let mut p = String::from_str("app://");
    p.append("com.notmarek.kompanion.launcher");
    p.append("/");
    let prefix = chars_of(p.as_str());
    if !starts_with(after.as_slice(), prefix.as_slice()) {
        return None;
    }
    let part = slice_chars(after.as_slice(), prefix.len(), after.len());
    match find_char_pos(part.as_slice(), '?') {
        Some(q) => {
            proof {
                crate::text::lemma_find_char_from(part@, '?', 0);
            }
            Some(substring(part.as_slice(), 0, q))
        },
        None => Some(string_from_chars(part.as_slice())),
    }
}

/// The shell command that opens `file_path` in KOReader; the path is
/// double-quoted so that spaces survive.
pub fn build_launch_command(file_path: &str) -> (r: String)
    ensures
        r@ == "/mnt/us/koreader/koreader.sh --asap \""@ + file_path@ + "\""@,
{
    let mut out = String::from_str("/mnt/us/koreader/koreader.sh --asap \"");
    out.append(file_path);
    out.append("\"");
    out
}

/// The command line that runs `command` as root: `su -c '<command>'`.
pub fn su_command_line(command: &str) -> (r: String)
    ensures
        r@ == "/var/local/mkk/su -c '"@ + command@ + "'"@,
{
    let mut out = String::from_str("/var/local/mkk/su -c '");
    out.append(command);
    out.append("'");
    out
}

/// The command line that kills the started application.
pub fn kill_command_line(pid: u32) -> (r: String)
    ensures
        r@ == "/var/local/mkk/su -c \"kill -9 "@ + decimal(pid as nat) + "\""@,
{
    let mut out = String::from_str("/var/local/mkk/su -c \"kill -9 ");
    let n = decimal_of(pid);
    out.append(n.as_str());
    out.append("\"");
    out
}

/// What the launcher's main loop does next.
#[derive(Debug, Clone, Copy, PartialEq, Eq, Structural)]
pub enum LoopStep {
    /// Unloaded: close the bus connection and return.
    Exit,
    /// Wait for the started application, then tell the manager to stop.
    WaitFor(i32),
    /// Nothing to do; sleep and look again.
    Idle,
}

/// The loop's step for a state.
pub open spec fn step_of(s: LauncherState) -> LoopStep {
    if s.should_exit {
        LoopStep::Exit
    } else if s.app_pid > 0 {
        LoopStep::WaitFor(s.app_pid)
    } else {
        LoopStep::Idle
    }
}

impl LauncherState {
    /// The loop's next step: exit once unloaded, else wait for a started
    /// application, else idle.
    pub fn next_step(&self) -> (r: LoopStep)
        ensures
            r == step_of(*self),
    {
        if self.should_exit {
            LoopStep::Exit
        } else if self.app_pid > 0 {
            LoopStep::WaitFor(self.app_pid)
        } else {
            LoopStep::Idle
        }
    }

    /// An `unload` request: the loop is to exit; the started application,
    /// if any, is returned so that it can be killed first.
    pub fn on_unload(&mut self) -> (r: Option<u32>)
        ensures
            final(self).should_exit,
            final(self).app_pid == old(self).app_pid,
            r == (if old(self).app_pid > 0 {
                Some(old(self).app_pid as u32)
            } else {
                None::<u32>
            }),
    {
        let kill = if self.app_pid > 0 {
            Some(self.app_pid as u32)
        } else {
            None
        };
        self.should_exit = true;
        kill
    }

    /// The application was started as process `pid`.
    pub fn on_spawned(&mut self, pid: i32)
        ensures
            final(self).app_pid == pid,
            final(self).should_exit == old(self).should_exit,
    {
        self.app_pid = pid;
    }

    /// The started application has exited.
    pub fn on_child_exited(&mut self)
        ensures
            final(self).app_pid == -1,
            final(self).should_exit == old(self).should_exit,
    {
        self.app_pid = -1;
    }
}

/// Once unloaded, the loop exits, whatever else happens to the state
/// before it looks.
pub proof fn lemma_unload_ends_loop(s: LauncherState, pid: i32)
    requires
        s.should_exit,
    ensures
        step_of(s) == LoopStep::Exit,
        step_of(LauncherState { app_pid: pid, should_exit: s.should_exit }) == LoopStep::Exit,
        step_of(LauncherState { app_pid: -1i32, should_exit: s.should_exit }) == LoopStep::Exit,
{
}

/// A started application is waited for until it exits; after that the
/// loop idles again unless it was unloaded.
pub proof fn lemma_child_lifecycle(s: LauncherState, pid: i32)
    requires
        !s.should_exit,
        pid > 0,
    ensures
        step_of(LauncherState { app_pid: pid, should_exit: s.should_exit }) == LoopStep::WaitFor(pid),
        step_of(LauncherState { app_pid: -1i32, should_exit: s.should_exit }) == LoopStep::Idle,
{
}

/// The reply names the request by the text before the first `:`: for a
/// value made of a tag without `:`, a `:` and anything at all, the id is the
/// tag; a value without `:` is its own id.
pub proof fn lemma_request_id_ends_at_first_colon(tag: Seq<char>, rest: Seq<char>)
    requires
        !tag.contains(':'),
    ensures
        request_id(tag + ":"@ + rest) == tag,
        request_id(tag) == tag,
{
    reveal_strlit(":");
    let v = tag + ":"@ + rest;
    let t = tag.len() as int;
    assert(v[t] == ':');
    crate::text::lemma_find_char_from(v, ':', 0);
    match find_char(v, ':') {
        Some(i) => {
            if i < t {
                assert(v[i] == tag[i]);
                assert(tag.contains(':'));
            }
        },
        None => {},
    }
    assert(v.subrange(0, t) =~= tag);
    crate::text::lemma_find_char_from(tag, ':', 0);
    match find_char(tag, ':') {
        Some(i) => {
            assert(tag.contains(':'));
        },
        None => {},
    }
}

/// A query after the path is left out: the path of a `go` value ends at
/// the first `?`, whatever follows it.
pub proof fn lemma_go_path_drops_query(tag: Seq<char>, path: Seq<char>, query: Seq<char>)
    requires
        !tag.contains(':'),
        !path.contains('?'),
    ensures
        go_path(tag + seq![':'] + (("app://"@ + service_name() + "/"@) + path + seq!['?'] + query)) == Some(path),
{
    let prefix = "app://"@ + service_name() + "/"@;
    let after = prefix + path + seq!['?'] + query;
    crate::text::lemma_find_char_split(tag, ':', after);
    let v = tag + seq![':'] + after;
    assert(v.subrange(tag.len() as int + 1, v.len() as int) =~= after);
    assert(after.subrange(0, prefix.len() as int) =~= prefix);
    let part = after.subrange(prefix.len() as int, after.len() as int);
    assert(part =~= path + seq!['?'] + query);
    crate::text::lemma_find_char_split(path, '?', query);
    assert(part.subrange(0, path.len() as int) =~= path);
}

/// A `go` value built from a tag without `:` and a path without `?` gives
/// that path back: what the application manager sends for a file is what
/// the launcher opens.
pub proof fn lemma_go_value_round_trip(tag: Seq<char>, path: Seq<char>)
    requires
        !tag.contains(':'),
        !path.contains('?'),
    ensures
        go_path(tag + ":"@ + ("app://"@ + service_name() + "/"@) + path) == Some(path),
{
    reveal_strlit(":");
    let prefix = "app://"@ + service_name() + "/"@;
    let v = tag + ":"@ + prefix + path;
    let t = tag.len() as int;
    assert(v[t] == ':');
    crate::text::lemma_find_char_from(v, ':', 0);
    match find_char(v, ':') {
        Some(i) => {
            if i < t {
                assert(v[i] == tag[i]);
                assert(tag.contains(':'));
            }
        },
        None => {},
    }
    assert(find_char(v, ':') == Some(t));
    let after = v.subrange(t + 1, v.len() as int);
    assert(after =~= prefix + path);
    assert(after.subrange(0, prefix.len() as int) =~= prefix);
    let part = after.subrange(prefix.len() as int, after.len() as int);
    assert(part =~= path);
    crate::text::lemma_find_char_from(path, '?', 0);
    match find_char(path, '?') {
        Some(q) => {
            assert(path.contains('?'));
        },
        None => {},
    }
}

} // verus!
