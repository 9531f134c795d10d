//! The KOReader launcher's decisions: what to register and announce on the
//! bus, and what a `go` request opens.
use vstd::prelude::*;
use vstd::string::*;
use crate::kompanion_launcher::callbacks::{
    build_launch_command, go_path, parse_go_value, PropertyWrite,
};
use crate::text::concat;

verus! {

/// The launcher's service name on the property bus.
pub open spec fn koreader_service() -> Seq<char> {
    "github.koreader.companion.launcher"@
}

/// The first name of an `application/x-www-form-urlencoded` text, decoded
/// (`+` as space, percent escapes, invalid UTF-8 replaced); empty when the
/// text has no pair.
pub uninterp spec fn form_first_key(input: Seq<char>) -> Seq<char>;

/// `form_urlencoded::parse` over the text's bytes, taking the name of the
/// first pair (empty when there is none). Of the decoding only this is
/// claimed: a text without `%`, `+`, `&` and `=` is its own first name.
#[verifier::external_body]
fn form_decode_first_key(input: &str) -> (r: String)
    ensures
        r@ == form_first_key(input@),
        !input@.contains('%') && !input@.contains('+') && !input@.contains('&')
            && !input@.contains('=') ==> r@ == input@,
{
    url::form_urlencoded::parse(input.as_bytes()).next().map(|(k, _)| k.into_owned()).unwrap_or_default()
}

/// The announcement that the launcher is running: the application
/// manager's `runresult` is set to `0:<service>`.
pub fn run_result_write() -> (r: PropertyWrite)
    ensures
        r.service@ == "com.lab126.appmgrd"@,
        r.property@ == "runresult"@,
        r.value@ == "0:"@ + koreader_service(),
{
    PropertyWrite {
        service: String::from_str("com.lab126.appmgrd"),
        property: String::from_str("runresult"),
        value: concat("0:", "github.koreader.companion.launcher"),
    }
}

/// The request to stop the launcher once the application has exited.
pub fn stop_write() -> (r: PropertyWrite)
    ensures
        r.service@ == "com.lab126.appmgrd"@,
        r.property@ == "stop"@,
        r.value@ == koreader_service(),
{
    PropertyWrite {
        service: String::from_str("com.lab126.appmgrd"),
        property: String::from_str("stop"),
        value: String::from_str("github.koreader.companion.launcher"),
    }
}

/// What a `go` request leads to.
pub enum GoPlan {
    /// The value names no file: only the reply is sent.
    ReplyOnly,
    /// Touch and rescan `path`, then run `command`.
    Launch { path: String, command: String },
}

/// The launch for a decoded file path.
pub fn launch_plan(path: String) -> (r: GoPlan)
    ensures
        r matches GoPlan::Launch { path: p, command: c } && p@ == path@
            && c@ == "/mnt/us/koreader/koreader.sh --asap \""@ + path@ + "\""@,
{
    let command = build_launch_command(path.as_str());
    GoPlan::Launch { path, command }
}

/// What the `go` value `value` leads to: nothing but the reply when it
/// names no file, else the launch of the form-decoded path.
pub fn plan_go(value: &str) -> (r: GoPlan)
    ensures
        match go_path(value@) {
            None => r is ReplyOnly,
            Some(p) => r matches GoPlan::Launch { path, command } && path@ == form_first_key(p)
                && command@ == "/mnt/us/koreader/koreader.sh --asap \""@ + path@ + "\""@
                && (!p.contains('%') && !p.contains('+') && !p.contains('&') && !p.contains('=')
                ==> path@ == p),
        },
{
    match parse_go_value(value) {
        None => GoPlan::ReplyOnly,
        Some(p) => {
            let decoded = form_decode_first_key(p.as_str());
            launch_plan(decoded)
        },
    }
}

} // verus!
