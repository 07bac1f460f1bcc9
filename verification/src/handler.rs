//! The default-handler registration protocol: the decision whether this
//! program is the current default URL handler, and the ordered sequence of
//! per-user registry writes that makes it eligible to become one.
//!
//! The caller performs the writes in order, aborts on the first failure
//! (surfacing `RegistrationError`, with no rollback of writes already
//! applied), and then opens the system's default-apps settings surface: the
//! final assignment is reserved to the user.

use vstd::prelude::*;
use vstd::string::StringExecFns;
use crate::error::Error;
use crate::model::Platform;
use crate::text::{chars_contain, chars_of, contains_seq, string_of};

verus! {

/// One registry value write: under the per-user key `key_path`, set
/// `value_name` to `value`. An empty `value_name` names the key's default
/// value.
pub struct RegValue {
    pub key_path: String,
    pub value_name: String,
    pub value: String,
}

pub ghost struct RegValueV {
    pub key_path: Seq<char>,
    pub value_name: Seq<char>,
    pub value: Seq<char>,
}

impl View for RegValue {
    type V = RegValueV;

    open spec fn view(&self) -> RegValueV {
        RegValueV { key_path: self.key_path@, value_name: self.value_name@, value: self.value@ }
    }
}

pub open spec fn rvseq_view(s: Seq<RegValue>) -> Seq<RegValueV> {
    Seq::new(s.len(), |i: int| s[i]@)
}

pub open spec fn rv(k: Seq<char>, n: Seq<char>, v: Seq<char>) -> RegValueV {
    RegValueV { key_path: k, value_name: n, value: v }
}

/// The shell-open command: the current executable in quotes, then the URL
/// placeholder in quotes.
pub open spec fn launch_command(exe: Seq<char>) -> Seq<char> {
    seq!['"'] + exe + seq!['"', ' ', '"', '%', '1', '"']
}

/// The ordered registration sequence: application identity, capability
/// advertisement, the URL-scheme associations for http and https, the
/// program identifier with its shell-open command, and the global
/// registration among browser-choice-eligible applications.
pub open spec fn registration_writes(exe: Seq<char>) -> Seq<RegValueV> {
    seq![
        rv("Software\\PickBrowser"@, "ApplicationName"@, "Pick Browser"@),
        rv("Software\\PickBrowser"@, "ApplicationDescription"@, "Browser Picker Application"@),
        rv("Software\\PickBrowser\\Capabilities"@, "ApplicationName"@, "Pick Browser"@),
        rv(
            "Software\\PickBrowser\\Capabilities"@,
            "ApplicationDescription"@,
            "Choose which browser to use for each link"@,
        ),
        rv("Software\\PickBrowser\\Capabilities\\URLAssociations"@, "http"@, "PickBrowserURL"@),
        rv("Software\\PickBrowser\\Capabilities\\URLAssociations"@, "https"@, "PickBrowserURL"@),
        rv("Software\\Classes\\PickBrowserURL"@, ""@, "Pick Browser URL"@),
        rv("Software\\Classes\\PickBrowserURL"@, "URL Protocol"@, ""@),
        rv("Software\\Classes\\PickBrowserURL\\shell\\open\\command"@, ""@, launch_command(exe)),
        rv("Software\\RegisteredApplications"@, "PickBrowser"@, "Software\\PickBrowser\\Capabilities"@),
    ]
}

/// The shell-open command as a string.
fn build_command(exe: &str) -> (r: String)
    ensures
        r@ == launch_command(exe@),
{
    let mut out: Vec<char> = Vec::new();
    out.push('"');
    let cs = chars_of(exe);
    let mut i: usize = 0;
    while i < cs.len()
        invariant
            i <= cs.len(),
            cs@ == exe@,
            out@ =~= seq!['"'] + exe@.subrange(0, i as int),
        decreases cs.len() - i,
    {
        out.push(cs[i]);
        assert(out@ =~= seq!['"'] + exe@.subrange(0, i + 1 as int));
        i = i + 1;
    }
    out.push('"');
    out.push(' ');
    out.push('"');
    out.push('%');
    out.push('1');
    out.push('"');
    proof {
        assert(exe@.subrange(0, exe@.len() as int) =~= exe@);
        assert(out@ =~= launch_command(exe@));
    }
    string_of(&out)
}

fn mk(k: &str, n: &str, v: &str) -> (r: RegValue)
    ensures
        r@ == rv(k@, n@, v@),
{
    RegValue {
        key_path: String::from_str(k),
        value_name: String::from_str(n),
        value: String::from_str(v),
    }
}

/// The registration plan for the platform: the full write sequence on
/// Windows, `UnsupportedPlatform` anywhere else.
#[verifier::rlimit(100)]
pub fn make_default_plan(platform: Platform, exe_path: &str) -> (r: Result<Vec<RegValue>, Error>)
    ensures
        platform is Windows ==> (r matches Ok(v) && rvseq_view(v@) == registration_writes(
            exe_path@,
        )),
        !(platform is Windows) ==> (r matches Err(e) && e matches Error::UnsupportedPlatform),
{
    match platform {
        Platform::Windows => {
            let mut v: Vec<RegValue> = Vec::new();
            v.push(mk("Software\\PickBrowser", "ApplicationName", "Pick Browser"));
            v.push(
                mk("Software\\PickBrowser", "ApplicationDescription", "Browser Picker Application"),
            );
            v.push(mk("Software\\PickBrowser\\Capabilities", "ApplicationName", "Pick Browser"));
            v.push(
                mk(
                    "Software\\PickBrowser\\Capabilities",
                    "ApplicationDescription",
                    "Choose which browser to use for each link",
                ),
            );
            v.push(
                mk("Software\\PickBrowser\\Capabilities\\URLAssociations", "http", "PickBrowserURL"),
            );
            v.push(
                mk(
                    "Software\\PickBrowser\\Capabilities\\URLAssociations",
                    "https",
                    "PickBrowserURL",
                ),
            );
            v.push(mk("Software\\Classes\\PickBrowserURL", "", "Pick Browser URL"));
            v.push(mk("Software\\Classes\\PickBrowserURL", "URL Protocol", ""));
            let cmd = build_command(exe_path);
            v.push(
                RegValue {
                    key_path: String::from_str("Software\\Classes\\PickBrowserURL\\shell\\open\\command"),
                    value_name: String::from_str(""),
                    value: cmd,
                },
            );
            v.push(
                mk(
                    "Software\\RegisteredApplications",
                    "PickBrowser",
                    "Software\\PickBrowser\\Capabilities",
                ),
            );
            proof {
                assert(rvseq_view(v@) =~= registration_writes(exe_path@));
            }
            Ok(v)
        },
        _ => Err(Error::UnsupportedPlatform),
    }
}

/// Whether a program identifier read from the per-user URL association
/// names this application.
pub open spec fn is_default_spec(platform: Platform, prog_id: Option<Seq<char>>) -> bool {
    platform is Windows && match prog_id {
        Some(p) => contains_seq(p, "PickBrowser"@) || contains_seq(p, "pick_browser"@),
        None => false,
    }
}

/// The query decision: true exactly when the platform supports the query
/// and the program identifier names this application; every negative or
/// absent reading collapses to false.
pub fn is_default_from_prog_id(platform: Platform, prog_id: &Option<String>) -> (r: bool)
    ensures
        r == is_default_spec(
            platform,
            match prog_id {
                Some(p) => Some(p@),
                None => None,
            },
        ),
{
    match platform {
        Platform::Windows => match prog_id {
            Some(p) => {
                let pc = chars_of(p.as_str());
                let m1 = chars_of("PickBrowser");
                let m2 = chars_of("pick_browser");
                chars_contain(&pc, &m1) || chars_contain(&pc, &m2)
            },
            None => false,
        },
        _ => false,
    }
}

/// The per-user preference key that records the current handler of the
/// `http` scheme.
pub fn user_choice_key() -> (r: String)
    ensures
        r@ == "Software\\Microsoft\\Windows\\Shell\\Associations\\UrlAssociations\\http\\UserChoice"@,
{
    String::from_str(
        "Software\\Microsoft\\Windows\\Shell\\Associations\\UrlAssociations\\http\\UserChoice",
    )
}

/// The value under the preference key that names the handler.
pub fn prog_id_value_name() -> (r: String)
    ensures
        r@ == "ProgId"@,
{
    String::from_str("ProgId")
}

} // verus!
