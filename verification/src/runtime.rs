//! The managed ComfyUI runtime: what a preflight check reports, and how the
//! manager's output is turned into the text the Runtime tab shows.
use vstd::prelude::*;
use crate::text::{str_eq, trim_seq, trim_str};

verus! {

/// One preflight check, mirroring `synthetrix.comfy.checks.CheckResult`.
#[derive(Clone, Debug)]
pub struct CheckResult {
    pub title: String,
    /// OK | WARN | FAIL | SKIP
    pub status: String,
    pub message: String,
    pub fix: String,
    pub blocking: bool,
}

/// The glyph shown for a check status.
pub open spec fn glyph_spec(status: Seq<char>) -> Seq<char> {
    if status == "OK"@ {
        "✔"@
    } else if status == "WARN"@ {
        "▲"@
    } else if status == "FAIL"@ {
        "✖"@
    } else if status == "SKIP"@ {
        "–"@
    } else {
        "?"@
    }
}

/// The glyph shown for a check status (`?` for an unknown one).
pub fn glyph(status: &str) -> (r: &'static str)
    ensures
        r@ == glyph_spec(status@),
{
    if str_eq(status, "OK") {
        "✔"
    } else if str_eq(status, "WARN") {
        "▲"
    } else if str_eq(status, "FAIL") {
        "✖"
    } else if str_eq(status, "SKIP") {
        "–"
    } else {
        "?"
    }
}

/// The Python interpreter to run the manager with: the configured one
/// (trimmed), `python` when none is configured.
pub fn python_command(configured: &str) -> (r: String)
    ensures
        trim_seq(configured@).len() == 0 ==> r@ == "python"@,
        trim_seq(configured@).len() > 0 ==> r@ == trim_seq(configured@),
{
    let t = trim_str(configured);
    if t.as_str().is_empty() {
        "python".to_owned()
    } else {
        t
    }
}

/// The console text for a plain (non-JSON) manager command: its standard
/// output, or its error output when the standard output is blank, trimmed.
pub fn console_text(stdout: &str, stderr: &str) -> (r: String)
    ensures
        trim_seq(stdout@).len() == 0 ==> r@ == trim_seq(stderr@),
        trim_seq(stdout@).len() > 0 ==> r@ == trim_seq(stdout@),
{
    let o = trim_str(stdout);
    if o.as_str().is_empty() {
        trim_str(stderr)
    } else {
        o
    }
}

/// The output shown under a report that could not be parsed: the error
/// output, or the standard output when the error output is blank.
pub fn unparsed_detail(stdout: &str, stderr: &str) -> (r: String)
    ensures
        trim_seq(stderr@).len() == 0 ==> r@ == stdout@,
        trim_seq(stderr@).len() > 0 ==> r@ == stderr@,
{
    if trim_str(stderr).as_str().is_empty() {
        stdout.to_owned()
    } else {
        stderr.to_owned()
    }
}

} // verus!
