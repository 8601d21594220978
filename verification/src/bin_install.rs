//! Putting the installed binary's directory on the user's `PATH`: the line
//! added to shell profiles, and the value of the Windows user `Path`.

use vstd::prelude::*;
use crate::text::{chars_of, contains_chars, contains_seq, push_str};

verus! {

/// The line that puts `bin_dir` in front of `PATH` in a shell profile.
pub open spec fn export_line_of(bin_dir: Seq<char>) -> Seq<char> {
    "export PATH=\""@ + bin_dir + ":$PATH\""@
}

/// The line that puts `bin_dir` in front of `PATH` in a shell profile.
pub fn export_line(bin_dir: &str) -> (r: String)
    ensures
        r@ == export_line_of(bin_dir@),
{
    let mut s = String::new();
    push_str(&mut s, "export PATH=\"");
    push_str(&mut s, bin_dir);
    push_str(&mut s, ":$PATH\"");
    s
}

/// What to append to a shell profile holding `content`: nothing when the
/// export line is already there, else the line on a line of its own.
pub fn profile_addition(content: &str, line: &str) -> (r: Option<String>)
    ensures
        contains_seq(content@, line@) ==> r is None,
        !contains_seq(content@, line@) ==> (r matches Some(a) && a@ == "\n"@ + line@ + "\n"@),
{
    let hay = chars_of(content);
    let needle = chars_of(line);
    if contains_chars(&hay, &needle, false) {
        None
    } else {
        let mut s = String::new();
        push_str(&mut s, "\n");
        push_str(&mut s, line);
        push_str(&mut s, "\n");
        Some(s)
    }
}

/// The new value of the Windows user `Path` holding `current`: nothing when
/// `bin_dir` already occurs in it, else `bin_dir` appended after a `;`
/// (alone when the value was empty).
pub fn windows_path_value(current: &str, bin_dir: &str) -> (r: Option<String>)
    ensures
        contains_seq(current@, bin_dir@) ==> r is None,
        !contains_seq(current@, bin_dir@) ==> (r matches Some(v) && v@ == if current@.len() == 0 {
            bin_dir@
        } else {
            current@ + ";"@ + bin_dir@
        }),
{
    let hay = chars_of(current);
    let needle = chars_of(bin_dir);
    if contains_chars(&hay, &needle, false) {
        None
    } else if hay.len() == 0 {
        let mut s = String::new();
        push_str(&mut s, bin_dir);
        Some(s)
    } else {
        let mut s = String::new();
        push_str(&mut s, current);
        push_str(&mut s, ";");
        push_str(&mut s, bin_dir);
        Some(s)
    }
}

} // verus!
