//! Registering the MCP server in the configuration files of coding agents:
//! the edits to a configuration document, with what they keep and change.

use vstd::prelude::*;
use crate::error::Error;
use crate::json::{
    Json, JsonV, config_document, json_parsed, parse_json, read_config, find_member, jv, json_eq, lemma_member_index, lemma_member_index_unique,
    lemma_object_view, lemma_set_member, lemma_without_member, member, member_index,
    members_view, remove_member, set_member, without_member,
};
use crate::text::{push_char, push_str};
use vstd::string::StringSliceAdditionalSpecFns;

verus! {

/// Whether an agent was found, and whether it already has the server configured.
#[derive(Debug, Clone, Copy, PartialEq, Eq, Structural)]
pub enum DetectStatus {
    NotFound,
    Found,
    AlreadyConfigured,
}

/// What an install or uninstall did: the files it wrote.
#[derive(Debug)]
pub enum InstallReport {
    Installed(Vec<String>),
    Unchanged,
    Updated(Vec<String>),
    Skipped(String),
}

/// Where and how to install.
#[derive(Debug)]
pub struct InstallOpts {
    /// Workspace root (for project-scoped installs).
    pub project_root: Option<String>,
    /// Install globally (in the user's home) rather than in the project.
    pub global: bool,
    /// Path of the `codegraph` binary (the MCP `command`).
    pub binary_path: String,
}

/// The name under which the server is registered.
pub open spec fn server_name() -> Seq<char> {
    "codegraph"@
}

/// Whether member `p` occurs in `ms`.
pub open spec fn holds_member(ms: Seq<(Seq<char>, JsonV)>, p: (Seq<char>, JsonV)) -> bool {
    exists|j: int| 0 <= j < ms.len() && ms[j] == p
}

/// Whether `e` is an object with exactly the members of `entry`, in any order.
pub open spec fn entry_matches(e: JsonV, entry: Seq<(Seq<char>, JsonV)>) -> bool {
    match e {
        JsonV::Object(ms) => {
            &&& ms.len() == entry.len()
            &&& forall|i: int| 0 <= i < entry.len() ==> holds_member(ms, #[trigger] entry[i])
        },
        _ => false,
    }
}

/// The members of an object, or `None` for any other value.
pub open spec fn object_members(v: JsonV) -> Option<Seq<(Seq<char>, JsonV)>> {
    match v {
        JsonV::Object(ms) => Some(ms),
        _ => None,
    }
}

/// The outcome of registering `entry` under `section` of a document:
/// `None` when the document, or its `section`, is not an object; else the new
/// document and whether it changed.
pub open spec fn install_spec(doc: JsonV, section: Seq<char>, entry: Seq<(Seq<char>, JsonV)>) -> Option<(JsonV, bool)> {
    match doc {
        JsonV::Object(ms) => {
            let servers = match member(ms, section) {
                None => Some(Seq::<(Seq<char>, JsonV)>::empty()),
                Some(v) => object_members(v),
            };
            match servers {
                None => None,
                Some(ss) => {
                    let present = member(ss, server_name());
                    if present is Some && entry_matches(present->0, entry) {
                        Some((doc, false))
                    } else {
                        Some(
                            (
                                JsonV::Object(
                                    set_member(
                                        ms,
                                        section,
                                        JsonV::Object(set_member(ss, server_name(), JsonV::Object(entry))),
                                    ),
                                ),
                                true,
                            ),
                        )
                    }
                },
            }
        },
        _ => None,
    }
}

/// The message of the error for a value that should have been an object.
pub open spec fn not_object_message(what: Seq<char>) -> Seq<char> {
    what + " not an object"@
}

/// The outcome of removing the server from `section` of a document: the new
/// document and whether it changed.
pub open spec fn uninstall_spec(doc: JsonV, section: Seq<char>) -> (JsonV, bool) {
    match doc {
        JsonV::Object(ms) => match member(ms, section) {
            Some(JsonV::Object(ss)) => if member(ss, server_name()) is Some {
                (
                    JsonV::Object(set_member(ms, section, JsonV::Object(without_member(ss, server_name())))),
                    true,
                )
            } else {
                (doc, false)
            },
            _ => (doc, false),
        },
        _ => (doc, false),
    }
}

/// Whether the document registers the server under `section`.
pub open spec fn configured_spec(doc: JsonV, section: Seq<char>) -> bool {
    match doc {
        JsonV::Object(ms) => match member(ms, section) {
            Some(JsonV::Object(ss)) => member(ss, server_name()) is Some,
            _ => false,
        },
        _ => false,
    }
}

fn entry_matches_exec(e: &Json, entry: &Vec<(String, Json)>) -> (r: bool)
    ensures
        r == entry_matches(e@, members_view(entry@)),
{
    match e {
        Json::Object(ms) => {
            proof {
                lemma_object_view(*ms);
            }
            let ghost mv = members_view(ms@);
            let ghost ev = members_view(entry@);
            assert(*e == Json::Object(*ms));
            assert(e@ == JsonV::Object(mv));
            if ms.len() != entry.len() {
                return false;
            }
            let mut i: usize = 0;
            while i < entry.len()
                invariant
                    mv == members_view(ms@),
                    ev == members_view(entry@),
                    e@ == JsonV::Object(mv),
                    ms.len() == entry.len(),
                    0 <= i <= entry.len(),
                    forall|k: int| 0 <= k < i ==> holds_member(mv, #[trigger] ev[k]),
                decreases entry.len() - i,
            {
                let mut j: usize = 0;
                let mut found = false;
                while j < ms.len()
                    invariant
                        mv == members_view(ms@),
                        ev == members_view(entry@),
                        e@ == JsonV::Object(mv),
                        0 <= i < entry.len(),
                        0 <= j <= ms.len(),
                        found ==> holds_member(mv, ev[i as int]),
                        !found ==> forall|j2: int| 0 <= j2 < j ==> #[trigger] mv[j2] != ev[i as int],
                    decreases ms.len() - j,
                {
                    if !found && crate::text::str_eq(ms[j].0.as_str(), entry[i].0.as_str()) && json_eq(
                        &ms[j].1,
                        &entry[i].1,
                    ) {
                        assert(mv[j as int] == ev[i as int]);
                        found = true;
                    } else if !found {
                        assert(mv[j as int] != ev[i as int]);
                    }
                    j = j + 1;
                }
                if !found {
                    assert(!entry_matches(e@, ev)) by {
                        if entry_matches(e@, ev) {
                            assert(holds_member(mv, ev[i as int]));
                            let j2 = choose|j2: int| 0 <= j2 < mv.len() && mv[j2] == ev[i as int];
                            assert(mv[j2] != ev[i as int]);
                        }
                    }
                    return false;
                }
                i = i + 1;
            }
            true
        },
        _ => false,
    }
}

fn not_object(what: &str) -> (e: Error)
    ensures
        e == Error::Invalid(e->Invalid_0) && e->Invalid_0@ == not_object_message(what@),
{
    let mut m = what.to_owned();
    push_str(&mut m, " not an object");
    Error::Invalid(m)
}

/// Registers the server entry under `section` of a configuration document,
/// keeping every other member. The document is unchanged, and so reported,
/// when it already holds the same entry. Fails when the document, or its
/// `section`, is not an object.
pub fn install_entry(doc: Json, doc_label: &str, section: &str, entry: Vec<(String, Json)>) -> (r: Result<(Json, bool), Error>)
    ensures
        match install_spec(doc@, section@, members_view(entry@)) {
            Some((d, changed)) => r is Ok && r->Ok_0.0@ == d && r->Ok_0.1 == changed,
            None => r is Err && r->Err_0 == Error::Invalid(r->Err_0->Invalid_0) && r->Err_0->Invalid_0@
                == not_object_message(
                if object_members(doc@) is None {
                    doc_label@
                } else {
                    section@
                },
            ),
        },
{
    let ghost dv = doc@;
    let ghost ev = members_view(entry@);
    match doc {
        Json::Object(mut ms) => {
            proof {
                lemma_object_view(ms);
            }
            let ghost mv = members_view(ms@);
            let si = find_member(&ms, section);
            proof {
                lemma_member_index(mv, section@);
            }
            if si < ms.len() {
                let (skey, sval) = ms.remove(si);
                proof {
                    assert(mv[si as int] == (skey@, jv(sval)));
                }
                match sval {
                    Json::Object(mut ss) => {
                        proof {
                            lemma_object_view(ss);
                        }
                        let ghost sv = members_view(ss@);
                        let ci = find_member(&ss, "codegraph");
                        proof {
                            lemma_member_index(sv, server_name());
                        }
                        if ci < ss.len() && entry_matches_exec(&ss[ci].1, &entry) {
                            let ghost rest = ms@;
                            ms.insert(si, (skey, Json::Object(ss)));
                            proof {
                                lemma_object_view(ms);
                                assert(members_view(ms@) =~= mv);
                            }
                            return Ok((Json::Object(ms), false));
                        }
                        let name = "codegraph".to_owned();
                        if ci < ss.len() {
                            ss.set(ci, (name, Json::Object(entry)));
                        } else {
                            ss.push((name, Json::Object(entry)));
                        }
                        proof {
                            lemma_object_view(entry);
                            lemma_object_view(ss);
                            assert(members_view(ss@) =~= set_member(sv, server_name(), JsonV::Object(ev)));
                        }
                        let ghost nsv = jv(Json::Object(ss));
                        ms.insert(si, (skey, Json::Object(ss)));
                        proof {
                            lemma_object_view(ms);
                            assert(members_view(ms@) =~= set_member(mv, section@, nsv));
                        }
                        Ok((Json::Object(ms), true))
                    },
                    _ => {
                        assert(object_members(mv[si as int].1) is None);
                        Err(not_object(section))
                    },
                }
            } else {
                let name = "codegraph".to_owned();
                let mut ss: Vec<(String, Json)> = Vec::new();
                ss.push((name, Json::Object(entry)));
                proof {
                    lemma_object_view(entry);
                    lemma_object_view(ss);
                    let e: Seq<(Seq<char>, JsonV)> = Seq::empty();
                    lemma_member_index(e, server_name());
                    assert(members_view(ss@) =~= set_member(e, server_name(), JsonV::Object(ev)));
                }
                let ghost nsv = jv(Json::Object(ss));
                ms.push((section.to_owned(), Json::Object(ss)));
                proof {
                    lemma_object_view(ms);
                    assert(members_view(ms@) =~= set_member(mv, section@, nsv));
                }
                Ok((Json::Object(ms), true))
            }
        },
        _ => {
            assert(object_members(dv) is None);
            Err(not_object(doc_label))
        },
    }
}

proof fn lemma_without_absent(ms: Seq<(Seq<char>, JsonV)>, k: Seq<char>)
    requires
        member(ms, k) is None,
    ensures
        without_member(ms, k) == ms,
    decreases ms.len(),
{
    lemma_member_index(ms, k);
    if ms.len() > 0 {
        let init = ms.drop_last();
        assert forall|j: int| 0 <= j < init.len() implies (#[trigger] init[j]).0 != k by {
            assert(init[j] == ms[j]);
        }
        lemma_member_index_unique(init, k, init.len() as int);
        lemma_without_absent(init, k);
        assert(ms.last().0 != k);
        assert(init.push(ms.last()) =~= ms);
    }
}

/// Removes the server from `section` of a configuration document, keeping
/// every other member; tells whether anything was removed.
pub fn uninstall_entry(doc: Json, section: &str) -> (r: (Json, bool))
    ensures
        r.0@ == uninstall_spec(doc@, section@).0,
        r.1 == uninstall_spec(doc@, section@).1,
{
    let ghost dv = doc@;
    match doc {
        Json::Object(mut ms) => {
            proof {
                lemma_object_view(ms);
            }
            let ghost mv = members_view(ms@);
            let si = find_member(&ms, section);
            proof {
                lemma_member_index(mv, section@);
            }
            if si < ms.len() {
                let (skey, sval) = ms.remove(si);
                proof {
                    assert(mv[si as int] == (skey@, jv(sval)));
                }
                match sval {
                    Json::Object(mut ss) => {
                        proof {
                            lemma_object_view(ss);
                        }
                        let ghost sv = members_view(ss@);
                        let removed = remove_member(&mut ss, "codegraph");
                        proof {
                            lemma_object_view(ss);
                            if !removed {
                                lemma_without_absent(sv, server_name());
                            }
                        }
                        let ghost nsv = jv(Json::Object(ss));
                        ms.insert(si, (skey, Json::Object(ss)));
                        proof {
                            lemma_object_view(ms);
                            assert(members_view(ms@) =~= set_member(mv, section@, nsv));
                            if !removed {
                                assert(members_view(ms@) =~= mv);
                            }
                        }
                        (Json::Object(ms), removed)
                    },
                    other => {
                        ms.insert(si, (skey, other));
                        proof {
                            lemma_object_view(ms);
                            assert(members_view(ms@) =~= mv);
                        }
                        (Json::Object(ms), false)
                    },
                }
            } else {
                (Json::Object(ms), false)
            }
        },
        other => (other, false),
    }
}

/// Whether the document registers the server under `section`
/// (the JSON pointer `/<section>/codegraph` exists).
pub fn is_configured(doc: &Json, section: &str) -> (r: bool)
    ensures
        r == configured_spec(doc@, section@),
{
    match doc {
        Json::Object(ms) => {
            proof {
                lemma_object_view(*ms);
                lemma_member_index(members_view(ms@), section@);
            }
            let si = find_member(ms, section);
            if si < ms.len() {
                match &ms[si].1 {
                    Json::Object(ss) => {
                        proof {
                            lemma_object_view(*ss);
                            lemma_member_index(members_view(ss@), server_name());
                        }
                        let ci = find_member(ss, "codegraph");
                        ci < ss.len()
                    },
                    _ => false,
                }
            } else {
                false
            }
        },
        _ => false,
    }
}

/// The status of an agent that is present, from its configuration document
/// (`None` when it is missing or unreadable).
pub fn config_status(doc: Option<&Json>, section: &str) -> (r: DetectStatus)
    ensures
        r == match doc {
            Some(d) => if configured_spec(d@, section@) {
                DetectStatus::AlreadyConfigured
            } else {
                DetectStatus::Found
            },
            None => DetectStatus::Found,
        },
{
    match doc {
        Some(d) => if is_configured(d, section) {
            DetectStatus::AlreadyConfigured
        } else {
            DetectStatus::Found
        },
        None => DetectStatus::Found,
    }
}

/// The report of an install that wrote `written`.
pub fn install_report(written: Vec<String>) -> (r: InstallReport)
    ensures
        written@.len() == 0 ==> r is Unchanged,
        written@.len() > 0 ==> r == InstallReport::Installed(written),
{
    if written.len() == 0 {
        InstallReport::Unchanged
    } else {
        InstallReport::Installed(written)
    }
}

/// The report of an uninstall that rewrote `removed`.
pub fn uninstall_report(removed: Vec<String>) -> (r: InstallReport)
    ensures
        removed@.len() == 0 ==> r is Unchanged,
        removed@.len() > 0 ==> r == InstallReport::Updated(removed),
{
    if removed.len() == 0 {
        InstallReport::Unchanged
    } else {
        InstallReport::Updated(removed)
    }
}

/// The document after an install, where it succeeds.
pub open spec fn installed_doc(doc: JsonV, section: Seq<char>, entry: Seq<(Seq<char>, JsonV)>) -> JsonV {
    match install_spec(doc, section, entry) {
        Some((d, _)) => d,
        None => doc,
    }
}

/// The members of `section` in a document: those of its object value, or none.
pub open spec fn section_members(doc: JsonV, section: Seq<char>) -> Seq<(Seq<char>, JsonV)> {
    match doc {
        JsonV::Object(ms) => match member(ms, section) {
            Some(JsonV::Object(ss)) => ss,
            _ => Seq::empty(),
        },
        _ => Seq::empty(),
    }
}

proof fn lemma_entry_matches_itself(entry: Seq<(Seq<char>, JsonV)>)
    ensures
        entry_matches(JsonV::Object(entry), entry),
{
    assert forall|i: int| 0 <= i < entry.len() implies holds_member(entry, #[trigger] entry[i]) by {
        assert(entry[i] == entry[i]);
    }
}

/// Installing twice changes nothing the second time: once the entry is
/// registered, installing it again leaves the document as it is and reports
/// no change, and the document counts as configured.
pub proof fn lemma_install_idempotent(doc: JsonV, section: Seq<char>, entry: Seq<(Seq<char>, JsonV)>)
    requires
        install_spec(doc, section, entry) is Some,
    ensures
        install_spec(installed_doc(doc, section, entry), section, entry)
            == Some((installed_doc(doc, section, entry), false)),
        configured_spec(installed_doc(doc, section, entry), section),
{
    let (d1, changed) = install_spec(doc, section, entry)->0;
    let ms = object_members(doc)->0;
    let ss = match member(ms, section) {
        None => Seq::<(Seq<char>, JsonV)>::empty(),
        Some(v) => object_members(v)->0,
    };
    lemma_entry_matches_itself(entry);
    if changed {
        let ss1 = set_member(ss, server_name(), JsonV::Object(entry));
        let ms1 = set_member(ms, section, JsonV::Object(ss1));
        lemma_set_member(ms, section, JsonV::Object(ss1));
        lemma_set_member(ss, server_name(), JsonV::Object(entry));
        assert(d1 == JsonV::Object(ms1));
        assert(member(ms1, section) == Some(JsonV::Object(ss1)));
        assert(member(ss1, server_name()) == Some(JsonV::Object(entry)));
    } else {
        assert(d1 == doc);
    }
}

/// Uninstalling after an install removes the entry: the uninstall reports a
/// change, and the document no longer counts as configured.
pub proof fn lemma_uninstall_after_install(doc: JsonV, section: Seq<char>, entry: Seq<(Seq<char>, JsonV)>)
    requires
        install_spec(doc, section, entry) is Some,
    ensures
        uninstall_spec(installed_doc(doc, section, entry), section).1,
        !configured_spec(uninstall_spec(installed_doc(doc, section, entry), section).0, section),
{
    lemma_install_idempotent(doc, section, entry);
    let d1 = installed_doc(doc, section, entry);
    let ms1 = object_members(d1)->0;
    let ss1 = object_members(member(ms1, section)->0)->0;
    let w = without_member(ss1, server_name());
    lemma_without_member(ss1, server_name());
    lemma_set_member(ms1, section, JsonV::Object(w));
}

/// An install keeps every other member of the document, and every other
/// server registered under `section`.
pub proof fn lemma_install_keeps_siblings(doc: JsonV, section: Seq<char>, entry: Seq<(Seq<char>, JsonV)>)
    requires
        install_spec(doc, section, entry) is Some,
    ensures
        forall|k: Seq<char>|
            k != section ==> #[trigger] member(object_members(installed_doc(doc, section, entry))->0, k)
                == member(object_members(doc)->0, k),
        forall|k: Seq<char>|
            k != server_name() ==> #[trigger] member(
                section_members(installed_doc(doc, section, entry), section),
                k,
            ) == member(section_members(doc, section), k),
{
    let (d1, changed) = install_spec(doc, section, entry)->0;
    let ms = object_members(doc)->0;
    let ss = match member(ms, section) {
        None => Seq::<(Seq<char>, JsonV)>::empty(),
        Some(v) => object_members(v)->0,
    };
    assert(section_members(doc, section) == ss);
    if changed {
        let ss1 = set_member(ss, server_name(), JsonV::Object(entry));
        let ms1 = set_member(ms, section, JsonV::Object(ss1));
        lemma_set_member(ms, section, JsonV::Object(ss1));
        lemma_set_member(ss, server_name(), JsonV::Object(entry));
        assert(section_members(d1, section) == ss1);
    }
}

/// Uninstalling twice is uninstalling once: after an uninstall the server is
/// no longer configured, and a second uninstall leaves the document as it is.
pub proof fn lemma_uninstall_idempotent(doc: JsonV, section: Seq<char>)
    ensures
        !configured_spec(uninstall_spec(doc, section).0, section),
        uninstall_spec(uninstall_spec(doc, section).0, section) == (uninstall_spec(doc, section).0, false),
{
    let (d1, changed) = uninstall_spec(doc, section);
    if changed {
        let ms = object_members(doc)->0;
        let ss = object_members(member(ms, section)->0)->0;
        let w = without_member(ss, server_name());
        lemma_without_member(ss, server_name());
        lemma_set_member(ms, section, JsonV::Object(w));
    }
}

/// An uninstall keeps every other member of the document, and every other
/// server registered under `section`.
pub proof fn lemma_uninstall_keeps_siblings(doc: JsonV, section: Seq<char>)
    ensures
        forall|k: Seq<char>|
            k != section ==> #[trigger] member(object_members(uninstall_spec(doc, section).0)->0, k)
                == member(object_members(doc)->0, k),
        forall|k: Seq<char>|
            k != server_name() ==> #[trigger] member(section_members(uninstall_spec(doc, section).0, section), k)
                == member(section_members(doc, section), k),
{
    let (d1, changed) = uninstall_spec(doc, section);
    if changed {
        let ms = object_members(doc)->0;
        let ss = object_members(member(ms, section)->0)->0;
        let w = without_member(ss, server_name());
        lemma_set_member(ms, section, JsonV::Object(w));
        lemma_without_member(ss, server_name());
        assert(section_members(d1, section) == w);
    }
}

/// The first index from `i` on that holds a newline, or the length.
pub open spec fn next_newline(b: Seq<char>, i: int) -> int
    decreases b.len() - i,
{
    if i < 0 || i >= b.len() {
        b.len() as int
    } else if b[i] == '\n' {
        i
    } else {
        next_newline(b, i + 1)
    }
}

/// Where a block comment whose text starts at `k` ends: just past the first
/// `*/`, or at the end of the input.
pub open spec fn block_end(b: Seq<char>, k: int) -> int
    decreases b.len() - k,
{
    if k < 0 {
        b.len() as int
    } else if k + 1 < b.len() {
        if b[k] == '*' && b[k + 1] == '/' {
            k + 2
        } else {
            block_end(b, k + 1)
        }
    } else if k + 2 < b.len() {
        k + 2
    } else {
        b.len() as int
    }
}

/// What comment stripping emits for the characters from `i` on, inside a
/// string or not, after a backslash in a string or not. Characters outside
/// comments are kept unchanged.
pub open spec fn strip_from(b: Seq<char>, i: int, in_str: bool, escape: bool) -> Seq<char>
    decreases b.len() - i,
{
    if i < 0 || i >= b.len() {
        Seq::empty()
    } else {
        let c = b[i];
        if in_str {
            if escape {
                seq![c] + strip_from(b, i + 1, true, false)
            } else if c == '\\' {
                seq![c] + strip_from(b, i + 1, true, true)
            } else if c == '"' {
                seq![c] + strip_from(b, i + 1, false, false)
            } else {
                seq![c] + strip_from(b, i + 1, true, false)
            }
        } else if c == '"' {
            seq!['"'] + strip_from(b, i + 1, true, escape)
        } else if c == '/' && i + 1 < b.len() && b[i + 1] == '/' {
            let k = next_newline(b, i);
            if i < k <= b.len() {
                strip_from(b, k, false, escape)
            } else {
                Seq::empty()
            }
        } else if c == '/' && i + 1 < b.len() && b[i + 1] == '*' {
            let k = block_end(b, i + 2);
            if i < k <= b.len() {
                strip_from(b, k, false, escape)
            } else {
                Seq::empty()
            }
        } else {
            seq![c] + strip_from(b, i + 1, false, escape)
        }
    }
}

proof fn lemma_next_newline(b: Seq<char>, i: int)
    requires
        0 <= i <= b.len(),
    ensures
        i <= next_newline(b, i) <= b.len(),
    decreases b.len() - i,
{
    if i < b.len() && b[i] != '\n' {
        lemma_next_newline(b, i + 1);
    }
}

proof fn lemma_block_end(b: Seq<char>, k: int)
    requires
        0 <= k <= b.len(),
    ensures
        k <= block_end(b, k) <= b.len(),
    decreases b.len() - k,
{
    if k + 1 < b.len() && !(b[k] == '*' && b[k + 1] == '/') {
        lemma_block_end(b, k + 1);
    }
}

/// Installing twice writes nothing the second time: once the document holds
/// the server and the instructions file holds the wanted text, an install
/// plans no write.
pub proof fn lemma_install_twice_writes_nothing(
    config: Seq<char>,
    doc: JsonV,
    section: Seq<char>,
    entry: Seq<(Seq<char>, JsonV)>,
    instructions: Option<Seq<char>>,
    want: Seq<char>,
)
    requires
        install_spec(doc, section, entry) is Some,
    ensures
        install_writes(
            config,
            install_spec(installed_doc(doc, section, entry), section, entry)->0,
            instructions,
            Some(want),
            want,
        ) == Seq::<(Seq<char>, ContentV)>::empty(),
{
    lemma_install_idempotent(doc, section, entry);
    assert(Seq::<(Seq<char>, ContentV)>::empty() + Seq::<(Seq<char>, ContentV)>::empty()
        =~= Seq::<(Seq<char>, ContentV)>::empty());
}

proof fn lemma_newline_shift(x: Seq<char>, m: int, j: int)
    requires
        0 <= m <= j,
        m <= x.len(),
    ensures
        next_newline(x, j) == next_newline(x.subrange(m, x.len() as int), j - m) + m,
    decreases x.len() - j,
{
    let y = x.subrange(m, x.len() as int);
    if j < x.len() && x[j] != '\n' {
        assert(y[j - m] == x[j]);
        lemma_newline_shift(x, m, j + 1);
    } else if j < x.len() {
        assert(y[j - m] == x[j]);
    }
}

proof fn lemma_block_end_shift(x: Seq<char>, m: int, k: int)
    requires
        0 <= m <= k,
        m <= x.len(),
    ensures
        block_end(x, k) == block_end(x.subrange(m, x.len() as int), k - m) + m,
    decreases x.len() - k,
{
    let y = x.subrange(m, x.len() as int);
    if k + 1 < x.len() {
        assert(y[k - m] == x[k] && y[k - m + 1] == x[k + 1]);
        if !(x[k] == '*' && x[k + 1] == '/') {
            lemma_block_end_shift(x, m, k + 1);
        }
    }
}

/// Stripping from position `j` does not look before `j`.
proof fn lemma_strip_shift(x: Seq<char>, m: int, j: int, in_str: bool, escape: bool)
    requires
        0 <= m <= j,
        m <= x.len(),
    ensures
        strip_from(x, j, in_str, escape) == strip_from(x.subrange(m, x.len() as int), j - m, in_str, escape),
    decreases x.len() - j,
{
    let y = x.subrange(m, x.len() as int);
    if j < x.len() {
        let c = x[j];
        assert(y[j - m] == c);
        if j + 1 < x.len() {
            assert(y[j - m + 1] == x[j + 1]);
        }
        if in_str {
            lemma_strip_shift(x, m, j + 1, true, false);
            lemma_strip_shift(x, m, j + 1, true, true);
            lemma_strip_shift(x, m, j + 1, false, false);
        } else if c == '"' {
            lemma_strip_shift(x, m, j + 1, true, escape);
        } else if c == '/' && j + 1 < x.len() && x[j + 1] == '/' {
            lemma_next_newline(x, j);
            lemma_newline_shift(x, m, j);
            let k = next_newline(x, j);
            if j < k {
                lemma_strip_shift(x, m, k, false, escape);
            }
        } else if c == '/' && j + 1 < x.len() && x[j + 1] == '*' {
            lemma_block_end(x, j + 2);
            lemma_block_end_shift(x, m, j + 2);
            let k = block_end(x, j + 2);
            if j < k {
                lemma_strip_shift(x, m, k, false, escape);
            }
        } else {
            lemma_strip_shift(x, m, j + 1, false, escape);
        }
    }
}

/// Outside a string, a character other than `/` is emitted as it is.
proof fn lemma_strip_first(x: Seq<char>, i: int, escape: bool)
    requires
        0 <= i < x.len(),
        x[i] != '/',
    ensures
        strip_from(x, i, false, escape).len() > 0,
        strip_from(x, i, false, escape)[0] == x[i],
{
}

/// The output of stripping, stripped again from the same state, is itself.
proof fn lemma_strip_output_stable(b: Seq<char>, i: int, in_str: bool, escape: bool)
    requires
        0 <= i,
    ensures
        strip_from(strip_from(b, i, in_str, escape), 0, in_str, escape) == strip_from(b, i, in_str, escape),
    decreases b.len() - i,
{
    let r = strip_from(b, i, in_str, escape);
    if i < b.len() {
        let c = b[i];
        if in_str {
            let (s2, e2) = if escape {
                (true, false)
            } else if c == '\\' {
                (true, true)
            } else if c == '"' {
                (false, false)
            } else {
                (true, false)
            };
            let r1 = strip_from(b, i + 1, s2, e2);
            assert(r == seq![c] + r1);
            lemma_strip_output_stable(b, i + 1, s2, e2);
            lemma_strip_shift(r, 1, 1, s2, e2);
            assert(r.subrange(1, r.len() as int) =~= r1);
        } else if c == '"' {
            let r1 = strip_from(b, i + 1, true, escape);
            assert(r == seq!['"'] + r1);
            lemma_strip_output_stable(b, i + 1, true, escape);
            lemma_strip_shift(r, 1, 1, true, escape);
            assert(r.subrange(1, r.len() as int) =~= r1);
        } else if c == '/' && i + 1 < b.len() && b[i + 1] == '/' {
            lemma_next_newline(b, i);
            let k = next_newline(b, i);
            if i < k {
                lemma_strip_output_stable(b, k, false, escape);
            }
        } else if c == '/' && i + 1 < b.len() && b[i + 1] == '*' {
            lemma_block_end(b, i + 2);
            let k = block_end(b, i + 2);
            if i < k {
                lemma_strip_output_stable(b, k, false, escape);
            }
        } else {
            let r1 = strip_from(b, i + 1, false, escape);
            assert(r == seq![c] + r1);
            lemma_strip_output_stable(b, i + 1, false, escape);
            lemma_strip_shift(r, 1, 1, false, escape);
            assert(r.subrange(1, r.len() as int) =~= r1);
            if c == '/' && i + 1 < b.len() {
                lemma_strip_first(b, i + 1, escape);
                assert(r[1] == b[i + 1]);
            }
        }
    }
}

/// Stripping comments twice is stripping them once.
pub proof fn lemma_strip_jsonc_idempotent(text: Seq<char>)
    ensures
        strip_from(strip_from(text, 0, false, false), 0, false, false) == strip_from(text, 0, false, false),
{
    lemma_strip_output_stable(text, 0, false, false);
}

/// Whether `a` is a subsequence of `b`: `b` with some characters left out.
pub open spec fn is_subsequence(a: Seq<char>, b: Seq<char>) -> bool
    decreases b.len(),
{
    if a.len() == 0 {
        true
    } else if b.len() == 0 {
        false
    } else if a[0] == b[0] {
        is_subsequence(a.drop_first(), b.drop_first())
    } else {
        is_subsequence(a, b.drop_first())
    }
}

proof fn lemma_subsequence_shorter(a: Seq<char>, b: Seq<char>)
    requires
        a.len() > 0,
        is_subsequence(a, b),
    ensures
        is_subsequence(a.drop_first(), b),
    decreases b.len(),
{
    if a.len() > 1 && b.len() > 0 {
        let a1 = a.drop_first();
        let b1 = b.drop_first();
        if a[0] != b[0] {
            lemma_subsequence_shorter(a, b1);
        }
        lemma_subsequence_shorter(a1, b1);
        assert(a1.drop_first() =~= a.subrange(2, a.len() as int));
    }
}

/// A subsequence of `b` from `k` on is one of `b` from `i <= k` on.
proof fn lemma_subsequence_widen(a: Seq<char>, b: Seq<char>, i: int, k: int)
    requires
        0 <= i <= k <= b.len(),
        is_subsequence(a, b.subrange(k, b.len() as int)),
    ensures
        is_subsequence(a, b.subrange(i, b.len() as int)),
    decreases k - i,
{
    if i < k {
        lemma_subsequence_widen(a, b, i + 1, k);
        let w = b.subrange(i, b.len() as int);
        assert(w.drop_first() =~= b.subrange(i + 1, b.len() as int));
        if a.len() > 0 && a[0] == w[0] {
            lemma_subsequence_shorter(a, w.drop_first());
        }
    }
}

/// What stripping emits from `i` on is a subsequence of the input from `i` on.
proof fn lemma_strip_subsequence(b: Seq<char>, i: int, in_str: bool, escape: bool)
    requires
        0 <= i <= b.len(),
    ensures
        is_subsequence(strip_from(b, i, in_str, escape), b.subrange(i, b.len() as int)),
    decreases b.len() - i,
{
    if i < b.len() {
        let c = b[i];
        let w = b.subrange(i, b.len() as int);
        assert(w.drop_first() =~= b.subrange(i + 1, b.len() as int));
        let (kept, s2, e2) = if in_str {
            if escape {
                (true, true, false)
            } else if c == '\\' {
                (true, true, true)
            } else if c == '"' {
                (true, false, false)
            } else {
                (true, true, false)
            }
        } else if c == '"' {
            (true, true, escape)
        } else if c == '/' && i + 1 < b.len() && b[i + 1] == '/' {
            (false, false, escape)
        } else if c == '/' && i + 1 < b.len() && b[i + 1] == '*' {
            (false, false, escape)
        } else {
            (true, false, escape)
        };
        if kept {
            lemma_strip_subsequence(b, i + 1, s2, e2);
            let r = strip_from(b, i, in_str, escape);
            assert(r == seq![c] + strip_from(b, i + 1, s2, e2));
            assert(r.drop_first() =~= strip_from(b, i + 1, s2, e2));
        } else if b[i + 1] == '/' {
            lemma_next_newline(b, i);
            let k = next_newline(b, i);
            if i < k {
                lemma_strip_subsequence(b, k, false, escape);
                lemma_subsequence_widen(strip_from(b, k, false, escape), b, i, k);
            }
        } else {
            lemma_block_end(b, i + 2);
            let k = block_end(b, i + 2);
            if i < k {
                lemma_strip_subsequence(b, k, false, escape);
                lemma_subsequence_widen(strip_from(b, k, false, escape), b, i, k);
            }
        }
    }
}

/// Stripping comments only leaves characters out: its output is a
/// subsequence of its input.
pub proof fn lemma_strip_jsonc_subsequence(text: Seq<char>)
    ensures
        is_subsequence(strip_from(text, 0, false, false), text),
{
    lemma_strip_subsequence(text, 0, false, false);
    assert(text.subrange(0, text.len() as int) =~= text);
}

/// Whether no `//` or `/*` starts outside a string literal from `i` on
/// (strings delimited by unescaped `"`), scanning as comment stripping does.
pub open spec fn comment_free_from(b: Seq<char>, i: int, in_str: bool, escape: bool) -> bool
    decreases b.len() - i,
{
    if i < 0 || i >= b.len() {
        true
    } else {
        let c = b[i];
        if in_str {
            if escape {
                comment_free_from(b, i + 1, true, false)
            } else if c == '\\' {
                comment_free_from(b, i + 1, true, true)
            } else if c == '"' {
                comment_free_from(b, i + 1, false, false)
            } else {
                comment_free_from(b, i + 1, true, false)
            }
        } else if c == '"' {
            comment_free_from(b, i + 1, true, escape)
        } else if c == '/' && i + 1 < b.len() && (b[i + 1] == '/' || b[i + 1] == '*') {
            false
        } else {
            comment_free_from(b, i + 1, false, escape)
        }
    }
}

proof fn lemma_strip_comment_free(b: Seq<char>, i: int, in_str: bool, escape: bool)
    requires
        0 <= i <= b.len(),
        comment_free_from(b, i, in_str, escape),
    ensures
        strip_from(b, i, in_str, escape) == b.subrange(i, b.len() as int),
    decreases b.len() - i,
{
    if i < b.len() {
        let c = b[i];
        let (s2, e2) = if in_str {
            if escape {
                (true, false)
            } else if c == '\\' {
                (true, true)
            } else if c == '"' {
                (false, false)
            } else {
                (true, false)
            }
        } else if c == '"' {
            (true, escape)
        } else {
            (false, escape)
        };
        lemma_strip_comment_free(b, i + 1, s2, e2);
        assert(b.subrange(i, b.len() as int) =~= seq![c] + b.subrange(i + 1, b.len() as int));
    } else {
        assert(b.subrange(i, b.len() as int) =~= Seq::<char>::empty());
    }
}

/// Text with no comment outside its string literals comes out of comment
/// stripping unchanged.
pub proof fn lemma_strip_jsonc_keeps_comment_free(text: Seq<char>)
    requires
        comment_free_from(text, 0, false, false),
    ensures
        strip_from(text, 0, false, false) == text,
{
    lemma_strip_comment_free(text, 0, false, false);
    assert(text.subrange(0, text.len() as int) =~= text);
}

/// Removes `//` line comments and `/* */` block comments from JSONC text,
/// leaving string literals and every other character alone.
pub fn strip_jsonc_comments(text: &str) -> (r: String)
    ensures
        r@ == strip_from(text@, 0, false, false),
{
    let cs = crate::text::chars_of(text);
    let ghost b = cs@;
    let n = cs.len();
    let mut out = String::new();
    let mut i: usize = 0;
    let mut in_str = false;
    let mut escape = false;
    while i < n
        invariant
            b == cs@,
            n == b.len(),
            0 <= i <= n,
            out@ + strip_from(b, i as int, in_str, escape) == strip_from(b, 0, false, false),
        decreases n - i,
    {
        let c = cs[i];
        let ghost before = out@;
        let ghost rest = strip_from(b, i as int, in_str, escape);
        if in_str {
            push_char(&mut out, c);
            if escape {
                escape = false;
            } else if c == '\\' {
                escape = true;
            } else if c == '"' {
                in_str = false;
            }
            proof {
                assert(rest == seq![c] + strip_from(b, i + 1, in_str, escape));
                assert(out@ + strip_from(b, i + 1, in_str, escape) =~= before + rest);
            }
            i = i + 1;
            continue;
        }
        if c == '"' {
            in_str = true;
            push_char(&mut out, '"');
            proof {
                assert(out@ + strip_from(b, i + 1, in_str, escape) =~= before + rest);
            }
            i = i + 1;
            continue;
        }
        if c == '/' && i + 1 < n {
            if cs[i + 1] == '/' {
                let ghost target = next_newline(b, i as int);
                proof {
                    lemma_next_newline(b, i as int);
                    lemma_next_newline(b, i + 1);
                    assert(rest == strip_from(b, target, false, escape));
                }
                while i < n && cs[i] != '\n'
                    invariant
                        b == cs@,
                        n == b.len(),
                        0 <= i <= n,
                        next_newline(b, i as int) == target,
                    decreases n - i,
                {
                    i = i + 1;
                }
                assert(i as int == target);
                continue;
            }
            if cs[i + 1] == '*' {
                proof {
                    lemma_block_end(b, i + 2);
                    assert(rest == strip_from(b, block_end(b, i + 2), false, escape));
                }
                i = i + 2;
                let ghost target = block_end(b, i as int);
                while n > 0 && i < n - 1 && !(cs[i] == '*' && cs[i + 1] == '/')
                    invariant
                        b == cs@,
                        n == b.len(),
                        0 <= i <= n,
                        block_end(b, i as int) == target,
                    decreases n - i,
                {
                    i = i + 1;
                }
                i = if n >= 2 && i < n - 2 { i + 2 } else { n };
                assert(i as int == target);
                continue;
            }
        }
        push_char(&mut out, c);
        proof {
            assert(out@ + strip_from(b, i + 1, in_str, escape) =~= before + rest);
        }
        i = i + 1;
    }
    out
}

/// The first position from `i` on that holds a `{` outside string literals
/// and comments, scanning as comment stripping does; the length where there
/// is none.
pub open spec fn brace_from(b: Seq<char>, i: int, in_str: bool, escape: bool) -> int
    decreases b.len() - i,
{
    if i < 0 || i >= b.len() {
        b.len() as int
    } else {
        let c = b[i];
        if in_str {
            if escape {
                brace_from(b, i + 1, true, false)
            } else if c == '\\' {
                brace_from(b, i + 1, true, true)
            } else if c == '"' {
                brace_from(b, i + 1, false, false)
            } else {
                brace_from(b, i + 1, true, false)
            }
        } else if c == '"' {
            brace_from(b, i + 1, true, escape)
        } else if c == '/' && i + 1 < b.len() && b[i + 1] == '/' {
            let k = next_newline(b, i);
            if i < k <= b.len() {
                brace_from(b, k, false, escape)
            } else {
                b.len() as int
            }
        } else if c == '/' && i + 1 < b.len() && b[i + 1] == '*' {
            let k = block_end(b, i + 2);
            if i < k <= b.len() {
                brace_from(b, k, false, escape)
            } else {
                b.len() as int
            }
        } else if c == '{' {
            i
        } else {
            brace_from(b, i + 1, false, escape)
        }
    }
}

/// The position of the first `{` of a JSONC text outside strings and
/// comments: where its top-level object opens.
pub open spec fn first_brace(b: Seq<char>) -> int {
    brace_from(b, 0, false, false)
}

proof fn lemma_brace_from(b: Seq<char>, i: int, in_str: bool, escape: bool)
    requires
        0 <= i <= b.len(),
    ensures
        i <= brace_from(b, i, in_str, escape) <= b.len(),
        brace_from(b, i, in_str, escape) < b.len() ==> b[brace_from(b, i, in_str, escape)] == '{',
    decreases b.len() - i,
{
    if i < b.len() {
        let c = b[i];
        if in_str {
            lemma_brace_from(b, i + 1, true, false);
            lemma_brace_from(b, i + 1, true, true);
            lemma_brace_from(b, i + 1, false, false);
        } else if c == '"' {
            lemma_brace_from(b, i + 1, true, escape);
        } else if c == '/' && i + 1 < b.len() && b[i + 1] == '/' {
            lemma_next_newline(b, i);
            let k = next_newline(b, i);
            if i < k {
                lemma_brace_from(b, k, false, escape);
            }
        } else if c == '/' && i + 1 < b.len() && b[i + 1] == '*' {
            lemma_block_end(b, i + 2);
            let k = block_end(b, i + 2);
            if i < k {
                lemma_brace_from(b, k, false, escape);
            }
        } else if c != '{' {
            lemma_brace_from(b, i + 1, false, escape);
        }
    }
}

/// Where the top-level object of a JSONC text opens: the first `{` outside
/// strings and comments, if there is one.
pub fn find_first_brace(text: &str) -> (r: Option<usize>)
    ensures
        match r {
            Some(i) => i == first_brace(text@) && i < text@.len() && text@[i as int] == '{',
            None => first_brace(text@) == text@.len(),
        },
        text@.len() <= usize::MAX,
{
    let cs = crate::text::chars_of(text);
    let ghost b = cs@;
    let n = cs.len();
    let mut i: usize = 0;
    let mut in_str = false;
    let mut escape = false;
    proof {
        lemma_brace_from(b, 0, false, false);
    }
    while i < n
        invariant
            b == cs@,
            b == text@,
            n == b.len(),
            0 <= i <= n,
            brace_from(b, i as int, in_str, escape) == first_brace(b),
        decreases n - i,
    {
        let c = cs[i];
        if in_str {
            if escape {
                escape = false;
            } else if c == '\\' {
                escape = true;
            } else if c == '"' {
                in_str = false;
            }
            i = i + 1;
            continue;
        }
        if c == '"' {
            in_str = true;
            i = i + 1;
            continue;
        }
        if c == '{' {
            return Some(i);
        }
        if c == '/' && i + 1 < n {
            if cs[i + 1] == '/' {
                let ghost target = next_newline(b, i as int);
                proof {
                    lemma_next_newline(b, i as int);
                    lemma_next_newline(b, i + 1);
                }
                while i < n && cs[i] != '\n'
                    invariant
                        b == cs@,
                        n == b.len(),
                        0 <= i <= n,
                        next_newline(b, i as int) == target,
                    decreases n - i,
                {
                    i = i + 1;
                }
                assert(i as int == target);
                continue;
            }
            if cs[i + 1] == '*' {
                proof {
                    lemma_block_end(b, i + 2);
                }
                i = i + 2;
                let ghost target = block_end(b, i as int);
                while n > 0 && i < n - 1 && !(cs[i] == '*' && cs[i + 1] == '/')
                    invariant
                        b == cs@,
                        n == b.len(),
                        0 <= i <= n,
                        block_end(b, i as int) == target,
                    decreases n - i,
                {
                    i = i + 1;
                }
                i = if n >= 2 && i < n - 2 { i + 2 } else { n };
                assert(i as int == target);
                continue;
            }
        }
        i = i + 1;
    }
    None
}

/// The path `part` adjoined to `base`, as `camino::Utf8Path::join` forms it.
pub uninterp spec fn path_joined(base: Seq<char>, part: Seq<char>) -> Seq<char>;

/// `camino::Utf8Path::join`: `part` adjoined to `base`; a function of the two
/// texts alone.
#[verifier::external_body]
fn join_path(base: &str, part: &str) -> (r: String)
    ensures
        r@ == path_joined(base@, part@),
{
    camino::Utf8Path::new(base).join(part).into_string()
}

/// `base`, then each part adjoined in turn.
pub open spec fn joined(base: Seq<char>, parts: Seq<Seq<char>>) -> Seq<char>
    decreases parts.len(),
{
    if parts.len() == 0 {
        base
    } else {
        path_joined(joined(base, parts.drop_last()), parts.last())
    }
}

fn join2(base: &str, a: &str, b: &str) -> (r: String)
    ensures
        r@ == joined(base@, seq![a@, b@]),
{
    let x = join_path(base, a);
    proof {
        assert(seq![a@, b@].drop_last() =~= seq![a@]);
        assert(seq![a@].drop_last() =~= Seq::<Seq<char>>::empty());
        reveal_with_fuel(joined, 3);
    }
    join_path(x.as_str(), b)
}

fn join3(base: &str, a: &str, b: &str, c: &str) -> (r: String)
    ensures
        r@ == joined(base@, seq![a@, b@, c@]),
{
    let x = join2(base, a, b);
    proof {
        assert(seq![a@, b@, c@].drop_last() =~= seq![a@, b@]);
        reveal_with_fuel(joined, 2);
    }
    join_path(x.as_str(), c)
}

pub open spec fn opt_str_view(o: Option<&str>) -> Option<Seq<char>> {
    match o {
        None => None,
        Some(s) => Some(s@),
    }
}

pub open spec fn opt_string_view(o: Option<String>) -> Option<Seq<char>> {
    match o {
        None => None,
        Some(s) => Some(s@),
    }
}

/// `parts` under `base`, where there is a base.
pub open spec fn under(base: Option<Seq<char>>, parts: Seq<Seq<char>>) -> Option<Seq<char>> {
    match base {
        None => None,
        Some(b) => Some(joined(b, parts)),
    }
}

/// The directory of a scoped install: the home (or configuration) directory
/// for a global install, the project root otherwise.
pub open spec fn scope_base(opts: InstallOpts, home: Option<Seq<char>>) -> Option<Seq<char>> {
    if opts.global {
        home
    } else {
        opt_string_view(opts.project_root)
    }
}

fn string_json(s: &str) -> (j: Json)
    ensures
        j@ == JsonV::Str(s@),
{
    Json::Str(s.to_owned())
}

/// The arguments that start the MCP server, with `--path <root>` for a
/// project install.
pub open spec fn serve_args(opts: InstallOpts) -> Seq<JsonV> {
    seq![JsonV::Str("serve"@), JsonV::Str("--mcp"@)] + match opts.project_root {
        Some(r) => seq![JsonV::Str("--path"@), JsonV::Str(r@)],
        None => Seq::empty(),
    }
}

fn strings_json(prefix: Vec<Json>, opts: &InstallOpts) -> (j: Json)
    ensures
        j@ == JsonV::Array(crate::json::values_view(prefix@) + serve_args(*opts)),
{
    let mut v = prefix;
    let ghost p = crate::json::values_view(v@);
    v.push(string_json("serve"));
    v.push(string_json("--mcp"));
    match &opts.project_root {
        Some(r) => {
            v.push(string_json("--path"));
            v.push(string_json(r.as_str()));
        },
        None => {},
    }
    proof {
        crate::json::lemma_array_view(v);
        assert(crate::json::values_view(v@) =~= p + serve_args(*opts));
    }
    Json::Array(v)
}

fn join1(base: &str, a: &str) -> (r: String)
    ensures
        r@ == joined(base@, seq![a@]),
{
    proof {
        assert(seq![a@].drop_last() =~= Seq::<Seq<char>>::empty());
        reveal_with_fuel(joined, 2);
    }
    join_path(base, a)
}

fn base_of<'a>(opts: &'a InstallOpts, home: Option<&'a str>) -> (r: Option<&'a str>)
    ensures
        opt_str_view(r) == scope_base(*opts, opt_str_view(home)),
{
    if opts.global {
        home
    } else {
        match &opts.project_root {
            Some(root) => Some(root.as_str()),
            None => None,
        }
    }
}

/// The members of the MCP entry that starts the server with `args`.
pub open spec fn command_entry(opts: InstallOpts, args: Seq<JsonV>) -> Seq<(Seq<char>, JsonV)> {
    seq![("command"@, JsonV::Str(opts.binary_path@)), ("args"@, JsonV::Array(args))]
}

fn command_entry_exec(opts: &InstallOpts, args: Json) -> (r: Vec<(String, Json)>)
    requires
        args@ is Array,
    ensures
        members_view(r@) == command_entry(*opts, args@->Array_0),
{
    let ghost a = args@;
    let mut v: Vec<(String, Json)> = Vec::new();
    v.push(("command".to_owned(), string_json(opts.binary_path.as_str())));
    v.push(("args".to_owned(), args));
    assert(members_view(v@) =~= command_entry(*opts, a->Array_0));
    v
}

/// Whether a file's current text differs from the text it should hold
/// (`None`: the file could not be read).
pub fn content_differs(existing: Option<&str>, want: &str) -> (r: bool)
    ensures
        r == match existing {
            None => true,
            Some(t) => t@ != want@,
        },
{
    match existing {
        None => true,
        Some(t) => !crate::text::str_eq(t, want),
    }
}

/// The status of an agent: where its configuration document exists, whether
/// that document registers the server under `section`; with no document,
/// found or not found as the agent is present or not.
pub fn detect_status(present: bool, doc: Option<&Json>, section: &str) -> (r: DetectStatus)
    ensures
        r == match doc {
            Some(d) => if configured_spec(d@, section@) {
                DetectStatus::AlreadyConfigured
            } else {
                DetectStatus::Found
            },
            None => if present {
                DetectStatus::Found
            } else {
                DetectStatus::NotFound
            },
        },
{
    match doc {
        Some(_) => config_status(doc, section),
        None => if present {
            DetectStatus::Found
        } else {
            DetectStatus::NotFound
        },
    }
}

/// Whether a target takes part in project-scoped installs: all but the
/// Codex CLI, whose configuration is global only.
pub fn is_project_scoped(id: &str) -> (r: bool)
    ensures
        r == (id@ != "codex"@),
{
    !crate::text::str_eq(id, "codex")
}

/// The `--path` argument that Cursor is given: the project root for a
/// project install, else the workspace folder variable.
pub open spec fn cursor_path_arg(opts: InstallOpts) -> Seq<char> {
    match opts.project_root {
        Some(r) => if !opts.global {
            r@
        } else {
            "${workspaceFolder}"@
        },
        None => "${workspaceFolder}"@,
    }
}

/// Cursor: the server in `.cursor/mcp.json`, a rule file in
/// `.cursor/rules/codegraph.mdc`.
pub struct CursorTarget;

impl CursorTarget {
    pub fn id(&self) -> (r: &'static str)
        ensures
            r@ == "cursor"@,
    {
        "cursor"
    }

    pub fn label(&self) -> (r: &'static str)
        ensures
            r@ == "Cursor"@,
    {
        "Cursor"
    }

    pub fn section(&self) -> (r: &'static str)
        ensures
            r@ == "mcpServers"@,
    {
        "mcpServers"
    }

    pub fn document_label(&self) -> (r: &'static str)
        ensures
            r@ == "mcp.json"@,
    {
        "mcp.json"
    }

    pub fn mcp_path(&self, opts: &InstallOpts, home: Option<&str>) -> (r: Option<String>)
        ensures
            opt_string_view(r) == under(scope_base(*opts, opt_str_view(home)), seq![".cursor"@, "mcp.json"@]),
    {
        match base_of(opts, home) {
            None => None,
            Some(b) => Some(join2(b, ".cursor", "mcp.json")),
        }
    }

    pub fn rule_path(&self, opts: &InstallOpts) -> (r: Option<String>)
        ensures
            opt_string_view(r) == under(
                opt_string_view(opts.project_root),
                seq![".cursor"@, "rules"@, "codegraph.mdc"@],
            ),
    {
        match &opts.project_root {
            None => None,
            Some(root) => Some(join3(root.as_str(), ".cursor", "rules", "codegraph.mdc")),
        }
    }

    /// The rule file: front matter, then the instructions.
    pub fn rule_text(&self, instructions: &str) -> (r: String)
        ensures
            r@ == "---\ndescription: CodeGraph usage\nalwaysApply: true\n---\n\n"@ + instructions@,
    {
        let mut t = "---\ndescription: CodeGraph usage\nalwaysApply: true\n---\n\n".to_owned();
        push_str(&mut t, instructions);
        t
    }

    /// The MCP entry: the binary, started with `serve --mcp --path <dir>`.
    pub fn mcp_entry(&self, opts: &InstallOpts) -> (r: Vec<(String, Json)>)
        ensures
            members_view(r@) == command_entry(
                *opts,
                seq![
                    JsonV::Str("serve"@),
                    JsonV::Str("--mcp"@),
                    JsonV::Str("--path"@),
                    JsonV::Str(cursor_path_arg(*opts)),
                ],
            ),
    {
        let path_arg: &str = match &opts.project_root {
            Some(root) => if !opts.global {
                root.as_str()
            } else {
                "${workspaceFolder}"
            },
            None => "${workspaceFolder}",
        };
        let mut v: Vec<Json> = Vec::new();
        v.push(string_json("serve"));
        v.push(string_json("--mcp"));
        v.push(string_json("--path"));
        v.push(string_json(path_arg));
        proof {
            crate::json::lemma_array_view(v);
            assert(crate::json::values_view(v@) =~= seq![
                JsonV::Str("serve"@),
                JsonV::Str("--mcp"@),
                JsonV::Str("--path"@),
                JsonV::Str(cursor_path_arg(*opts)),
            ]);
        }
        command_entry_exec(opts, Json::Array(v))
    }
}

/// Antigravity CLI: the server in `.agents/mcp_config.json` of the project
/// (or `~/.gemini/antigravity-cli/mcp_config.json`), instructions in `AGENTS.md`
/// beside it.
pub struct AntigravityTarget;

impl AntigravityTarget {
    pub fn id(&self) -> (r: &'static str)
        ensures
            r@ == "antigravity"@,
    {
        "antigravity"
    }

    pub fn label(&self) -> (r: &'static str)
        ensures
            r@ == "Antigravity CLI"@,
    {
        "Antigravity CLI"
    }

    pub fn section(&self) -> (r: &'static str)
        ensures
            r@ == "mcpServers"@,
    {
        "mcpServers"
    }

    pub fn document_label(&self) -> (r: &'static str)
        ensures
            r@ == "mcp_config.json"@,
    {
        "mcp_config.json"
    }

    pub fn mcp_path(&self, opts: &InstallOpts, home: Option<&str>) -> (r: Option<String>)
        ensures
            opt_string_view(r) == under(
                scope_base(*opts, opt_str_view(home)),
                if opts.global {
                    seq![".gemini"@, "antigravity-cli"@, "mcp_config.json"@]
                } else {
                    seq![".agents"@, "mcp_config.json"@]
                },
            ),
    {
        match base_of(opts, home) {
            None => None,
            Some(b) => if opts.global {
                Some(join3(b, ".gemini", "antigravity-cli", "mcp_config.json"))
            } else {
                Some(join2(b, ".agents", "mcp_config.json"))
            },
        }
    }

    pub fn instructions_path(&self, opts: &InstallOpts, home: Option<&str>) -> (r: Option<String>)
        ensures
            opt_string_view(r) == under(
                scope_base(*opts, opt_str_view(home)),
                if opts.global {
                    seq![".gemini"@, "antigravity-cli"@, "AGENTS.md"@]
                } else {
                    seq![".agents"@, "AGENTS.md"@]
                },
            ),
    {
        match base_of(opts, home) {
            None => None,
            Some(b) => if opts.global {
                Some(join3(b, ".gemini", "antigravity-cli", "AGENTS.md"))
            } else {
                Some(join2(b, ".agents", "AGENTS.md"))
            },
        }
    }

    /// The MCP entry: the binary, started with `serve --mcp [--path <root>]`.
    pub fn mcp_entry(&self, opts: &InstallOpts) -> (r: Vec<(String, Json)>)
        ensures
            members_view(r@) == command_entry(*opts, serve_args(*opts)),
    {
        let args = strings_json(Vec::new(), opts);
        proof {
            assert(crate::json::values_view(Seq::<Json>::empty()) + serve_args(*opts) =~= serve_args(*opts));
        }
        command_entry_exec(opts, args)
    }
}

/// The opencode MCP entry: a local server whose command is the binary with
/// `serve --mcp [--path <root>]`, enabled.
pub open spec fn opencode_entry(opts: InstallOpts) -> Seq<(Seq<char>, JsonV)> {
    seq![
        ("type"@, JsonV::Str("local"@)),
        ("command"@, JsonV::Array(seq![JsonV::Str(opts.binary_path@)] + serve_args(opts))),
        ("enabled"@, JsonV::Bool(true)),
    ]
}

/// opencode: the server under `mcp` in `opencode.jsonc` (or an existing
/// `opencode.json`), instructions in `AGENTS.md`.
pub struct OpencodeTarget;

impl OpencodeTarget {
    pub fn id(&self) -> (r: &'static str)
        ensures
            r@ == "opencode"@,
    {
        "opencode"
    }

    pub fn label(&self) -> (r: &'static str)
        ensures
            r@ == "opencode"@,
    {
        "opencode"
    }

    pub fn section(&self) -> (r: &'static str)
        ensures
            r@ == "mcp"@,
    {
        "mcp"
    }

    pub fn document_label(&self) -> (r: &'static str)
        ensures
            r@ == "opencode config"@,
    {
        "opencode config"
    }

    /// The configuration file: under the configuration directory for a
    /// global install; in the project, `opencode.jsonc` unless only
    /// `opencode.json` exists.
    pub fn config_path(
        &self,
        opts: &InstallOpts,
        config_dir: Option<&str>,
        jsonc_exists: bool,
        json_exists: bool,
    ) -> (r: Option<String>)
        ensures
            opt_string_view(r) == if opts.global {
                under(opt_str_view(config_dir), seq!["opencode"@, "opencode.jsonc"@])
            } else {
                under(
                    opt_string_view(opts.project_root),
                    seq![
                        if !jsonc_exists && json_exists {
                            "opencode.json"@
                        } else {
                            "opencode.jsonc"@
                        },
                    ],
                )
            },
    {
        if opts.global {
            match config_dir {
                None => None,
                Some(d) => Some(join2(d, "opencode", "opencode.jsonc")),
            }
        } else {
            match &opts.project_root {
                None => None,
                Some(root) => if !jsonc_exists && json_exists {
                    Some(join1(root.as_str(), "opencode.json"))
                } else {
                    Some(join1(root.as_str(), "opencode.jsonc"))
                },
            }
        }
    }

    pub fn agents_path(&self, opts: &InstallOpts, config_dir: Option<&str>) -> (r: Option<String>)
        ensures
            opt_string_view(r) == if opts.global {
                under(opt_str_view(config_dir), seq!["opencode"@, "AGENTS.md"@])
            } else {
                under(opt_string_view(opts.project_root), seq!["AGENTS.md"@])
            },
    {
        if opts.global {
            match config_dir {
                None => None,
                Some(d) => Some(join2(d, "opencode", "AGENTS.md")),
            }
        } else {
            match &opts.project_root {
                None => None,
                Some(root) => Some(join1(root.as_str(), "AGENTS.md")),
            }
        }
    }

    /// Whether JSONC text is blank: then it stands for an empty object.
    pub fn is_blank(&self, text: &str) -> (r: bool)
        ensures
            r == (crate::config::trim(text@).len() == 0),
    {
        let v = crate::text::chars_of(text);
        let t = crate::config::trim_chars(&v);
        t.len() == 0
    }

    pub fn mcp_entry(&self, opts: &InstallOpts) -> (r: Vec<(String, Json)>)
        ensures
            members_view(r@) == opencode_entry(*opts),
    {
        let mut prefix: Vec<Json> = Vec::new();
        prefix.push(string_json(opts.binary_path.as_str()));
        let ghost p = crate::json::values_view(prefix@);
        assert(p =~= seq![JsonV::Str(opts.binary_path@)]);
        let cmd = strings_json(prefix, opts);
        let mut v: Vec<(String, Json)> = Vec::new();
        v.push(("type".to_owned(), string_json("local")));
        v.push(("command".to_owned(), cmd));
        v.push(("enabled".to_owned(), Json::Bool(true)));
        assert(members_view(v@) =~= opencode_entry(*opts));
        v
    }
}

/// Codex CLI: `~/.codex/config.toml`, instructions in `~/.codex/AGENTS.md`.
pub struct CodexTarget;

impl CodexTarget {
    pub fn id(&self) -> (r: &'static str)
        ensures
            r@ == "codex"@,
    {
        "codex"
    }

    pub fn label(&self) -> (r: &'static str)
        ensures
            r@ == "Codex CLI"@,
    {
        "Codex CLI"
    }

    pub fn config_path(&self, home: Option<&str>) -> (r: Option<String>)
        ensures
            opt_string_view(r) == under(opt_str_view(home), seq![".codex"@, "config.toml"@]),
    {
        match home {
            None => None,
            Some(h) => Some(join2(h, ".codex", "config.toml")),
        }
    }

    pub fn agents_path(&self, home: Option<&str>) -> (r: Option<String>)
        ensures
            opt_string_view(r) == under(opt_str_view(home), seq![".codex"@, "AGENTS.md"@]),
    {
        match home {
            None => None,
            Some(h) => Some(join2(h, ".codex", "AGENTS.md")),
        }
    }
}

/// What a planned write puts in a file.
#[derive(Debug)]
pub enum FileContent {
    /// A whole JSON document.
    Json(Json),
    /// A whole text.
    Text(String),
    /// The text `text` with the member `key: value` inserted at the
    /// character position `at`, followed by a comma when `comma` holds; the
    /// rest of `text`, comments included, stays as it is.
    Insert { text: String, at: usize, key: String, value: Json, comma: bool },
    /// The text `text` with the characters from position `from` up to `to`
    /// replaced by `value`; the rest of `text` stays as it is.
    Replace { text: String, from: usize, to: usize, value: Json },
}

/// A file that an install or uninstall writes, and what it writes there.
#[derive(Debug)]
pub struct PlannedWrite {
    pub path: String,
    pub content: FileContent,
}

/// The mathematical value of a [`FileContent`].
pub enum ContentV {
    Json(JsonV),
    Text(Seq<char>),
    Insert(Seq<char>, int, Seq<char>, JsonV, bool),
    Replace(Seq<char>, int, int, JsonV),
}

pub open spec fn content_view(c: FileContent) -> ContentV {
    match c {
        FileContent::Json(j) => ContentV::Json(j@),
        FileContent::Text(t) => ContentV::Text(t@),
        FileContent::Insert { text, at, key, value, comma } => ContentV::Insert(text@, at as int, key@, value@, comma),
        FileContent::Replace { text, from, to, value } => ContentV::Replace(text@, from as int, to as int, value@),
    }
}

pub open spec fn writes_view(ws: Seq<PlannedWrite>) -> Seq<(Seq<char>, ContentV)> {
    ws.map_values(|w: PlannedWrite| (w.path@, content_view(w.content)))
}

/// The writes of an install: the configuration document where it changed,
/// then the instructions file where its text differs from `want`.
pub open spec fn install_writes(
    config: Seq<char>,
    outcome: (JsonV, bool),
    instructions: Option<Seq<char>>,
    existing: Option<Seq<char>>,
    want: Seq<char>,
) -> Seq<(Seq<char>, ContentV)> {
    (if outcome.1 {
        seq![(config, ContentV::Json(outcome.0))]
    } else {
        Seq::empty()
    }) + match instructions {
        Some(p) => if existing != Some(want) {
            seq![(p, ContentV::Text(want))]
        } else {
            Seq::empty()
        },
        None => Seq::empty(),
    }
}

/// Whether `r` is the plan of an install over the configuration text
/// `text` (`None` where the file is missing): it fails with `missing` when
/// there is no configuration path, with a parse error where the text is not
/// JSON ([`config_document`]), with the message of `install_entry` when the
/// document is not usable, and otherwise plans [`install_writes`].
pub open spec fn install_planned(
    r: Result<Vec<PlannedWrite>, Error>,
    config: Option<Seq<char>>,
    missing: Seq<char>,
    text: Option<Seq<char>>,
    doc_label: Seq<char>,
    section: Seq<char>,
    entry: Seq<(Seq<char>, JsonV)>,
    instructions: Option<Seq<char>>,
    existing: Option<Seq<char>>,
    want: Seq<char>,
) -> bool {
    match config {
        None => r is Err && r->Err_0 == Error::Invalid(r->Err_0->Invalid_0) && r->Err_0->Invalid_0@ == missing,
        Some(c) => match config_document(text) {
            None => r matches Err(Error::Parse(_)),
            Some(doc) => match install_spec(doc, section, entry) {
                None => r is Err && r->Err_0 == Error::Invalid(r->Err_0->Invalid_0) && r->Err_0->Invalid_0@
                    == not_object_message(
                    if object_members(doc) is None {
                        doc_label
                    } else {
                        section
                    },
                ),
                Some(o) => r is Ok && writes_view(r->Ok_0@) == install_writes(c, o, instructions, existing, want),
            },
        },
    }
}

fn plan_install(
    config: Option<String>,
    missing: &str,
    text: Option<&str>,
    doc_label: &str,
    section: &str,
    entry: Vec<(String, Json)>,
    instructions: Option<String>,
    existing: Option<&str>,
    want: &str,
) -> (r: Result<Vec<PlannedWrite>, Error>)
    ensures
        install_planned(
            r,
            opt_string_view(config),
            missing@,
            opt_str_view(text),
            doc_label@,
            section@,
            members_view(entry@),
            opt_string_view(instructions),
            opt_str_view(existing),
            want@,
        ),
{
    let path = match config {
        None => {
            return Err(Error::Invalid(missing.to_owned()));
        },
        Some(p) => p,
    };
    let doc = match read_config(text) {
        Err(e) => {
            return Err(e);
        },
        Ok(d) => d,
    };
    let ghost ev = members_view(entry@);
    let (d, changed) = match install_entry(doc, doc_label, section, entry) {
        Err(e) => {
            return Err(e);
        },
        Ok(x) => x,
    };
    let ghost dv = d@;
    let mut writes: Vec<PlannedWrite> = Vec::new();
    if changed {
        writes.push(PlannedWrite { path, content: FileContent::Json(d) });
    }
    let ghost first = writes_view(writes@);
    assert(first =~= if changed {
        seq![(path@, ContentV::Json(dv))]
    } else {
        Seq::empty()
    });
    match instructions {
        Some(ip) => {
            if content_differs(existing, want) {
                let ghost ipv = ip@;
                writes.push(PlannedWrite { path: ip, content: FileContent::Text(want.to_owned()) });
                assert(writes_view(writes@) =~= first + seq![(ipv, ContentV::Text(want@))]);
            } else {
                assert(writes_view(writes@) =~= first + Seq::empty());
            }
        },
        None => {
            assert(writes_view(writes@) =~= first + Seq::empty());
        },
    }
    Ok(writes)
}

/// The writes of an uninstall: the configuration document, where the server
/// was removed from it.
pub open spec fn uninstall_writes(config: Option<Seq<char>>, doc: Option<JsonV>, section: Seq<char>) -> Seq<(Seq<char>, ContentV)> {
    match (config, doc) {
        (Some(c), Some(d)) => if uninstall_spec(d, section).1 {
            seq![(c, ContentV::Json(uninstall_spec(d, section).0))]
        } else {
            Seq::empty()
        },
        _ => Seq::empty(),
    }
}

/// Whether `r` is the plan of an uninstall over the configuration text
/// `text` (`None` where the file is missing): nothing without a path or a
/// file; a parse error where the text is not JSON; else [`uninstall_writes`].
pub open spec fn uninstall_planned(
    r: Result<Vec<PlannedWrite>, Error>,
    config: Option<Seq<char>>,
    text: Option<Seq<char>>,
    section: Seq<char>,
) -> bool {
    match (config, text) {
        (Some(_), Some(t)) => match config_document(Some(t)) {
            None => r matches Err(Error::Parse(_)),
            Some(d) => r is Ok && writes_view(r->Ok_0@) == uninstall_writes(config, Some(d), section),
        },
        _ => r is Ok && r->Ok_0@.len() == 0,
    }
}

fn plan_uninstall(config: Option<String>, text: Option<&str>, section: &str) -> (r: Result<Vec<PlannedWrite>, Error>)
    ensures
        uninstall_planned(r, opt_string_view(config), opt_str_view(text), section@),
{
    let mut writes: Vec<PlannedWrite> = Vec::new();
    match (config, text) {
        (Some(c), Some(t)) => {
            let d = match read_config(Some(t)) {
                Err(e) => {
                    return Err(e);
                },
                Ok(d) => d,
            };
            let ghost cv = c@;
            let ghost dv = d@;
            let (nd, changed) = uninstall_entry(d, section);
            if changed {
                writes.push(PlannedWrite { path: c, content: FileContent::Json(nd) });
            }
            assert(writes_view(writes@) =~= uninstall_writes(Some(cv), Some(dv), section@));
        },
        _ => {},
    }
    Ok(writes)
}

impl CursorTarget {
    /// The writes that install the server: the MCP configuration, then the
    /// rule file (front matter and `instructions`) where its text differs.
    pub fn install_plan(
        &self,
        opts: &InstallOpts,
        home: Option<&str>,
        text: Option<&str>,
        existing: Option<&str>,
        instructions: &str,
    ) -> (r: Result<Vec<PlannedWrite>, Error>)
        ensures
            install_planned(
                r,
                under(scope_base(*opts, opt_str_view(home)), seq![".cursor"@, "mcp.json"@]),
                "no mcp path"@,
                opt_str_view(text),
                "mcp.json"@,
                "mcpServers"@,
                command_entry(
                    *opts,
                    seq![
                        JsonV::Str("serve"@),
                        JsonV::Str("--mcp"@),
                        JsonV::Str("--path"@),
                        JsonV::Str(cursor_path_arg(*opts)),
                    ],
                ),
                under(opt_string_view(opts.project_root), seq![".cursor"@, "rules"@, "codegraph.mdc"@]),
                opt_str_view(existing),
                "---\ndescription: CodeGraph usage\nalwaysApply: true\n---\n\n"@ + instructions@,
            ),
    {
        let want = self.rule_text(instructions);
        plan_install(
            self.mcp_path(opts, home),
            "no mcp path",
            text,
            "mcp.json",
            "mcpServers",
            self.mcp_entry(opts),
            self.rule_path(opts),
            existing,
            want.as_str(),
        )
    }

    /// The writes that uninstall the server; `text` is the configuration's
    /// text, `None` where the file is missing.
    pub fn uninstall_plan(&self, opts: &InstallOpts, home: Option<&str>, text: Option<&str>) -> (r: Result<
        Vec<PlannedWrite>,
        Error,
    >)
        ensures
            uninstall_planned(
                r,
                under(scope_base(*opts, opt_str_view(home)), seq![".cursor"@, "mcp.json"@]),
                opt_str_view(text),
                "mcpServers"@,
            ),
    {
        plan_uninstall(self.mcp_path(opts, home), text, "mcpServers")
    }
}

impl AntigravityTarget {
    pub fn install_plan(
        &self,
        opts: &InstallOpts,
        home: Option<&str>,
        text: Option<&str>,
        existing: Option<&str>,
        want: &str,
    ) -> (r: Result<Vec<PlannedWrite>, Error>)
        ensures
            install_planned(
                r,
                under(
                    scope_base(*opts, opt_str_view(home)),
                    if opts.global {
                        seq![".gemini"@, "antigravity-cli"@, "mcp_config.json"@]
                    } else {
                        seq![".agents"@, "mcp_config.json"@]
                    },
                ),
                "no antigravity path"@,
                opt_str_view(text),
                "mcp_config.json"@,
                "mcpServers"@,
                command_entry(*opts, serve_args(*opts)),
                under(
                    scope_base(*opts, opt_str_view(home)),
                    if opts.global {
                        seq![".gemini"@, "antigravity-cli"@, "AGENTS.md"@]
                    } else {
                        seq![".agents"@, "AGENTS.md"@]
                    },
                ),
                opt_str_view(existing),
                want@,
            ),
    {
        plan_install(
            self.mcp_path(opts, home),
            "no antigravity path",
            text,
            "mcp_config.json",
            "mcpServers",
            self.mcp_entry(opts),
            self.instructions_path(opts, home),
            existing,
            want,
        )
    }

    /// The writes that uninstall the server; `text` is the configuration's
    /// text, `None` where the file is missing.
    pub fn uninstall_plan(&self, opts: &InstallOpts, home: Option<&str>, text: Option<&str>) -> (r: Result<
        Vec<PlannedWrite>,
        Error,
    >)
        ensures
            uninstall_planned(
                r,
                under(
                    scope_base(*opts, opt_str_view(home)),
                    if opts.global {
                        seq![".gemini"@, "antigravity-cli"@, "mcp_config.json"@]
                    } else {
                        seq![".agents"@, "mcp_config.json"@]
                    },
                ),
                opt_str_view(text),
                "mcpServers"@,
            ),
    {
        plan_uninstall(self.mcp_path(opts, home), text, "mcpServers")
    }
}

/// JSON white space.
pub open spec fn json_blank(c: char) -> bool {
    c == ' ' || c == '\t' || c == '\n' || c == '\r'
}

/// Scanning JSONC text from `i` (as comment stripping does) for the `{` that
/// opens the value of a member named `key` of the object that is open at
/// `depth` 1 (the scan stops where that object closes): the
/// scan is in a string literal or not (`in_str`, `escape`, with the string
/// opened at `start`), `depth` brackets deep, and `wait` tells whether a
/// top-level string `key` was just closed (1) and then followed by `:` (2),
/// white space and comments aside. The position found, or the length.
pub open spec fn member_scan_from(
    b: Seq<char>,
    key: Seq<char>,
    i: int,
    in_str: bool,
    escape: bool,
    depth: nat,
    start: int,
    wait: int,
    comma: int,
) -> (int, int, int)
    decreases b.len() - i,
{
    if i < 0 || i >= b.len() {
        (b.len() as int, start, comma)
    } else {
        let c = b[i];
        if in_str {
            if escape {
                member_scan_from(b, key, i + 1, true, false, depth, start, wait, comma)
            } else if c == '\\' {
                member_scan_from(b, key, i + 1, true, true, depth, start, wait, comma)
            } else if c == '"' {
                let named = depth == 1 && 0 <= start < i && b.subrange(start + 1, i) == key;
                member_scan_from(b, key, i + 1, false, false, depth, start, if named { 1 } else { 0 }, comma)
            } else {
                member_scan_from(b, key, i + 1, true, false, depth, start, wait, comma)
            }
        } else if c == '"' {
            member_scan_from(b, key, i + 1, true, false, depth, i, 0, comma)
        } else if c == '/' && i + 1 < b.len() && b[i + 1] == '/' {
            let k = next_newline(b, i);
            if i < k <= b.len() {
                member_scan_from(b, key, k, false, false, depth, start, wait, comma)
            } else {
                (b.len() as int, start, comma)
            }
        } else if c == '/' && i + 1 < b.len() && b[i + 1] == '*' {
            let k = block_end(b, i + 2);
            if i < k <= b.len() {
                member_scan_from(b, key, k, false, false, depth, start, wait, comma)
            } else {
                (b.len() as int, start, comma)
            }
        } else if json_blank(c) {
            member_scan_from(b, key, i + 1, false, false, depth, start, wait, comma)
        } else if c == ':' {
            member_scan_from(b, key, i + 1, false, false, depth, start, if wait == 1 { 2 } else { 0 }, comma)
        } else if c == '{' && wait == 2 {
            (i, start, comma)
        } else if c == ',' {
            member_scan_from(b, key, i + 1, false, false, depth, start, 0, if depth == 1 { i } else { comma })
        } else if c == '{' || c == '[' {
            member_scan_from(b, key, i + 1, false, false, depth + 1, start, 0, comma)
        } else if c == '}' || c == ']' {
            if depth <= 1 {
                (b.len() as int, start, comma)
            } else {
                member_scan_from(b, key, i + 1, false, false, (depth - 1) as nat, start, 0, comma)
            }
        } else {
            member_scan_from(b, key, i + 1, false, false, depth, start, 0, comma)
        }
    }
}

/// The position found by [`member_scan_from`] from a fresh state at `i`.
pub open spec fn member_open_from(b: Seq<char>, key: Seq<char>, i: int) -> int {
    member_scan_from(b, key, i, false, false, 0, 0, 0, -1).0
}

/// Where the object value of the top-level member `key` of a JSONC text
/// opens: the position of its `{`, or the length where there is none.
pub open spec fn member_open(b: Seq<char>, key: Seq<char>) -> int {
    member_open_from(b, key, 0)
}

proof fn lemma_member_scan_from(
    b: Seq<char>,
    key: Seq<char>,
    i: int,
    in_str: bool,
    escape: bool,
    depth: nat,
    start: int,
    wait: int,
    comma: int,
)
    requires
        0 <= i <= b.len(),
        0 <= start <= i,
        comma < i,
        (in_str || wait > 0) ==> comma < start && start < i,
    ensures
        i <= member_scan_from(b, key, i, in_str, escape, depth, start, wait, comma).0 <= b.len(),
        member_scan_from(b, key, i, in_str, escape, depth, start, wait, comma).0 < b.len() ==> {
            let r = member_scan_from(b, key, i, in_str, escape, depth, start, wait, comma);
            &&& b[r.0] == '{'
            &&& 0 <= r.1 < r.0
            &&& r.2 < r.1
        },
    decreases b.len() - i,
{
    if i < b.len() {
        let c = b[i];
        if in_str {
            let named = depth == 1 && 0 <= start < i && b.subrange(start + 1, i) == key;
            lemma_member_scan_from(b, key, i + 1, true, false, depth, start, wait, comma);
            lemma_member_scan_from(b, key, i + 1, true, true, depth, start, wait, comma);
            lemma_member_scan_from(b, key, i + 1, false, false, depth, start, if named { 1 } else { 0 }, comma);
        } else if c == '"' {
            lemma_member_scan_from(b, key, i + 1, true, false, depth, i, 0, comma);
        } else if c == '/' && i + 1 < b.len() && b[i + 1] == '/' {
            lemma_next_newline(b, i);
            let k = next_newline(b, i);
            if i < k {
                lemma_member_scan_from(b, key, k, false, false, depth, start, wait, comma);
            }
        } else if c == '/' && i + 1 < b.len() && b[i + 1] == '*' {
            lemma_block_end(b, i + 2);
            let k = block_end(b, i + 2);
            if i < k {
                lemma_member_scan_from(b, key, k, false, false, depth, start, wait, comma);
            }
        } else {
            lemma_member_scan_from(b, key, i + 1, false, false, depth, start, wait, comma);
            lemma_member_scan_from(b, key, i + 1, false, false, depth, start, if wait == 1 { 2 } else { 0 }, comma);
            lemma_member_scan_from(b, key, i + 1, false, false, depth + 1, start, 0, comma);
            lemma_member_scan_from(b, key, i + 1, false, false, depth, start, 0, if depth == 1 { i } else { comma });
            if depth > 1 {
                lemma_member_scan_from(b, key, i + 1, false, false, (depth - 1) as nat, start, 0, comma);
            }
            lemma_member_scan_from(b, key, i + 1, false, false, depth, start, 0, comma);
        }
    }
}

/// Whether the characters of `cs` from `lo` to `hi` are those of `key`.
fn chars_match(cs: &Vec<char>, lo: usize, hi: usize, key: &Vec<char>) -> (r: bool)
    requires
        lo <= hi <= cs@.len(),
    ensures
        r == (cs@.subrange(lo as int, hi as int) == key@),
{
    if hi - lo != key.len() {
        return false;
    }
    let mut k: usize = 0;
    while k < key.len()
        invariant
            lo <= hi <= cs@.len(),
            hi - lo == key@.len(),
            0 <= k <= key@.len(),
            forall|j: int| 0 <= j < k ==> cs@[lo + j] == key@[j],
        decreases key@.len() - k,
    {
        if cs[lo + k] != key[k] {
            assert(cs@.subrange(lo as int, hi as int)[k as int] != key@[k as int]);
            return false;
        }
        k = k + 1;
    }
    assert(cs@.subrange(lo as int, hi as int) =~= key@);
    true
}

/// Where the object value of the member `key` of the object that opens at
/// or after `from` opens, if it does, with where its key starts and the
/// last separating comma before it: see [`member_scan_from`].
fn member_open_at(cs: &Vec<char>, kc: &Vec<char>, from: usize) -> (r: Option<(usize, usize, Option<usize>)>)
    requires
        from <= cs@.len(),
    ensures
        match r {
            Some((i, ks, cb)) => {
                let f = member_scan_from(cs@, kc@, from as int, false, false, 0, 0, 0, -1);
                &&& i == f.0
                &&& ks == f.1
                &&& match cb {
                    Some(c) => c == f.2 && 0 <= f.2,
                    None => f.2 < 0,
                }
                &&& f.2 < f.1
                &&& i < cs@.len()
                &&& cs@[i as int] == '{'
                &&& ks < i
            },
            None => member_open_from(cs@, kc@, from as int) == cs@.len(),
        },
{
    let ghost b = cs@;
    let ghost kv = kc@;
    let n = cs.len();
    let mut i: usize = from;
    let mut in_str = false;
    let mut escape = false;
    let mut depth: usize = 0;
    let mut start: usize = 0;
    let mut wait: u8 = 0;
    let mut comma: Option<usize> = None;
    proof {
        lemma_member_scan_from(b, kv, from as int, false, false, 0, 0, 0, -1);
    }
    while i < n
        invariant
            b == cs@,
            kv == kc@,
            n == b.len(),
            from <= i <= n,
            depth <= i,
            start <= i,
            wait <= 2,
            !in_str ==> !escape,
            comma matches Some(c) ==> c < i,
            (in_str || wait > 0) ==> start < i && match comma {
                Some(c) => c < start,
                None => true,
            },
            member_scan_from(b, kv, i as int, in_str, escape, depth as nat, start as int, wait as int, match comma {
                Some(c) => c as int,
                None => -1,
            }) == member_scan_from(b, kv, from as int, false, false, 0, 0, 0, -1),
        decreases n - i,
    {
        let c = cs[i];
        if in_str {
            if escape {
                escape = false;
            } else if c == '\\' {
                escape = true;
            } else if c == '"' {
                in_str = false;
                let named = depth == 1 && start < i && chars_match(&cs, start + 1, i, &kc);
                wait = if named { 1 } else { 0 };
            }
            i = i + 1;
            continue;
        }
        if c == '"' {
            in_str = true;
            start = i;
            wait = 0;
            i = i + 1;
            continue;
        }
        if c == '/' && i + 1 < n {
            if cs[i + 1] == '/' {
                let ghost target = next_newline(b, i as int);
                proof {
                    lemma_next_newline(b, i as int);
                    lemma_next_newline(b, i + 1);
                }
                while i < n && cs[i] != '\n'
                    invariant
                        b == cs@,
                        n == b.len(),
                        0 <= i <= n,
                        next_newline(b, i as int) == target,
                    decreases n - i,
                {
                    i = i + 1;
                }
                assert(i as int == target);
                continue;
            }
            if cs[i + 1] == '*' {
                proof {
                    lemma_block_end(b, i + 2);
                }
                i = i + 2;
                let ghost target = block_end(b, i as int);
                while n > 0 && i < n - 1 && !(cs[i] == '*' && cs[i + 1] == '/')
                    invariant
                        b == cs@,
                        n == b.len(),
                        0 <= i <= n,
                        block_end(b, i as int) == target,
                    decreases n - i,
                {
                    i = i + 1;
                }
                i = if n >= 2 && i < n - 2 { i + 2 } else { n };
                assert(i as int == target);
                continue;
            }
        }
        if c == ' ' || c == '\t' || c == '\n' || c == '\r' {
        } else if c == ':' {
            wait = if wait == 1 { 2 } else { 0 };
        } else if c == '{' && wait == 2 {
            proof {
                lemma_member_scan_from(b, kv, i as int, in_str, escape, depth as nat, start as int, wait as int, match comma {
                    Some(c) => c as int,
                    None => -1,
                });
            }
            return Some((i, start, comma));
        } else if c == ',' {
            if depth == 1 {
                comma = Some(i);
            }
            wait = 0;
        } else if c == '{' || c == '[' {
            depth = depth + 1;
            wait = 0;
        } else if c == '}' || c == ']' {
            if depth <= 1 {
                return None;
            }
            depth = depth - 1;
            wait = 0;
        } else {
            wait = 0;
        }
        i = i + 1;
    }
    None
}

/// Where the object value of the top-level member `key` of a JSONC text
/// opens, if it does: see [`member_open`].
pub fn find_member_open(text: &str, key: &str) -> (r: Option<usize>)
    ensures
        match r {
            Some(i) => i == member_open(text@, key@) && i < text@.len() && text@[i as int] == '{',
            None => member_open(text@, key@) == text@.len(),
        },
        text@.len() <= usize::MAX,
{
    let cs = crate::text::chars_of(text);
    let kc = crate::text::chars_of(key);
    let n = cs.len();
    assert(text@.len() == n);
    match member_open_at(&cs, &kc, 0) {
        Some((i, _, _)) => Some(i),
        None => None,
    }
}

/// Scanning from `i` (as comment stripping does), `depth` brackets deep:
/// the position of the `}` or `]` that closes the bracket open at depth 1,
/// or the length where there is none.
pub open spec fn close_from(b: Seq<char>, i: int, in_str: bool, escape: bool, depth: nat) -> int
    decreases b.len() - i,
{
    if i < 0 || i >= b.len() {
        b.len() as int
    } else {
        let c = b[i];
        if in_str {
            if escape {
                close_from(b, i + 1, true, false, depth)
            } else if c == '\\' {
                close_from(b, i + 1, true, true, depth)
            } else if c == '"' {
                close_from(b, i + 1, false, false, depth)
            } else {
                close_from(b, i + 1, true, false, depth)
            }
        } else if c == '"' {
            close_from(b, i + 1, true, false, depth)
        } else if c == '/' && i + 1 < b.len() && b[i + 1] == '/' {
            let k = next_newline(b, i);
            if i < k <= b.len() {
                close_from(b, k, false, false, depth)
            } else {
                b.len() as int
            }
        } else if c == '/' && i + 1 < b.len() && b[i + 1] == '*' {
            let k = block_end(b, i + 2);
            if i < k <= b.len() {
                close_from(b, k, false, false, depth)
            } else {
                b.len() as int
            }
        } else if c == '{' || c == '[' {
            close_from(b, i + 1, false, false, depth + 1)
        } else if c == '}' || c == ']' {
            if depth <= 1 {
                i
            } else {
                close_from(b, i + 1, false, false, (depth - 1) as nat)
            }
        } else {
            close_from(b, i + 1, false, false, depth)
        }
    }
}

proof fn lemma_close_from(b: Seq<char>, i: int, in_str: bool, escape: bool, depth: nat)
    requires
        0 <= i <= b.len(),
    ensures
        i <= close_from(b, i, in_str, escape, depth) <= b.len(),
    decreases b.len() - i,
{
    if i < b.len() {
        let c = b[i];
        if in_str {
            lemma_close_from(b, i + 1, true, false, depth);
            lemma_close_from(b, i + 1, true, true, depth);
            lemma_close_from(b, i + 1, false, false, depth);
        } else if c == '"' {
            lemma_close_from(b, i + 1, true, false, depth);
        } else if c == '/' && i + 1 < b.len() && b[i + 1] == '/' {
            lemma_next_newline(b, i);
            let k = next_newline(b, i);
            if i < k {
                lemma_close_from(b, k, false, false, depth);
            }
        } else if c == '/' && i + 1 < b.len() && b[i + 1] == '*' {
            lemma_block_end(b, i + 2);
            let k = block_end(b, i + 2);
            if i < k {
                lemma_close_from(b, k, false, false, depth);
            }
        } else {
            lemma_close_from(b, i + 1, false, false, depth + 1);
            lemma_close_from(b, i + 1, false, false, depth);
            if depth > 1 {
                lemma_close_from(b, i + 1, false, false, (depth - 1) as nat);
            }
        }
    }
}

/// The position of the bracket that closes the one opened at `from`.
fn close_at(cs: &Vec<char>, from: usize) -> (r: Option<usize>)
    requires
        from <= cs@.len(),
    ensures
        match r {
            Some(i) => i == close_from(cs@, from as int, false, false, 0) && i < cs@.len(),
            None => close_from(cs@, from as int, false, false, 0) == cs@.len(),
        },
{
    let ghost b = cs@;
    let n = cs.len();
    let mut i: usize = from;
    let mut in_str = false;
    let mut escape = false;
    let mut depth: usize = 0;
    proof {
        lemma_close_from(b, from as int, false, false, 0);
    }
    while i < n
        invariant
            b == cs@,
            n == b.len(),
            from <= i <= n,
            depth <= i,
            !in_str ==> !escape,
            close_from(b, i as int, in_str, escape, depth as nat) == close_from(b, from as int, false, false, 0),
        decreases n - i,
    {
        let c = cs[i];
        if in_str {
            if escape {
                escape = false;
            } else if c == '\\' {
                escape = true;
            } else if c == '"' {
                in_str = false;
            }
            i = i + 1;
            continue;
        }
        if c == '"' {
            in_str = true;
            i = i + 1;
            continue;
        }
        if c == '/' && i + 1 < n {
            if cs[i + 1] == '/' {
                let ghost target = next_newline(b, i as int);
                proof {
                    lemma_next_newline(b, i as int);
                    lemma_next_newline(b, i + 1);
                }
                while i < n && cs[i] != '\n'
                    invariant
                        b == cs@,
                        n == b.len(),
                        0 <= i <= n,
                        next_newline(b, i as int) == target,
                    decreases n - i,
                {
                    i = i + 1;
                }
                assert(i as int == target);
                continue;
            }
            if cs[i + 1] == '*' {
                proof {
                    lemma_block_end(b, i + 2);
                }
                i = i + 2;
                let ghost target = block_end(b, i as int);
                while n > 0 && i < n - 1 && !(cs[i] == '*' && cs[i + 1] == '/')
                    invariant
                        b == cs@,
                        n == b.len(),
                        0 <= i <= n,
                        block_end(b, i as int) == target,
                    decreases n - i,
                {
                    i = i + 1;
                }
                i = if n >= 2 && i < n - 2 { i + 2 } else { n };
                assert(i as int == target);
                continue;
            }
        }
        if c == '{' || c == '[' {
            depth = depth + 1;
        } else if c == '}' || c == ']' {
            if depth <= 1 {
                return Some(i);
            }
            depth = depth - 1;
        }
        i = i + 1;
    }
    None
}

/// Where the object value of `mcp.codegraph` spans in a JSONC text: from
/// its `{` to just past its `}`.
pub open spec fn server_span(b: Seq<char>) -> (int, int) {
    let m = member_open(b, "mcp"@);
    let q = member_open_from(b, server_name(), m);
    (q, close_from(b, q, false, false, 0) + 1)
}

/// Whether [`server_span`] found both ends.
pub open spec fn server_span_found(b: Seq<char>) -> bool {
    let m = member_open(b, "mcp"@);
    let q = member_open_from(b, server_name(), m);
    &&& m < b.len()
    &&& q < b.len()
    &&& close_from(b, q, false, false, 0) < b.len()
}

/// Where the object value of `mcp.codegraph` spans in a JSONC text, if it
/// is found: see [`server_span`].
pub fn find_server_span(text: &str) -> (r: Option<(usize, usize)>)
    ensures
        match r {
            Some((a, z)) => server_span_found(text@) && a == server_span(text@).0 && z == server_span(text@).1
                && a < z <= text@.len(),
            None => !server_span_found(text@),
        },
{
    let cs = crate::text::chars_of(text);
    let n = cs.len();
    let mcp = crate::text::chars_of("mcp");
    let name = crate::text::chars_of("codegraph");
    proof {
        reveal_strlit("mcp");
        reveal_strlit("codegraph");
        assert(mcp@ == "mcp"@);
        assert(name@ == server_name());
    }
    let m = match member_open_at(&cs, &mcp, 0) {
        Some((m, _, _)) => m,
        None => {
            return None;
        },
    };
    let q = match member_open_at(&cs, &name, m) {
        Some((q, _, _)) => q,
        None => {
            return None;
        },
    };
    match close_at(&cs, q) {
        Some(e) => {
            assert(e < n);
            proof {
                lemma_close_from(cs@, q as int, false, false, 0);
                if e == q {
                    assert(cs@[q as int] == '{');
                }
            }
            Some((q, e + 1))
        },
        None => None,
    }
}

/// The first position from `i` on that holds neither white space nor a
/// comment, or the length.
pub open spec fn code_from(b: Seq<char>, i: int) -> int
    decreases b.len() - i,
{
    if i < 0 || i >= b.len() {
        b.len() as int
    } else if json_blank(b[i]) {
        code_from(b, i + 1)
    } else if b[i] == '/' && i + 1 < b.len() && b[i + 1] == '/' {
        let k = next_newline(b, i);
        if i < k <= b.len() {
            code_from(b, k)
        } else {
            b.len() as int
        }
    } else if b[i] == '/' && i + 1 < b.len() && b[i + 1] == '*' {
        let k = block_end(b, i + 2);
        if i < k <= b.len() {
            code_from(b, k)
        } else {
            b.len() as int
        }
    } else {
        i
    }
}

proof fn lemma_code_from(b: Seq<char>, i: int)
    requires
        0 <= i <= b.len(),
    ensures
        i <= code_from(b, i) <= b.len(),
    decreases b.len() - i,
{
    if i < b.len() {
        if json_blank(b[i]) {
            lemma_code_from(b, i + 1);
        } else if b[i] == '/' && i + 1 < b.len() && b[i + 1] == '/' {
            lemma_next_newline(b, i);
            let k = next_newline(b, i);
            if i < k {
                lemma_code_from(b, k);
            }
        } else if b[i] == '/' && i + 1 < b.len() && b[i + 1] == '*' {
            lemma_block_end(b, i + 2);
            let k = block_end(b, i + 2);
            if i < k {
                lemma_code_from(b, k);
            }
        }
    }
}

fn code_at(cs: &Vec<char>, from: usize) -> (r: usize)
    requires
        from <= cs@.len(),
    ensures
        r == code_from(cs@, from as int),
{
    let ghost b = cs@;
    let n = cs.len();
    let mut i = from;
    proof {
        lemma_code_from(b, from as int);
    }
    while i < n
        invariant
            b == cs@,
            n == b.len(),
            from <= i <= n,
            code_from(b, i as int) == code_from(b, from as int),
        decreases n - i,
    {
        let c = cs[i];
        if c == ' ' || c == '\t' || c == '\n' || c == '\r' {
            i = i + 1;
        } else if c == '/' && i + 1 < n && cs[i + 1] == '/' {
            let ghost target = next_newline(b, i as int);
            proof {
                lemma_next_newline(b, i as int);
                lemma_next_newline(b, i + 1);
            }
            while i < n && cs[i] != '\n'
                invariant
                    b == cs@,
                    n == b.len(),
                    0 <= i <= n,
                    next_newline(b, i as int) == target,
                decreases n - i,
            {
                i = i + 1;
            }
            assert(i as int == target);
        } else if c == '/' && i + 1 < n && cs[i + 1] == '*' {
            proof {
                lemma_block_end(b, i + 2);
            }
            i = i + 2;
            let ghost target = block_end(b, i as int);
            while n > 0 && i < n - 1 && !(cs[i] == '*' && cs[i + 1] == '/')
                invariant
                    b == cs@,
                    n == b.len(),
                    0 <= i <= n,
                    block_end(b, i as int) == target,
                decreases n - i,
            {
                i = i + 1;
            }
            i = if n >= 2 && i < n - 2 { i + 2 } else { n };
            assert(i as int == target);
        } else {
            return i;
        }
    }
    n
}

/// The span of a JSONC text that removing `mcp.codegraph` leaves out: the
/// member from its key to the end of its object value, with the comma that
/// follows it, or else the comma that precedes it.
pub open spec fn server_removal(b: Seq<char>) -> (int, int) {
    let m = member_open(b, "mcp"@);
    let f = member_scan_from(b, server_name(), m, false, false, 0, 0, 0, -1);
    let e = close_from(b, f.0, false, false, 0);
    let after = code_from(b, e + 1);
    if after < b.len() && b[after] == ',' {
        (f.1, after + 1)
    } else if f.2 >= 0 {
        (f.2, e + 1)
    } else {
        (f.1, e + 1)
    }
}

/// The text without the span of [`server_removal`].
pub open spec fn without_server_text(b: Seq<char>) -> Seq<char> {
    b.subrange(0, server_removal(b).0) + b.subrange(server_removal(b).1, b.len() as int)
}

proof fn lemma_subsequence_refl(s: Seq<char>)
    ensures
        is_subsequence(s, s),
    decreases s.len(),
{
    if s.len() > 0 {
        lemma_subsequence_refl(s.drop_first());
    }
}

/// A text without the characters from `x` up to `y` is a subsequence of it.
proof fn lemma_cut_subsequence(b: Seq<char>, x: int, y: int)
    requires
        0 <= x <= y <= b.len(),
    ensures
        is_subsequence(b.subrange(0, x) + b.subrange(y, b.len() as int), b),
    decreases x,
{
    let a = b.subrange(0, x) + b.subrange(y, b.len() as int);
    if x == 0 {
        assert(a =~= b.subrange(y, b.len() as int));
        lemma_subsequence_refl(b.subrange(y, b.len() as int));
        lemma_subsequence_widen(a, b, 0, y);
        assert(b.subrange(0, b.len() as int) =~= b);
    } else {
        let b1 = b.drop_first();
        lemma_cut_subsequence(b1, x - 1, y - 1);
        assert(a.drop_first() =~= b1.subrange(0, x - 1) + b1.subrange(y - 1, b1.len() as int));
        assert(a[0] == b[0]);
    }
}

/// Removing the server from an opencode text only leaves characters out:
/// the rest of the text, its comments included, stays in order.
pub proof fn lemma_server_removal_keeps_the_rest(text: Seq<char>)
    requires
        server_span_found(text),
    ensures
        is_subsequence(without_server_text(text), text),
{
    let m = member_open(text, "mcp"@);
    lemma_member_scan_from(text, "mcp"@, 0, false, false, 0, 0, 0, -1);
    lemma_member_scan_from(text, server_name(), m, false, false, 0, 0, 0, -1);
    let f = member_scan_from(text, server_name(), m, false, false, 0, 0, 0, -1);
    lemma_close_from(text, f.0, false, false, 0);
    let e = close_from(text, f.0, false, false, 0);
    lemma_code_from(text, e + 1);
    let (x, y) = server_removal(text);
    assert(0 <= x <= y <= text.len());
    lemma_cut_subsequence(text, x, y);
}

/// The text of a JSONC document without its `mcp.codegraph` member, where
/// that member's object is found ([`server_span_found`]): the rest of the
/// text, comments included, stays as it is.
pub fn remove_server_text(text: &str) -> (r: Option<String>)
    ensures
        match r {
            Some(t) => server_span_found(text@) && t@ == without_server_text(text@),
            None => !server_span_found(text@),
        },
{
    let cs = crate::text::chars_of(text);
    let n = cs.len();
    let mcp = crate::text::chars_of("mcp");
    let name = crate::text::chars_of("codegraph");
    proof {
        reveal_strlit("mcp");
        reveal_strlit("codegraph");
        assert(mcp@ == "mcp"@);
        assert(name@ == server_name());
    }
    let m = match member_open_at(&cs, &mcp, 0) {
        Some((m, _, _)) => m,
        None => {
            return None;
        },
    };
    let (q, ks, cb) = match member_open_at(&cs, &name, m) {
        Some(x) => x,
        None => {
            return None;
        },
    };
    let e = match close_at(&cs, q) {
        Some(e) => e,
        None => {
            return None;
        },
    };
    assert(e < n);
    let after = code_at(&cs, e + 1);
    let (from, to) = if after < n && cs[after] == ',' {
        (ks, after + 1)
    } else {
        match cb {
            Some(c) => (c, e + 1),
            None => (ks, e + 1),
        }
    };
    proof {
        lemma_close_from(cs@, q as int, false, false, 0);
        lemma_code_from(cs@, e + 1);
    }
    assert(from <= to <= n);
    let mut out = String::new();
    let mut i: usize = 0;
    while i < from
        invariant
            0 <= i <= from <= to <= n,
            n == cs@.len(),
            out@ == cs@.subrange(0, i as int),
        decreases from - i,
    {
        push_char(&mut out, cs[i]);
        assert(cs@.subrange(0, i + 1) =~= cs@.subrange(0, i as int).push(cs@[i as int]));
        i = i + 1;
    }
    let ghost head = out@;
    let mut j: usize = to;
    while j < n
        invariant
            to <= j <= n,
            n == cs@.len(),
            head == cs@.subrange(0, from as int),
            out@ == head + cs@.subrange(to as int, j as int),
        decreases n - j,
    {
        push_char(&mut out, cs[j]);
        assert(cs@.subrange(to as int, j + 1) =~= cs@.subrange(to as int, j as int).push(cs@[j as int]));
        j = j + 1;
    }
    Some(out)
}

/// The `mcp` section that an install adds to an opencode document that has
/// none: the server entry alone.
pub open spec fn opencode_section(entry: Seq<(Seq<char>, JsonV)>) -> JsonV {
    JsonV::Object(set_member(Seq::empty(), server_name(), JsonV::Object(entry)))
}

/// What an opencode install writes to its configuration, whose text is
/// `text` and whose document is `doc`. Where the document has no `mcp`
/// section and the text has a top-level `{`, the new section is inserted
/// just after that brace; where the `mcp` section is an object without the
/// server and its `{` is found in the text, the server entry is inserted
/// just after it; where the section holds another server entry and its
/// object is found in the text ([`server_span`]), that object is replaced.
/// Every character of the text outside the insertion or the replaced object
/// is kept, so its comments and formatting stay. Otherwise the whole new
/// document is written.
pub open spec fn opencode_content(
    text: Seq<char>,
    doc: JsonV,
    new_doc: JsonV,
    entry: Seq<(Seq<char>, JsonV)>,
) -> ContentV {
    let ms = object_members(doc)->0;
    match member(ms, "mcp"@) {
        None => if first_brace(text) < text.len() {
            ContentV::Insert(text, first_brace(text) + 1, "mcp"@, opencode_section(entry), ms.len() > 0)
        } else {
            ContentV::Json(new_doc)
        },
        Some(JsonV::Object(ss)) => if member(ss, server_name()) is None {
            if member_open(text, "mcp"@) < text.len() {
                ContentV::Insert(text, member_open(text, "mcp"@) + 1, server_name(), JsonV::Object(entry), ss.len() > 0)
            } else {
                ContentV::Json(new_doc)
            }
        } else if server_span_found(text) {
            ContentV::Replace(text, server_span(text).0, server_span(text).1, JsonV::Object(entry))
        } else {
            ContentV::Json(new_doc)
        },
        _ => ContentV::Json(new_doc),
    }
}

/// Whether `r` is the plan of an opencode install: it fails without a
/// configuration path or where the document, or its `mcp` section, is not
/// an object; else it writes the configuration where the server entry
/// changes ([`opencode_content`]), then the instructions where they differ.
pub open spec fn opencode_planned(
    r: Result<Vec<PlannedWrite>, Error>,
    config: Option<Seq<char>>,
    text: Seq<char>,
    entry: Seq<(Seq<char>, JsonV)>,
    instructions: Option<Seq<char>>,
    existing: Option<Seq<char>>,
    want: Seq<char>,
) -> bool {
    match config {
        None => r is Err && r->Err_0 == Error::Invalid(r->Err_0->Invalid_0) && r->Err_0->Invalid_0@
            == "no opencode config path"@,
        Some(c) => match jsonc_document(text) {
            None => r matches Err(Error::Parse(_)),
            Some(doc) => match install_spec(doc, "mcp"@, entry) {
                None => r is Err && r->Err_0 == Error::Invalid(r->Err_0->Invalid_0) && r->Err_0->Invalid_0@
                    == not_object_message(
                    if object_members(doc) is None {
                        "opencode config"@
                    } else {
                        "mcp"@
                    },
                ),
                Some(o) => r is Ok && writes_view(r->Ok_0@) == (if o.1 {
                    seq![(c, opencode_content(text, doc, o.0, entry))]
                } else {
                    Seq::empty()
                }) + agents_writes(instructions, existing, want),
            },
        },
    }
}

/// The document of an opencode configuration text: an empty object for
/// blank text, else the text without its comments, parsed as JSON; `None`
/// where that is not JSON.
pub open spec fn jsonc_document(text: Seq<char>) -> Option<JsonV> {
    if crate::config::trim(text).len() == 0 {
        Some(crate::json::empty_object())
    } else {
        json_parsed(strip_from(text, 0, false, false))
    }
}

/// Reads an opencode configuration text as a document: see
/// [`jsonc_document`]. Fails with `serde_json`'s message where the text,
/// without comments, is not JSON.
pub fn read_jsonc(text: &str) -> (r: Result<Json, Error>)
    ensures
        match jsonc_document(text@) {
            Some(d) => r is Ok && r->Ok_0@ == d,
            None => r matches Err(Error::Parse(_)),
        },
{
    if OpencodeTarget.is_blank(text) {
        return read_config(None);
    }
    let stripped = strip_jsonc_comments(text);
    parse_json(stripped.as_str())
}

impl OpencodeTarget {
    /// The writes that install the server; `config` is the configuration
    /// path (see [`OpencodeTarget::config_path`]) and `text` its current
    /// text (empty where it cannot be read).
    pub fn install_plan(
        &self,
        opts: &InstallOpts,
        config: Option<String>,
        config_dir: Option<&str>,
        text: &str,
        existing: Option<&str>,
        want: &str,
    ) -> (r: Result<Vec<PlannedWrite>, Error>)
        ensures
            opencode_planned(
                r,
                opt_string_view(config),
                text@,
                opencode_entry(*opts),
                if opts.global {
                    under(opt_str_view(config_dir), seq!["opencode"@, "AGENTS.md"@])
                } else {
                    under(opt_string_view(opts.project_root), seq!["AGENTS.md"@])
                },
                opt_str_view(existing),
                want@,
            ),
    {
        let path = match config {
            None => {
                return Err(Error::Invalid("no opencode config path".to_owned()));
            },
            Some(p) => p,
        };
        let doc = match read_jsonc(text) {
            Err(e) => {
                return Err(e);
            },
            Ok(d) => d,
        };
        let ghost dv = doc@;
        let (absent, nonempty, mcp_object, server_absent, servers_nonempty) = match &doc {
            Json::Object(ms) => {
                proof {
                    lemma_object_view(*ms);
                    lemma_member_index(members_view(ms@), "mcp"@);
                }
                let k = find_member(ms, "mcp");
                if k < ms.len() {
                    proof {
                        assert(members_view(ms@)[k as int] == (ms@[k as int].0@, jv(ms@[k as int].1)));
                    }
                    match &ms[k].1 {
                        Json::Object(ss) => {
                            proof {
                                lemma_object_view(*ss);
                                lemma_member_index(members_view(ss@), server_name());
                            }
                            let c = find_member(ss, "codegraph");
                            (false, ms.len() > 0, true, c >= ss.len(), ss.len() > 0)
                        },
                        _ => (false, ms.len() > 0, false, false, false),
                    }
                } else {
                    (true, ms.len() > 0, false, false, false)
                }
            },
            _ => (false, false, false, false, false),
        };
        let mcp_open = find_member_open(text, "mcp");
        let brace = find_first_brace(text);
        let entry = self.mcp_entry(opts);
        let ghost ev = members_view(entry@);
        let (d, changed) = match install_entry(doc, "opencode config", "mcp", entry) {
            Err(e) => {
                return Err(e);
            },
            Ok(x) => x,
        };
        let ghost o = (d@, changed);
        let ghost pv = path@;
        let mut writes: Vec<PlannedWrite> = Vec::new();
        if changed {
            let content = match brace {
                Some(b) if absent => match d {
                    Json::Object(mut ms) => {
                        proof {
                            lemma_object_view(ms);
                            let mv = object_members(dv)->0;
                            lemma_member_index(mv, "mcp"@);
                            assert(members_view(ms@) == set_member(mv, "mcp"@, opencode_section(ev)));
                            assert(members_view(ms@) == mv.push(("mcp"@, opencode_section(ev))));
                        }
                        let ghost before = ms@;
                        let last = ms.pop();
                        match last {
                            Some((key, value)) => {
                                proof {
                                    let mv = object_members(dv)->0;
                                    assert(members_view(before)[mv.len() as int] == (key@, jv(value)));
                                }
                                FileContent::Insert { text: text.to_owned(), at: b + 1, key, value, comma: nonempty }
                            },
                            None => FileContent::Json(Json::Object(ms)),
                        }
                    },
                    other => FileContent::Json(other),
                },
                _ => match mcp_open {
                    Some(p) if mcp_object && server_absent => {
                        let members = self.mcp_entry(opts);
                        proof {
                            lemma_object_view(members);
                        }
                        let value = Json::Object(members);
                        FileContent::Insert {
                            text: text.to_owned(),
                            at: p + 1,
                            key: "codegraph".to_owned(),
                            value,
                            comma: servers_nonempty,
                        }
                    },
                    _ => if mcp_object && !server_absent {
                        match find_server_span(text) {
                            Some((a, z)) => {
                                let members = self.mcp_entry(opts);
                                proof {
                                    lemma_object_view(members);
                                }
                                FileContent::Replace { text: text.to_owned(), from: a, to: z, value: Json::Object(members) }
                            },
                            None => FileContent::Json(d),
                        }
                    } else {
                        FileContent::Json(d)
                    },
                },
            };
            proof {
                assert(content_view(content) == opencode_content(text@, dv, o.0, ev));
            }
            writes.push(PlannedWrite { path, content });
        }
        let ghost first = writes_view(writes@);
        assert(first =~= if changed {
            seq![(pv, opencode_content(text@, dv, o.0, ev))]
        } else {
            Seq::empty()
        });
        match self.agents_path(opts, config_dir) {
            Some(ip) => {
                if content_differs(existing, want) {
                    let ghost ipv = ip@;
                    writes.push(PlannedWrite { path: ip, content: FileContent::Text(want.to_owned()) });
                    assert(writes_view(writes@) =~= first + seq![(ipv, ContentV::Text(want@))]);
                } else {
                    assert(writes_view(writes@) =~= first + Seq::empty());
                }
            },
            None => {
                assert(writes_view(writes@) =~= first + Seq::empty());
            },
        }
        Ok(writes)
    }

    /// The writes that uninstall the server; `config` is the configuration
    /// path, `text` its current text and `doc` its document, where it exists.
    pub fn uninstall_plan(&self, config: Option<String>, text: Option<&str>) -> (r: Result<Vec<PlannedWrite>, Error>)
        ensures
            match (opt_string_view(config), opt_str_view(text)) {
                (Some(_), Some(t)) => match jsonc_document(t) {
                    None => r matches Err(Error::Parse(_)),
                    Some(d) => r is Ok && writes_view(r->Ok_0@) == opencode_uninstall_writes(
                        opt_string_view(config),
                        t,
                        Some(d),
                    ),
                },
                _ => r is Ok && r->Ok_0@.len() == 0,
            },
    {
        let mut writes: Vec<PlannedWrite> = Vec::new();
        match (config, text) {
            (Some(c), Some(text)) => {
                let d = match read_jsonc(text) {
                    Err(e) => {
                        return Err(e);
                    },
                    Ok(d) => d,
                };
                let ghost cv = c@;
                let ghost dv = d@;
                let (nd, changed) = uninstall_entry(d, "mcp");
                if changed {
                    let content = match remove_server_text(text) {
                        Some(t) => FileContent::Text(t),
                        None => FileContent::Json(nd),
                    };
                    writes.push(PlannedWrite { path: c, content });
                }
                assert(writes_view(writes@) =~= opencode_uninstall_writes(Some(cv), text@, Some(dv)));
            },
            _ => {},
        }
        Ok(writes)
    }
}

/// The writes of an opencode uninstall: the configuration, where the server
/// was removed from its document; written as its text without the server's
/// member where that member's object is found in the text (comments and
/// formatting kept), else as the whole new document.
pub open spec fn opencode_uninstall_writes(
    config: Option<Seq<char>>,
    text: Seq<char>,
    doc: Option<JsonV>,
) -> Seq<(Seq<char>, ContentV)> {
    match (config, doc) {
        (Some(c), Some(d)) => if uninstall_spec(d, "mcp"@).1 {
            seq![
                (c, if server_span_found(text) {
                    ContentV::Text(without_server_text(text))
                } else {
                    ContentV::Json(uninstall_spec(d, "mcp"@).0)
                }),
            ]
        } else {
            Seq::empty()
        },
        _ => Seq::empty(),
    }
}

/// The views of a sequence of strings.
pub open spec fn strings_view(v: Seq<String>) -> Seq<Seq<char>> {
    v.map_values(|a: String| a@)
}

/// The arguments that start the MCP server, as text: `serve --mcp`, with
/// `--path <root>` for a project install.
pub open spec fn codex_args(opts: InstallOpts) -> Seq<Seq<char>> {
    seq!["serve"@, "--mcp"@] + match opts.project_root {
        Some(r) => seq!["--path"@, r@],
        None => Seq::empty(),
    }
}

/// `toml_edit::DocumentMut`, a TOML document that keeps the formatting of
/// the text it was parsed from.
#[verifier::external_type_specification]
#[verifier::external_body]
pub struct ExTomlDocument(toml_edit::DocumentMut);

/// `toml_edit::Table`, a TOML table with its formatting.
#[verifier::external_type_specification]
#[verifier::external_body]
pub struct ExTomlTable(toml_edit::Table);

/// `toml_edit::TomlError`, why a text is not a TOML document.
#[verifier::external_type_specification]
#[verifier::external_body]
pub struct ExTomlError(toml_edit::TomlError);

/// The items of a `toml_edit::Table`, by key, each as its text (the
/// `Display` of the item); keys holding `toml_edit::Item::None` aside.
pub uninterp spec fn toml_table_items(t: toml_edit::Table) -> Map<Seq<char>, Seq<char>>;

/// The top-level items of a `toml_edit::DocumentMut`, by key: the items of
/// each `toml_edit::Item::Table`, `None` for any other item; keys holding
/// `toml_edit::Item::None` aside.
pub uninterp spec fn toml_document_items(d: toml_edit::DocumentMut) -> Map<Seq<char>, Option<Map<Seq<char>, Seq<char>>>>;

/// What `str::parse::<toml_edit::DocumentMut>` makes of a text: the
/// document's top-level items (as [`toml_document_items`]), or `None`
/// where it refuses the text.
pub uninterp spec fn toml_parsed(text: Seq<char>) -> Option<Map<Seq<char>, Option<Map<Seq<char>, Seq<char>>>>>;

/// The items of an empty document.
pub open spec fn no_document_items() -> Map<Seq<char>, Option<Map<Seq<char>, Seq<char>>>> {
    Map::empty()
}

/// The items of an empty table.
pub open spec fn no_table_items() -> Map<Seq<char>, Seq<char>> {
    Map::empty()
}

/// Whether `toml_edit` refuses the text as a TOML document.
pub open spec fn toml_rejects(text: Seq<char>) -> bool {
    toml_parsed(text) is None
}

/// `str::parse::<toml_edit::DocumentMut>`: the document, or the parse
/// error. Which texts it refuses, and the items of the document, are named
/// ([`toml_parsed`]), not stated.
#[verifier::external_body]
fn toml_parse(text: &str) -> (r: Result<toml_edit::DocumentMut, toml_edit::TomlError>)
    ensures
        match r {
            Ok(d) => toml_parsed(text@) == Some(toml_document_items(d)),
            Err(_) => toml_parsed(text@) is None,
        },
{
    text.parse::<toml_edit::DocumentMut>()
}

/// `toml_edit::DocumentMut::new`: an empty document.
#[verifier::external_body]
fn toml_new_document() -> (r: toml_edit::DocumentMut)
    ensures
        toml_document_items(r) == no_document_items(),
{
    toml_edit::DocumentMut::new()
}

/// The `Display` text of a `toml_edit::TomlError`; what it says is not stated.
#[verifier::external_body]
fn toml_error_message(e: &toml_edit::TomlError) -> (r: String) {
    e.to_string()
}

/// `toml_edit::DocumentMut::remove`: takes the item under `key` out of the
/// document, handed back where it is a table.
#[verifier::external_body]
fn toml_take_table(doc: &mut toml_edit::DocumentMut, key: &str) -> (r: Option<toml_edit::Table>)
    ensures
        toml_document_items(*final(doc)) == toml_document_items(*old(doc)).remove(key@),
        match r {
            Some(t) => toml_document_items(*old(doc)).contains_key(key@)
                && toml_document_items(*old(doc))[key@] == Some(toml_table_items(t)),
            None => !(toml_document_items(*old(doc)).contains_key(key@)
                && toml_document_items(*old(doc))[key@] is Some),
        },
{
    match doc.remove(key) {
        Some(toml_edit::Item::Table(t)) => Some(t),
        _ => None,
    }
}

/// `toml_edit::DocumentMut::get`: the item under `key`, where it is a table.
#[verifier::external_body]
fn toml_table_of<'a>(doc: &'a toml_edit::DocumentMut, key: &str) -> (r: Option<&'a toml_edit::Table>)
    ensures
        match r {
            Some(t) => toml_document_items(*doc).contains_key(key@)
                && toml_document_items(*doc)[key@] == Some(toml_table_items(*t)),
            None => !(toml_document_items(*doc).contains_key(key@) && toml_document_items(*doc)[key@] is Some),
        },
{
    doc.get(key).and_then(|i| i.as_table())
}

/// `toml_edit::DocumentMut::get_mut`: the item under `key`, where it is a
/// table, to change in place. What it hands back is not stated.
#[verifier::external_body]
fn toml_table_of_mut<'a>(doc: &'a mut toml_edit::DocumentMut, key: &str) -> (r: Option<&'a mut toml_edit::Table>) {
    doc.get_mut(key).and_then(|i| i.as_table_mut())
}

/// `toml_edit::Table::new`: an empty table.
#[verifier::external_body]
fn toml_new_table() -> (r: toml_edit::Table)
    ensures
        toml_table_items(r) == no_table_items(),
{
    toml_edit::Table::new()
}

/// `toml_edit::Table::set_implicit`: whether the table's header is left out
/// when it holds only subtables; its items stay.
#[verifier::external_body]
fn toml_set_implicit(t: &mut toml_edit::Table, implicit: bool)
    ensures
        toml_table_items(*final(t)) == toml_table_items(*old(t)),
{
    t.set_implicit(implicit)
}

/// `toml_edit::Table::get`: whether the table has an item under `key`.
#[verifier::external_body]
fn toml_has_key(t: &toml_edit::Table, key: &str) -> (r: bool)
    ensures
        r == toml_table_items(*t).contains_key(key@),
{
    t.get(key).is_some()
}

/// `toml_edit::Table::get` and the item's `Display`: the text of the item
/// under `key`, if any.
#[verifier::external_body]
fn toml_item_text(t: &toml_edit::Table, key: &str) -> (r: Option<String>)
    ensures
        match r {
            Some(s) => toml_table_items(*t).contains_key(key@) && s@ == toml_table_items(*t)[key@],
            None => !toml_table_items(*t).contains_key(key@),
        },
{
    t.get(key).map(|i| i.to_string())
}

/// `toml_edit` indexing: sets the item under `key` to the string `v`; the
/// other items stay, the new item's text is not stated.
#[verifier::external_body]
fn toml_set_string(t: &mut toml_edit::Table, key: &str, v: &str)
    ensures
        toml_table_items(*final(t)).contains_key(key@),
        toml_table_items(*final(t)).remove(key@) == toml_table_items(*old(t)).remove(key@),
{
    t[key] = toml_edit::value(v);
}

/// `toml_edit` indexing: sets the item under `key` to the array of the
/// strings `vs`, in order; the other items stay, the new item's text is not
/// stated.
#[verifier::external_body]
fn toml_set_strings(t: &mut toml_edit::Table, key: &str, vs: &[String])
    ensures
        toml_table_items(*final(t)).contains_key(key@),
        toml_table_items(*final(t)).remove(key@) == toml_table_items(*old(t)).remove(key@),
{
    let arr: toml_edit::Array = vs.iter().map(|a| a.as_str()).collect();
    t[key] = toml_edit::value(arr);
}

/// `toml_edit` indexing: sets the item under `key` to the table `v`; the
/// other items stay, the new item's text is not stated.
#[verifier::external_body]
fn toml_set_table(t: &mut toml_edit::Table, key: &str, v: toml_edit::Table)
    ensures
        toml_table_items(*final(t)).contains_key(key@),
        toml_table_items(*final(t)).remove(key@) == toml_table_items(*old(t)).remove(key@),
{
    t[key] = toml_edit::Item::Table(v);
}

/// `toml_edit` indexing on a document: sets the item under `key` to the
/// table `v`.
#[verifier::external_body]
fn toml_put_table(doc: &mut toml_edit::DocumentMut, key: &str, v: toml_edit::Table)
    ensures
        toml_document_items(*final(doc)) == toml_document_items(*old(doc)).insert(key@, Some(toml_table_items(v))),
{
    doc[key] = toml_edit::Item::Table(v);
}

/// `toml_edit::Table::remove`: removes the item under `key`.
#[verifier::external_body]
fn toml_remove_key(t: &mut toml_edit::Table, key: &str)
    ensures
        toml_table_items(*final(t)) == toml_table_items(*old(t)).remove(key@),
{
    t.remove(key);
}

/// The text of a table as an item (`Display` of `toml_edit::Item::Table`);
/// not stated, as a table's formatting is not modelled.
#[verifier::external_body]
fn toml_table_text(t: &toml_edit::Table) -> (r: String) {
    toml_edit::Item::Table(t.clone()).to_string()
}

/// The text of a document (`Display` of `toml_edit::DocumentMut`); not
/// stated, as a document's formatting is not modelled.
#[verifier::external_body]
fn toml_document_text(doc: &toml_edit::DocumentMut) -> (r: String) {
    doc.to_string()
}

/// Whether top-level items hold a `mcp_servers` table with a `codegraph`
/// item.
pub open spec fn declares_server(items: Map<Seq<char>, Option<Map<Seq<char>, Seq<char>>>>) -> bool {
    &&& items.contains_key("mcp_servers"@)
    &&& items["mcp_servers"@] is Some
    &&& items["mcp_servers"@]->0.contains_key(server_name())
}

/// Whether a Codex configuration text parses and registers the server.
pub open spec fn toml_declares_server(text: Seq<char>) -> bool {
    toml_parsed(text) matches Some(items) && declares_server(items)
}

/// The document a Codex install starts from: an empty one for an empty
/// text, else the parsed text.
pub open spec fn codex_start(text: Seq<char>) -> Option<Map<Seq<char>, Option<Map<Seq<char>, Seq<char>>>>> {
    if text.len() == 0 {
        Some(Map::empty())
    } else {
        toml_parsed(text)
    }
}

/// The instructions write of an install: where there is a path and the file
/// does not already hold the wanted text.
pub open spec fn agents_writes(
    agents: Option<Seq<char>>,
    existing: Option<Seq<char>>,
    want: Seq<char>,
) -> Seq<(Seq<char>, ContentV)> {
    match agents {
        Some(p) => if existing != Some(want) {
            seq![(p, ContentV::Text(want))]
        } else {
            Seq::empty()
        },
        None => Seq::empty(),
    }
}

/// The writes of a Codex install or uninstall: a text for the
/// configuration, where `must` holds and perhaps where it does not, then
/// the writes `rest`.
pub open spec fn codex_writes_shape(
    ws: Seq<(Seq<char>, ContentV)>,
    config: Seq<char>,
    rest: Seq<(Seq<char>, ContentV)>,
    must: bool,
) -> bool {
    ||| !must && ws == rest
    ||| exists|t: Seq<char>| ws == seq![(config, ContentV::Text(t))] + rest
}

/// The status of the Codex CLI from whether its configuration exists and,
/// where it could be read, its text: configured where the text registers the
/// server, found otherwise (a text that is not TOML included).
pub open spec fn codex_status(exists: bool, text: Option<Seq<char>>) -> DetectStatus {
    if !exists {
        DetectStatus::NotFound
    } else {
        match text {
            Some(t) => if toml_declares_server(t) {
                DetectStatus::AlreadyConfigured
            } else {
                DetectStatus::Found
            },
            None => DetectStatus::Found,
        }
    }
}

impl CodexTarget {
    /// The server arguments: `serve --mcp`, with `--path <root>` for a
    /// project install.
    pub fn server_args(&self, opts: &InstallOpts) -> (r: Vec<String>)
        ensures
            strings_view(r@) == codex_args(*opts),
    {
        let mut v: Vec<String> = Vec::new();
        v.push("serve".to_owned());
        v.push("--mcp".to_owned());
        match &opts.project_root {
            Some(root) => {
                v.push("--path".to_owned());
                v.push(root.clone());
            },
            None => {},
        }
        assert(strings_view(v@) =~= codex_args(*opts));
        v
    }

    /// The status of the Codex CLI from its configuration: not found where
    /// the file does not exist, found where it cannot be read or parsed or
    /// lacks the server, configured where the `mcp_servers` table holds it.
    pub fn status(&self, exists: bool, text: Option<&str>) -> (r: DetectStatus)
        ensures
            r == codex_status(exists, opt_str_view(text)),
    {
        if !exists {
            return DetectStatus::NotFound;
        }
        let t = match text {
            Some(t) => t,
            None => {
                return DetectStatus::Found;
            },
        };
        let doc = match toml_parse(t) {
            Ok(d) => d,
            Err(_) => {
                return DetectStatus::Found;
            },
        };
        match toml_table_of(&doc, "mcp_servers") {
            Some(servers) => if toml_has_key(servers, "codegraph") {
                DetectStatus::AlreadyConfigured
            } else {
                DetectStatus::Found
            },
            None => DetectStatus::Found,
        }
    }

    /// The server entry: a table with the command and its arguments.
    fn server_table(&self, opts: &InstallOpts) -> (r: toml_edit::Table) {
        let mut cg = toml_new_table();
        toml_set_string(&mut cg, "command", opts.binary_path.as_str());
        let args = self.server_args(opts);
        toml_set_strings(&mut cg, "args", args.as_slice());
        cg
    }

    /// The writes that install the server: `text` is the configuration's
    /// current text (empty when it cannot be read), `existing` the text of the
    /// instructions file. Fails without a configuration path, or where the
    /// configuration is not TOML, with `toml_edit`'s message. The
    /// configuration is written when its server entry, as text, differs from
    /// the wanted one, so always where it has none; its new text is rendered
    /// by `toml_edit` and not stated, nor is the wanted entry's text.
    pub fn install_plan(
        &self,
        opts: &InstallOpts,
        home: Option<&str>,
        text: &str,
        existing: Option<&str>,
        want: &str,
    ) -> (r: Result<Vec<PlannedWrite>, Error>)
        ensures
            match under(opt_str_view(home), seq![".codex"@, "config.toml"@]) {
                None => (r matches Err(Error::Invalid(m)) && m@ == "no codex config path"@),
                Some(c) => match codex_start(text@) {
                    None => r matches Err(Error::Parse(_)),
                    Some(items) => r is Ok && codex_writes_shape(
                        writes_view(r->Ok_0@),
                        c,
                        agents_writes(
                            under(opt_str_view(home), seq![".codex"@, "AGENTS.md"@]),
                            opt_str_view(existing),
                            want@,
                        ),
                        !declares_server(items),
                    ),
                },
            },
    {
        let config = match self.config_path(home) {
            None => {
                return Err(Error::Invalid("no codex config path".to_owned()));
            },
            Some(c) => c,
        };
        let mut doc = if text.is_empty() {
            proof {
                assert(text@.len() == 0);
            }
            toml_new_document()
        } else {
            match toml_parse(text) {
                Ok(d) => d,
                Err(e) => {
                    return Err(Error::Parse(toml_error_message(&e)));
                },
            }
        };
        let ghost items_start = toml_document_items(doc);
        let mut servers = match toml_take_table(&mut doc, "mcp_servers") {
            Some(t) => t,
            None => {
                let mut t = toml_new_table();
                toml_set_implicit(&mut t, true);
                t
            },
        };
        let cg = self.server_table(opts);
        let current = toml_item_text(&servers, "codegraph");
        assert(!declares_server(items_start) ==> current is None);
        let wanted = toml_table_text(&cg);
        let changed = match &current {
            Some(e) => content_differs(Some(e.as_str()), wanted.as_str()),
            None => true,
        };
        toml_set_table(&mut servers, "codegraph", cg);
        toml_put_table(&mut doc, "mcp_servers", servers);
        let ghost cv = config@;
        let ghost rest = agents_writes(
            under(opt_str_view(home), seq![".codex"@, "AGENTS.md"@]),
            opt_str_view(existing),
            want@,
        );
        let mut writes: Vec<PlannedWrite> = Vec::new();
        let ghost mut first: Seq<(Seq<char>, ContentV)> = Seq::empty();
        if changed {
            let rendered = toml_document_text(&doc);
            let ghost rv = rendered@;
            writes.push(PlannedWrite { path: config, content: FileContent::Text(rendered) });
            proof {
                first = seq![(cv, ContentV::Text(rv))];
            }
        }
        assert(writes_view(writes@) =~= first);
        match self.agents_path(home) {
            Some(md) => {
                if content_differs(existing, want) {
                    let ghost mv = md@;
                    writes.push(PlannedWrite { path: md, content: FileContent::Text(want.to_owned()) });
                    assert(writes_view(writes@) =~= first + seq![(mv, ContentV::Text(want@))]);
                } else {
                    assert(writes_view(writes@) =~= first + Seq::empty());
                }
            },
            None => {
                assert(writes_view(writes@) =~= first + Seq::empty());
            },
        }
        assert(writes_view(writes@) == first + rest);
        if changed {
            assert(first + rest == seq![(cv, ContentV::Text(first[0].1->Text_0))] + rest);
        } else {
            assert(first + rest =~= rest);
        }
        Ok(writes)
    }

    /// The writes that uninstall the server: none without a configuration
    /// path or text; the configuration, rendered by `toml_edit` without
    /// `mcp_servers.codegraph`, exactly where it held one (the rendered text
    /// is not stated). Fails where the configuration is not TOML, with
    /// `toml_edit`'s message.
    pub fn uninstall_plan(&self, home: Option<&str>, text: Option<&str>) -> (r: Result<Vec<PlannedWrite>, Error>)
        ensures
            match (under(opt_str_view(home), seq![".codex"@, "config.toml"@]), opt_str_view(text)) {
                (Some(c), Some(t)) => if toml_rejects(t) {
                    r matches Err(Error::Parse(_))
                } else if toml_declares_server(t) {
                    r is Ok && codex_writes_shape(writes_view(r->Ok_0@), c, Seq::empty(), true)
                } else {
                    r is Ok && r->Ok_0@.len() == 0
                },
                _ => r is Ok && r->Ok_0@.len() == 0,
            },
    {
        let mut writes: Vec<PlannedWrite> = Vec::new();
        let config = match self.config_path(home) {
            None => {
                return Ok(writes);
            },
            Some(c) => c,
        };
        let t = match text {
            None => {
                return Ok(writes);
            },
            Some(t) => t,
        };
        let mut doc = match toml_parse(t) {
            Ok(d) => d,
            Err(e) => {
                return Err(Error::Parse(toml_error_message(&e)));
            },
        };
        let changed = match toml_table_of(&doc, "mcp_servers") {
            Some(servers) => toml_has_key(servers, "codegraph"),
            None => false,
        };
        if changed {
            match toml_table_of_mut(&mut doc, "mcp_servers") {
                Some(servers) => toml_remove_key(servers, "codegraph"),
                None => {},
            }
        }
        if changed {
            let rendered = toml_document_text(&doc);
            let ghost cv = config@;
            let ghost uv = rendered@;
            writes.push(PlannedWrite { path: config, content: FileContent::Text(rendered) });
            assert(writes_view(writes@) =~= seq![(cv, ContentV::Text(uv))]);
            assert(writes_view(writes@) =~= seq![(cv, ContentV::Text(uv))] + Seq::<(Seq<char>, ContentV)>::empty());
        } else {
            assert(writes_view(writes@) =~= Seq::<(Seq<char>, ContentV)>::empty());
        }
        Ok(writes)
    }
}

} // verus!
