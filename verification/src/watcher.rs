//! Which file-system events make the watcher sync a path again.

use vstd::prelude::*;

verus! {

/// A path named by a file-system event: its text where it is UTF-8, and
/// whether the workspace's `.gitignore` ignores it.
#[derive(Debug)]
pub struct WatchPath {
    pub path: Option<String>,
    pub gitignored: bool,
}

/// A file-system event: whether it asks for a full rescan, and its paths.
#[derive(Debug)]
pub struct WatchEvent {
    pub need_rescan: bool,
    pub paths: Vec<WatchPath>,
}

/// Whether `base` is a prefix of `path` by whole components, as
/// `camino::Utf8Path::starts_with` decides it.
pub uninterp spec fn path_has_prefix(path: Seq<char>, base: Seq<char>) -> bool;

/// `camino::Utf8Path::starts_with`: whether `base` is a prefix of `path`,
/// by whole components; a function of the two texts alone.
#[verifier::external_body]
fn path_starts_with(path: &str, base: &str) -> (r: bool)
    ensures
        r == path_has_prefix(path@, base@),
{
    camino::Utf8Path::new(path).starts_with(base)
}

/// Whether `p` lies under one of the directories `dirs`.
pub open spec fn under_any(p: Seq<char>, dirs: Seq<String>) -> bool {
    exists|i: int| 0 <= i < dirs.len() && path_has_prefix(p, #[trigger] dirs[i]@)
}

/// Whether an event's path is to be synced: it is UTF-8, not under an
/// ignored directory, not ignored by `.gitignore`, and under the root.
pub open spec fn relevant(w: WatchPath, root: Seq<char>, dirs: Seq<String>) -> bool {
    &&& w.path is Some
    &&& !under_any(w.path->0@, dirs)
    &&& !w.gitignored
    &&& path_has_prefix(w.path->0@, root)
}

/// The relevant paths among `ws`, in order.
pub open spec fn relevant_in(ws: Seq<WatchPath>, root: Seq<char>, dirs: Seq<String>) -> Seq<Seq<char>>
    decreases ws.len(),
{
    if ws.len() == 0 {
        Seq::empty()
    } else {
        let before = relevant_in(ws.drop_last(), root, dirs);
        if relevant(ws.last(), root, dirs) {
            before.push(ws.last().path->0@)
        } else {
            before
        }
    }
}

/// The relevant paths of the events `evs`, in order; events that ask for a
/// full rescan are passed over.
pub open spec fn relevant_of(evs: Seq<WatchEvent>, root: Seq<char>, dirs: Seq<String>) -> Seq<Seq<char>>
    decreases evs.len(),
{
    if evs.len() == 0 {
        Seq::empty()
    } else {
        let before = relevant_of(evs.drop_last(), root, dirs);
        if evs.last().need_rescan {
            before
        } else {
            before + relevant_in(evs.last().paths@, root, dirs)
        }
    }
}

fn under_any_exec(p: &str, dirs: &[String]) -> (r: bool)
    ensures
        r == under_any(p@, dirs@),
{
    let mut i: usize = 0;
    while i < dirs.len()
        invariant
            0 <= i <= dirs@.len(),
            forall|k: int| 0 <= k < i ==> !path_has_prefix(p@, #[trigger] dirs@[k]@),
        decreases dirs@.len() - i,
    {
        if path_starts_with(p, dirs[i].as_str()) {
            return true;
        }
        i = i + 1;
    }
    false
}

fn is_relevant(w: &WatchPath, root: &str, dirs: &[String]) -> (r: bool)
    ensures
        r == relevant(*w, root@, dirs@),
{
    match &w.path {
        None => false,
        Some(p) => !under_any_exec(p.as_str(), dirs) && !w.gitignored && path_starts_with(p.as_str(), root),
    }
}

fn copy_string(s: &String) -> (r: String)
    ensures
        r@ == s@,
{
    s.clone()
}

/// The paths of `events` that the watcher syncs again, in event order, with
/// repeats: events asking for a full rescan are passed over, and so are paths
/// that are not UTF-8, lie under one of `ignored_dirs`, are ignored by
/// `.gitignore`, or lie outside `root`.
pub fn relevant_paths(events: &[WatchEvent], root: &str, ignored_dirs: &[String]) -> (r: Vec<String>)
    ensures
        r@.map_values(|s: String| s@) == relevant_of(events@, root@, ignored_dirs@),
{
    let mut out: Vec<String> = Vec::new();
    let mut i: usize = 0;
    while i < events.len()
        invariant
            0 <= i <= events@.len(),
            out@.map_values(|s: String| s@) == relevant_of(events@.take(i as int), root@, ignored_dirs@),
        decreases events@.len() - i,
    {
        let ev = &events[i];
        let ghost before = out@.map_values(|s: String| s@);
        proof {
            assert(events@.take(i + 1).drop_last() =~= events@.take(i as int));
        }
        if !ev.need_rescan {
            let mut j: usize = 0;
            while j < ev.paths.len()
                invariant
                    0 <= j <= ev.paths@.len(),
                    out@.map_values(|s: String| s@) == before + relevant_in(
                        ev.paths@.take(j as int),
                        root@,
                        ignored_dirs@,
                    ),
                decreases ev.paths@.len() - j,
            {
                let w = &ev.paths[j];
                proof {
                    assert(ev.paths@.take(j + 1).drop_last() =~= ev.paths@.take(j as int));
                }
                if is_relevant(w, root, ignored_dirs) {
                    match &w.path {
                        Some(p) => {
                            let ghost o = out@.map_values(|s: String| s@);
                            out.push(copy_string(p));
                            assert(out@.map_values(|s: String| s@) =~= o.push(p@));
                        },
                        None => {},
                    }
                }
                j = j + 1;
            }
            assert(ev.paths@.take(ev.paths@.len() as int) =~= ev.paths@);
        }
        i = i + 1;
    }
    assert(events@.take(events@.len() as int) =~= events@);
    out
}

} // verus!
