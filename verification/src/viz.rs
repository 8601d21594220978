//! The graph visualization server's settings and the rules by which it
//! serves its web UI.

use vstd::prelude::*;
use crate::text::{chars_of, string_of};

verus! {

/// What the web UI opens on: a target symbol or path prefix, and a depth.
#[derive(Debug)]
pub struct BootConfig {
    pub target: Option<String>,
    pub prefix: Option<String>,
    pub depth: u32,
}

/// Settings of the visualization server.
#[derive(Debug)]
pub struct VizConfig {
    pub port: u16,
    pub open_browser: bool,
    pub boot: BootConfig,
}

/// Whether `s` ends with `t`.
pub open spec fn has_suffix(s: Seq<char>, t: Seq<char>) -> bool {
    t.len() <= s.len() && s.subrange(s.len() - t.len(), s.len() as int) == t
}

fn ends_with(s: &Vec<char>, t: &str) -> (r: bool)
    ensures
        r == has_suffix(s@, t@),
{
    let tv = chars_of(t);
    if tv.len() > s.len() {
        return false;
    }
    let off = s.len() - tv.len();
    let mut k: usize = 0;
    while k < tv.len()
        invariant
            tv@ == t@,
            off + tv.len() == s.len(),
            0 <= k <= tv.len(),
            forall|j: int| 0 <= j < k ==> s@[off + j] == tv@[j],
        decreases tv.len() - k,
    {
        if s[off + k] != tv[k] {
            assert(s@.subrange(off as int, s@.len() as int)[k as int] != tv@[k as int]);
            return false;
        }
        k = k + 1;
    }
    assert(s@.subrange(off as int, s@.len() as int) =~= tv@);
    true
}

/// The content type served for an asset path, by its extension.
pub open spec fn content_type_of(path: Seq<char>) -> Seq<char> {
    if has_suffix(path, ".html"@) {
        "text/html; charset=utf-8"@
    } else if has_suffix(path, ".js"@) {
        "application/javascript; charset=utf-8"@
    } else if has_suffix(path, ".css"@) {
        "text/css; charset=utf-8"@
    } else {
        "application/octet-stream"@
    }
}

/// The content type served for an asset path, by its extension.
pub fn content_type(path: &str) -> (r: &'static str)
    ensures
        r@ == content_type_of(path@),
{
    let p = chars_of(path);
    if ends_with(&p, ".html") {
        "text/html; charset=utf-8"
    } else if ends_with(&p, ".js") {
        "application/javascript; charset=utf-8"
    } else if ends_with(&p, ".css") {
        "text/css; charset=utf-8"
    } else {
        "application/octet-stream"
    }
}

/// `s` without its leading `/` characters.
pub open spec fn trim_slashes(s: Seq<char>) -> Seq<char>
    decreases s.len(),
{
    if s.len() > 0 && s[0] == '/' {
        trim_slashes(s.drop_first())
    } else {
        s
    }
}

/// The asset that a request path names: the path without its leading
/// slashes, or `index.html` for the root.
pub open spec fn asset_path_of(uri_path: Seq<char>) -> Seq<char> {
    if trim_slashes(uri_path).len() == 0 {
        "index.html"@
    } else {
        trim_slashes(uri_path)
    }
}

/// The asset that a request path names.
pub fn asset_path(uri_path: &str) -> (r: String)
    ensures
        r@ == asset_path_of(uri_path@),
{
    let v = chars_of(uri_path);
    let mut i: usize = 0;
    assert(v@.subrange(0, v@.len() as int) =~= v@);
    while i < v.len() && v[i] == '/'
        invariant
            0 <= i <= v.len(),
            trim_slashes(v@) == trim_slashes(v@.subrange(i as int, v@.len() as int)),
        decreases v.len() - i,
    {
        assert(v@.subrange(i as int, v@.len() as int).drop_first() =~= v@.subrange(i + 1, v@.len() as int));
        i = i + 1;
    }
    if i == v.len() {
        return "index.html".to_owned();
    }
    let mut rest: Vec<char> = Vec::new();
    let mut k: usize = i;
    while k < v.len()
        invariant
            0 <= i <= k <= v.len(),
            rest@ == v@.subrange(i as int, k as int),
        decreases v.len() - k,
    {
        rest.push(v[k]);
        assert(v@.subrange(i as int, k + 1) =~= v@.subrange(i as int, k as int).push(v@[k as int]));
        k = k + 1;
    }
    string_of(&rest)
}

/// How the server answers a request for a static asset.
#[derive(Debug, PartialEq, Eq)]
pub enum StaticResponse {
    /// The asset itself, with its content type.
    Asset(&'static str),
    /// The UI's `index.html`, for an application route.
    Index,
    /// Nothing here.
    NotFound,
}

/// How the server answers for asset `path` (see [`asset_path`]): the asset
/// where it exists; else, for a path without a `.`, the UI's index page where
/// it exists; else not found.
pub fn static_response(path: &str, asset_found: bool, index_found: bool) -> (r: StaticResponse)
    ensures
        asset_found ==> (r matches StaticResponse::Asset(t) && t@ == content_type_of(path@)),
        !asset_found ==> r == if !path@.contains('.') && index_found {
            StaticResponse::Index
        } else {
            StaticResponse::NotFound
        },
{
    if asset_found {
        return StaticResponse::Asset(content_type(path));
    }
    let v = chars_of(path);
    let mut k: usize = 0;
    while k < v.len()
        invariant
            0 <= k <= v.len(),
            v@ == path@,
            !asset_found,
            forall|j: int| 0 <= j < k ==> v@[j] != '.',
        decreases v.len() - k,
    {
        if v[k] == '.' {
            assert(v@[k as int] == '.');
            assert(path@.contains('.'));
            return StaticResponse::NotFound;
        }
        k = k + 1;
    }
    if index_found {
        StaticResponse::Index
    } else {
        StaticResponse::NotFound
    }
}

} // verus!
