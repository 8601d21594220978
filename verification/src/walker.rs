//! Choosing the extractor for each file of a project: by extension, with the
//! C/C++ header rules for `.h` files.

use vstd::prelude::*;
use vstd::utf8::*;
use vstd::string::StringSliceAdditionalSpecFns;
use crate::config::{ExtractConfig, HeaderLanguage, has_cpp_marker, header_sample, is_cpp_header, sample_len};
use crate::text::str_eq;

verus! {

broadcast use vstd::utf8::group_utf8_lib;

/// What the walker knows of a language extractor: its language name and the
/// file extensions it handles.
pub struct ExtractorInfo {
    pub language: String,
    pub extensions: Vec<String>,
}

/// Whether extractor `x` handles extension `e`.
pub open spec fn has_ext(x: ExtractorInfo, e: Seq<char>) -> bool {
    exists|j: int| 0 <= j < x.extensions@.len() && (#[trigger] x.extensions@[j])@ == e
}

/// The last of the first `n` extractors that handles extension `e`.
pub open spec fn last_owner(xs: Seq<ExtractorInfo>, e: Seq<char>, n: int) -> Option<usize>
    decreases n,
{
    if n <= 0 {
        None
    } else if has_ext(xs[n - 1], e) {
        Some((n - 1) as usize)
    } else {
        last_owner(xs, e, n - 1)
    }
}

/// The extractor registered for extension `e`: the last one that names it.
pub open spec fn ext_owner(xs: Seq<ExtractorInfo>, e: Seq<char>) -> Option<usize> {
    last_owner(xs, e, xs.len() as int)
}

/// The first extractor whose language is `lang`.
pub open spec fn first_with_language(xs: Seq<ExtractorInfo>, lang: Seq<char>) -> Option<usize> {
    if exists|i: int| 0 <= i < xs.len() && (#[trigger] xs[i]).language@ == lang {
        let i = choose|i: int|
            0 <= i < xs.len() && (#[trigger] xs[i]).language@ == lang && forall|k: int|
                0 <= k < i ==> (#[trigger] xs[k]).language@ != lang;
        Some(i as usize)
    } else {
        None
    }
}

pub open spec fn keys_distinct(es: Seq<(String, usize)>) -> bool {
    forall|a: int, b: int| 0 <= a < b < es.len() ==> (#[trigger] es[a]).0@ != (#[trigger] es[b]).0@
}

pub open spec fn entry_lookup(es: Seq<(String, usize)>, e: Seq<char>) -> Option<usize> {
    if exists|k: int| 0 <= k < es.len() && (#[trigger] es[k]).0@ == e {
        let k = choose|k: int| 0 <= k < es.len() && (#[trigger] es[k]).0@ == e;
        Some(es[k].1)
    } else {
        None
    }
}

proof fn lemma_lookup_at(es: Seq<(String, usize)>, k: int)
    requires
        keys_distinct(es),
        0 <= k < es.len(),
    ensures
        entry_lookup(es, es[k].0@) == Some(es[k].1),
{
    let e = es[k].0@;
    assert(exists|k2: int| 0 <= k2 < es.len() && (#[trigger] es[k2]).0@ == e);
    let c = choose|k2: int| 0 <= k2 < es.len() && (#[trigger] es[k2]).0@ == e;
    if c < k {
        assert(es[c].0@ != es[k].0@);
    } else if c > k {
        assert(es[k].0@ != es[c].0@);
    }
}

/// Extension-to-extractor map: each extension names the index of the
/// extractor that handles it.
pub struct ExtMap {
    entries: Vec<(String, usize)>,
}

impl ExtMap {
    #[verifier::type_invariant]
    closed spec fn wf(&self) -> bool {
        keys_distinct(self.entries@)
    }

    /// The extractor registered for extension `e`.
    pub closed spec fn lookup(&self, e: Seq<char>) -> Option<usize> {
        entry_lookup(self.entries@, e)
    }

    /// The extractor registered for extension `ext`.
    pub fn get(&self, ext: &str) -> (r: Option<usize>)
        ensures
            r == self.lookup(ext@),
    {
        proof {
            use_type_invariant(self);
        }
        let mut k: usize = 0;
        while k < self.entries.len()
            invariant
                0 <= k <= self.entries.len(),
                keys_distinct(self.entries@),
                forall|j: int| 0 <= j < k ==> (#[trigger] self.entries@[j]).0@ != ext@,
            decreases self.entries.len() - k,
        {
            if str_eq(self.entries[k].0.as_str(), ext) {
                proof {
                    lemma_lookup_at(self.entries@, k as int);
                }
                return Some(self.entries[k].1);
            }
            k = k + 1;
        }
        None
    }
}

/// The owner of `e` after the extensions `0..j` of extractor `i` were registered
/// on top of all of extractors `0..i`.
pub open spec fn owner_upto(xs: Seq<ExtractorInfo>, i: int, j: int, e: Seq<char>) -> Option<usize> {
    if exists|j2: int| 0 <= j2 < j && (#[trigger] xs[i].extensions@[j2])@ == e {
        Some(i as usize)
    } else {
        last_owner(xs, e, i)
    }
}

fn find_key(es: &Vec<(String, usize)>, ext: &str) -> (r: Option<usize>)
    ensures
        match r {
            Some(k) => k < es@.len() && es@[k as int].0@ == ext@,
            None => forall|j: int| 0 <= j < es@.len() ==> (#[trigger] es@[j]).0@ != ext@,
        },
{
    let mut k: usize = 0;
    while k < es.len()
        invariant
            0 <= k <= es.len(),
            forall|j: int| 0 <= j < k ==> (#[trigger] es@[j]).0@ != ext@,
        decreases es.len() - k,
    {
        if str_eq(es[k].0.as_str(), ext) {
            return Some(k);
        }
        k = k + 1;
    }
    None
}

fn register(es: &mut Vec<(String, usize)>, ext: &String, idx: usize)
    requires
        keys_distinct(old(es)@),
    ensures
        keys_distinct(final(es)@),
        forall|e: Seq<char>|
            #![trigger entry_lookup(final(es)@, e)]
            entry_lookup(final(es)@, e) == if e == ext@ {
                Some(idx)
            } else {
                entry_lookup(old(es)@, e)
            },
{
    let ghost old_es = es@;
    let found = find_key(es, ext.as_str());
    let ghost pos: int;
    match found {
        Some(k) => {
            let key = es[k].0.clone();
            es.set(k, (key, idx));
            proof {
                pos = k as int;
            }
        },
        None => {
            es.push((ext.clone(), idx));
            proof {
                pos = old_es.len() as int;
            }
        },
    }
    proof {
        let n = old_es.len();
        assert(0 <= pos < es@.len());
        assert(es@[pos].0@ == ext@ && es@[pos].1 == idx);
        assert(forall|j: int| 0 <= j < n && j != pos ==> es@[j] == old_es[j]);
        assert(found is None ==> es@.len() == n + 1);
        assert(found is Some ==> es@.len() == n);
        assert(keys_distinct(es@)) by {
            assert forall|a: int, b: int| 0 <= a < b < es@.len() implies (#[trigger] es@[a]).0@
                != (#[trigger] es@[b]).0@ by {
                if a != pos && b != pos {
                    assert(old_es[a].0@ != old_es[b].0@);
                } else if found is Some {
                    assert(old_es[a].0@ != old_es[b].0@);
                }
            }
        }
        assert forall|e: Seq<char>| #[trigger]
            entry_lookup(es@, e) == if e == ext@ {
                Some(idx)
            } else {
                entry_lookup(old_es, e)
            } by {
            if e == ext@ {
                lemma_lookup_at(es@, pos);
            } else if exists|k2: int| 0 <= k2 < old_es.len() && (#[trigger] old_es[k2]).0@ == e {
                let k2 = choose|k2: int| 0 <= k2 < old_es.len() && (#[trigger] old_es[k2]).0@ == e;
                lemma_lookup_at(old_es, k2);
                lemma_lookup_at(es@, k2);
            } else {
                assert(!exists|k2: int| 0 <= k2 < es@.len() && (#[trigger] es@[k2]).0@ == e) by {
                    if exists|k2: int| 0 <= k2 < es@.len() && (#[trigger] es@[k2]).0@ == e {
                        let k2 = choose|k2: int| 0 <= k2 < es@.len() && (#[trigger] es@[k2]).0@ == e;
                        assert(k2 != pos);
                        assert(old_es[k2].0@ == e);
                    }
                }
            }
        }
    }
}

/// Maps each extension to the extractor that handles it; where two extractors
/// name the same extension, the later one wins.
pub fn build_ext_map(extractors: &[ExtractorInfo]) -> (m: ExtMap)
    ensures
        forall|e: Seq<char>| #[trigger] m.lookup(e) == ext_owner(extractors@, e),
{
    let mut es: Vec<(String, usize)> = Vec::new();
    let mut i: usize = 0;
    while i < extractors.len()
        invariant
            0 <= i <= extractors.len(),
            keys_distinct(es@),
            forall|e: Seq<char>| #[trigger] entry_lookup(es@, e) == last_owner(extractors@, e, i as int),
        decreases extractors.len() - i,
    {
        let x = &extractors[i];
        let mut j: usize = 0;
        while j < x.extensions.len()
            invariant
                0 <= i < extractors.len(),
                *x == extractors@[i as int],
                0 <= j <= x.extensions.len(),
                keys_distinct(es@),
                forall|e: Seq<char>| #[trigger]
                    entry_lookup(es@, e) == owner_upto(extractors@, i as int, j as int, e),
            decreases x.extensions.len() - j,
        {
            register(&mut es, &x.extensions[j], i);
            proof {
                assert forall|e: Seq<char>| #[trigger]
                    entry_lookup(es@, e) == owner_upto(extractors@, i as int, j + 1, e) by {
                    if e == x.extensions@[j as int]@ {
                        assert(extractors@[i as int].extensions@[j as int]@ == e);
                    } else {
                        if exists|j2: int| 0 <= j2 < j + 1 && (#[trigger] extractors@[i as int].extensions@[j2])@ == e {
                            let j2 = choose|j2: int| 0 <= j2 < j + 1 && (#[trigger] extractors@[i as int].extensions@[j2])@ == e;
                            assert(j2 < j);
                        }
                    }
                }
            }
            j = j + 1;
        }
        proof {
            assert forall|e: Seq<char>| #[trigger]
                entry_lookup(es@, e) == last_owner(extractors@, e, i + 1) by {
                if has_ext(extractors@[i as int], e) {
                    let j2 = choose|j2: int| 0 <= j2 < extractors@[i as int].extensions@.len() && (#[trigger] extractors@[i as int].extensions@[j2])@ == e;
                    assert(owner_upto(extractors@, i as int, j as int, e) == Some(i));
                } else {
                    if exists|j2: int| 0 <= j2 < j && (#[trigger] extractors@[i as int].extensions@[j2])@ == e {
                        let j2 = choose|j2: int| 0 <= j2 < j && (#[trigger] extractors@[i as int].extensions@[j2])@ == e;
                        assert(has_ext(extractors@[i as int], e));
                    }
                }
            }
        }
        i = i + 1;
    }
    ExtMap { entries: es }
}

/// The first extractor for language `lang`.
pub fn find_extractor(extractors: &[ExtractorInfo], lang: &str) -> (r: Option<usize>)
    ensures
        r == first_with_language(extractors@, lang@),
{
    let mut i: usize = 0;
    while i < extractors.len()
        invariant
            0 <= i <= extractors.len(),
            forall|k: int| 0 <= k < i ==> (#[trigger] extractors@[k]).language@ != lang@,
        decreases extractors.len() - i,
    {
        if str_eq(extractors[i].language.as_str(), lang) {
            proof {
                let w = choose|w: int|
                    0 <= w < extractors@.len() && (#[trigger] extractors@[w]).language@ == lang@
                        && forall|k: int| 0 <= k < w ==> (#[trigger] extractors@[k]).language@ != lang@;
                if w < i {
                } else if w > i {
                    assert(extractors@[i as int].language@ != lang@);
                }
            }
            return Some(i);
        }
        i = i + 1;
    }
    None
}

/// Options of a walk: the configuration, the project-wide header hint, and
/// the C and C++ extractors where there are any.
pub struct WalkOptions {
    pub config: ExtractConfig,
    pub project_hint: Option<HeaderLanguage>,
    pub c_extractor: Option<usize>,
    pub cpp_extractor: Option<usize>,
}

/// The walk options for these extractors and settings; the project hint is
/// kept only when the configured header language is `Auto`.
pub fn walk_options(
    extractors: &[ExtractorInfo],
    config: &ExtractConfig,
    project_hint: Option<HeaderLanguage>,
) -> (o: WalkOptions)
    ensures
        o.config == *config,
        o.project_hint == if config.header_language == HeaderLanguage::Auto {
            project_hint
        } else {
            None
        },
        o.c_extractor == first_with_language(extractors@, "c"@),
        o.cpp_extractor == first_with_language(extractors@, "cpp"@),
{
    let hint = if config.header_language == HeaderLanguage::Auto {
        project_hint
    } else {
        None
    };
    WalkOptions {
        config: *config,
        project_hint: hint,
        c_extractor: find_extractor(extractors, "c"),
        cpp_extractor: find_extractor(extractors, "cpp"),
    }
}

/// Whether the first 8 KiB of a header's bytes are UTF-8 text with a C++ marker.
pub open spec fn bytes_look_cpp(header: Option<Seq<u8>>) -> bool {
    match header {
        None => false,
        Some(b) => {
            let s = b.subrange(0, sample_len(b.len() as int));
            valid_utf8(s) && has_cpp_marker(decode_utf8(s))
        },
    }
}

/// The extractor of a `.h` file.
pub open spec fn header_choice(opts: WalkOptions, header: Option<Seq<u8>>) -> Option<usize> {
    match (opts.c_extractor, opts.cpp_extractor) {
        (None, None) => None,
        (Some(c), None) => Some(c),
        (None, Some(p)) => Some(p),
        (Some(c), Some(p)) => Some(
            match opts.config.header_language {
                HeaderLanguage::C => c,
                HeaderLanguage::Cpp => p,
                HeaderLanguage::Auto => match opts.project_hint {
                    Some(HeaderLanguage::C) => c,
                    Some(HeaderLanguage::Cpp) => p,
                    _ => if bytes_look_cpp(header) {
                        p
                    } else {
                        c
                    },
                },
            },
        ),
    }
}

pub open spec fn bytes_view(b: Option<&[u8]>) -> Option<Seq<u8>> {
    match b {
        None => None,
        Some(s) => Some(s@),
    }
}

/// `std::str::from_utf8`: the text of the bytes exactly when they are valid UTF-8.
#[verifier::external_body]
pub(crate) fn utf8_text(bytes: &[u8]) -> (r: Option<&str>)
    ensures
        match r {
            Some(s) => valid_utf8(bytes@) && s.spec_bytes() == bytes@,
            None => !valid_utf8(bytes@),
        },
{
    std::str::from_utf8(bytes).ok()
}

/// Whether a header's bytes look like C++: the first 8 KiB must be UTF-8 text
/// that holds one of the C++ markers.
pub fn header_looks_like_cpp(header: Option<&[u8]>) -> (r: bool)
    ensures
        r == bytes_look_cpp(bytes_view(header)),
{
    match header {
        None => false,
        Some(bytes) => {
            let n = bytes.len();
            let m: usize = if n < 8192 { n } else { 8192 };
            let (sample, _rest) = bytes.split_at(m);
            match utf8_text(sample) {
                None => false,
                Some(text) => {
                    proof {
                        assert(text@ == decode_utf8(sample@));
                        assert(text.spec_bytes().len() <= 8192);
                        assert(text.spec_bytes().subrange(0, sample_len(text.spec_bytes().len() as int))
                            =~= text.spec_bytes());
                    }
                    is_cpp_header(text)
                },
            }
        },
    }
}

/// The extractor of a `.h` file, from the C and C++ extractors and the
/// header rules: the configured language, else the project hint, else the
/// file's content.
pub fn resolve_header_extractor(opts: &WalkOptions, header: Option<&[u8]>) -> (r: Option<usize>)
    requires
        opts.project_hint != Some(HeaderLanguage::Auto),
    ensures
        r == header_choice(*opts, bytes_view(header)),
{
    match (opts.c_extractor, opts.cpp_extractor) {
        (None, None) => None,
        (Some(c), None) => Some(c),
        (None, Some(p)) => Some(p),
        (Some(c), Some(p)) => {
            let chosen = match opts.config.header_language {
                HeaderLanguage::C => c,
                HeaderLanguage::Cpp => p,
                HeaderLanguage::Auto => match opts.project_hint {
                    Some(HeaderLanguage::C) => c,
                    Some(HeaderLanguage::Cpp) => p,
                    _ => if header_looks_like_cpp(header) {
                        p
                    } else {
                        c
                    },
                },
            };
            Some(chosen)
        },
    }
}

/// The extension of a path's file name, as `camino::Utf8Path::extension`
/// gives it.
pub uninterp spec fn path_extension_of(path: Seq<char>) -> Option<Seq<char>>;

pub open spec fn opt_string_view(o: Option<String>) -> Option<Seq<char>> {
    match o {
        None => None,
        Some(s) => Some(s@),
    }
}

/// `camino::Utf8Path::extension` of the path; its result is a function of the
/// path's text alone.
#[verifier::external_body]
fn path_extension(path: &str) -> (r: Option<String>)
    ensures
        opt_string_view(r) == path_extension_of(path@),
{
    camino::Utf8Path::new(path).extension().map(|e| e.to_string())
}

/// The extractor of a file whose extension is `ext`.
pub open spec fn choice_for(
    ext: Option<Seq<char>>,
    lookup: Option<usize>,
    opts: WalkOptions,
    header: Option<Seq<u8>>,
) -> Option<usize> {
    match ext {
        None => None,
        Some(e) => if e == "h"@ {
            header_choice(opts, header)
        } else {
            lookup
        },
    }
}

/// Matches one path against the extractor registry, as an incremental sync
/// does for the paths that changed. `header` holds the file's bytes where the
/// caller read them.
pub fn match_extractor(path: &str, ext_map: &ExtMap, opts: &WalkOptions, header: Option<&[u8]>) -> (r: Option<usize>)
    requires
        opts.project_hint != Some(HeaderLanguage::Auto),
    ensures
        r == match path_extension_of(path@) {
            None => None,
            Some(e) => choice_for(Some(e), ext_map.lookup(e), *opts, bytes_view(header)),
        },
{
    match path_extension(path) {
        None => None,
        Some(ext) => {
            if str_eq(ext.as_str(), "h") {
                resolve_header_extractor(opts, header)
            } else {
                ext_map.get(ext.as_str())
            }
        },
    }
}

/// A file found by a directory walk, with the bytes read from it where it is
/// a header.
pub struct WalkedFile {
    pub path: String,
    pub header: Option<Vec<u8>>,
}

/// A file and the index of the extractor that handles it.
pub struct FileMatch {
    pub path: String,
    pub extractor: usize,
}

pub open spec fn header_view(h: Option<Vec<u8>>) -> Option<Seq<u8>> {
    match h {
        None => None,
        Some(v) => Some(v@),
    }
}

/// The extractor that a walk assigns to a file, if any.
pub open spec fn file_choice(f: WalkedFile, xs: Seq<ExtractorInfo>, opts: WalkOptions) -> Option<usize> {
    match path_extension_of(f.path@) {
        None => None,
        Some(e) => choice_for(Some(e), ext_owner(xs, e), opts, header_view(f.header)),
    }
}

/// The matches of a walk over `files`, in order.
pub open spec fn walk_matches(files: Seq<WalkedFile>, xs: Seq<ExtractorInfo>, opts: WalkOptions) -> Seq<(Seq<char>, usize)>
    decreases files.len(),
{
    if files.len() == 0 {
        seq![]
    } else {
        let before = walk_matches(files.drop_last(), xs, opts);
        match file_choice(files.last(), xs, opts) {
            None => before,
            Some(x) => before.push((files.last().path@, x)),
        }
    }
}

pub open spec fn match_views(ms: Seq<FileMatch>) -> Seq<(Seq<char>, usize)> {
    ms.map_values(|m: FileMatch| (m.path@, m.extractor))
}

/// Assigns extractors to the files found by a directory walk: files whose
/// extension no extractor handles are left out.
pub fn walk(
    files: &[WalkedFile],
    extractors: &[ExtractorInfo],
    config: &ExtractConfig,
    project_hint: Option<HeaderLanguage>,
) -> (r: Vec<FileMatch>)
    requires
        project_hint != Some(HeaderLanguage::Auto),
    ensures
        match_views(r@) == walk_matches(
            files@,
            extractors@,
            walk_options_spec(extractors@, *config, project_hint),
        ),
{
    let ext_map = build_ext_map(extractors);
    let opts = walk_options(extractors, config, project_hint);
    let ghost o = walk_options_spec(extractors@, *config, project_hint);
    assert(opts == o);
    let mut out: Vec<FileMatch> = Vec::new();
    let mut i: usize = 0;
    while i < files.len()
        invariant
            0 <= i <= files.len(),
            opts == o,
            o.project_hint != Some(HeaderLanguage::Auto),
            forall|e: Seq<char>| #[trigger] ext_map.lookup(e) == ext_owner(extractors@, e),
            match_views(out@) == walk_matches(files@.take(i as int), extractors@, o),
        decreases files.len() - i,
    {
        let f = &files[i];
        let header: Option<&[u8]> = match &f.header {
            Some(v) => Some(v.as_slice()),
            None => None,
        };
        assert(bytes_view(header) == header_view(f.header));
        let chosen = match_extractor(f.path.as_str(), &ext_map, &opts, header);
        proof {
            assert(files@.take(i + 1).drop_last() =~= files@.take(i as int));
            assert(chosen == file_choice(files@[i as int], extractors@, o));
        }
        match chosen {
            None => {},
            Some(x) => {
                let ghost before = out@;
                out.push(FileMatch { path: f.path.clone(), extractor: x });
                proof {
                    assert(match_views(out@) =~= match_views(before).push((f.path@, x)));
                }
            },
        }
        i = i + 1;
    }
    assert(files@.take(files@.len() as int) =~= files@);
    out
}

/// The walk options that `walk_options` builds.
pub open spec fn walk_options_spec(
    xs: Seq<ExtractorInfo>,
    config: ExtractConfig,
    project_hint: Option<HeaderLanguage>,
) -> WalkOptions {
    WalkOptions {
        config,
        project_hint: if config.header_language == HeaderLanguage::Auto {
            project_hint
        } else {
            None
        },
        c_extractor: first_with_language(xs, "c"@),
        cpp_extractor: first_with_language(xs, "cpp"@),
    }
}

/// Every file that a walk assigns an extractor to is among its matches.
proof fn lemma_walk_holds_file(files: Seq<WalkedFile>, xs: Seq<ExtractorInfo>, opts: WalkOptions, k: int, x: usize)
    requires
        0 <= k < files.len(),
        file_choice(files[k], xs, opts) == Some(x),
    ensures
        walk_matches(files, xs, opts).contains((files[k].path@, x)),
    decreases files.len(),
{
    let init = files.drop_last();
    let before = walk_matches(init, xs, opts);
    if k == files.len() - 1 {
        assert(walk_matches(files, xs, opts) == before.push((files[k].path@, x)));
        assert(walk_matches(files, xs, opts)[before.len() as int] == (files[k].path@, x));
    } else {
        assert(init[k] == files[k]);
        lemma_walk_holds_file(init, xs, opts, k, x);
        let i = choose|i: int| 0 <= i < before.len() && before[i] == (files[k].path@, x);
        assert(walk_matches(files, xs, opts)[i] == (files[k].path@, x));
    }
}

/// Each match of a walk is a file with the extractor the walk chose for it.
proof fn lemma_walk_entry(files: Seq<WalkedFile>, xs: Seq<ExtractorInfo>, opts: WalkOptions, i: int)
    requires
        0 <= i < walk_matches(files, xs, opts).len(),
    ensures
        exists|k: int| 0 <= k < files.len() && files[k].path@ == walk_matches(files, xs, opts)[i].0
            && file_choice(files[k], xs, opts) == Some(walk_matches(files, xs, opts)[i].1),
    decreases files.len(),
{
    let init = files.drop_last();
    let before = walk_matches(init, xs, opts);
    if i < before.len() {
        lemma_walk_entry(init, xs, opts, i);
        let k = choose|k: int| 0 <= k < init.len() && init[k].path@ == before[i].0
            && file_choice(init[k], xs, opts) == Some(before[i].1);
        assert(files[k] == init[k]);
        match file_choice(files.last(), xs, opts) {
            None => {},
            Some(x) => {
                assert(walk_matches(files, xs, opts)[i] == before[i]);
            },
        }
    } else {
        assert(files[files.len() - 1] == files.last());
    }
}

/// Whether `.h` files are to be read as C: so configured, or left to the
/// project and the project's hint says C.
pub open spec fn headers_as(config: ExtractConfig, project_hint: Option<HeaderLanguage>, lang: HeaderLanguage) -> bool {
    ||| config.header_language == lang
    ||| (config.header_language == HeaderLanguage::Auto && project_hint == Some(lang))
}

/// Headers follow the configured language: where `.h` files are to be read
/// as C (or as C++), by the configuration or the project's hint, and the
/// registry has an extractor for that language, a walk assigns every `.h`
/// file that extractor, whatever its content.
pub proof fn lemma_configured_header_language(
    files: Seq<WalkedFile>,
    xs: Seq<ExtractorInfo>,
    config: ExtractConfig,
    project_hint: Option<HeaderLanguage>,
    lang: HeaderLanguage,
    k: int,
)
    requires
        0 <= k < files.len(),
        path_extension_of(files[k].path@) == Some("h"@),
        lang == HeaderLanguage::C || lang == HeaderLanguage::Cpp,
        headers_as(config, project_hint, lang),
        first_with_language(xs, if lang == HeaderLanguage::C { "c"@ } else { "cpp"@ }) is Some,
    ensures
        walk_matches(files, xs, walk_options_spec(xs, config, project_hint)).contains(
            (files[k].path@, first_with_language(xs, if lang == HeaderLanguage::C { "c"@ } else { "cpp"@ })->0),
        ),
        forall|i: int|
            0 <= i < walk_matches(files, xs, walk_options_spec(xs, config, project_hint)).len()
            && path_extension_of(
            (#[trigger] walk_matches(files, xs, walk_options_spec(xs, config, project_hint))[i]).0,
        ) == Some("h"@) ==> walk_matches(files, xs, walk_options_spec(xs, config, project_hint))[i].1
            == first_with_language(xs, if lang == HeaderLanguage::C { "c"@ } else { "cpp"@ })->0,
{
    let opts = walk_options_spec(xs, config, project_hint);
    let x = first_with_language(xs, if lang == HeaderLanguage::C { "c"@ } else { "cpp"@ })->0;
    lemma_walk_holds_file(files, xs, opts, k, x);
    let ms = walk_matches(files, xs, opts);
    assert forall|i: int| 0 <= i < ms.len() && path_extension_of((#[trigger] ms[i]).0) == Some("h"@) implies ms[i].1
        == x by {
        lemma_walk_entry(files, xs, opts, i);
    }
}

} // verus!
