//! Project-level extraction settings and the C/C++ header heuristics.

use vstd::prelude::*;
use vstd::utf8::*;
use vstd::string::StringSliceAdditionalSpecFns;
use crate::text::{ascii_lower, ascii_lower_exec, chars_of, contains_chars, contains_seq};

verus! {

broadcast use vstd::utf8::group_utf8_lib;

/// How `.h` header files are parsed when both a C and a C++ extractor exist.
#[derive(Debug, Clone, Copy, PartialEq, Eq, Structural)]
pub enum HeaderLanguage {
    /// Detect from project layout and file content.
    Auto,
    C,
    Cpp,
}

impl Default for HeaderLanguage {
    fn default() -> (r: Self)
        ensures
            r == HeaderLanguage::Auto,
    {
        HeaderLanguage::Auto
    }
}

/// Project-level extraction settings (`.codegraph/config.toml`).
#[derive(Debug, Clone, Copy, PartialEq, Eq, Structural)]
pub struct ExtractConfig {
    pub header_language: HeaderLanguage,
}

impl Default for ExtractConfig {
    fn default() -> (r: Self)
        ensures
            r.header_language == HeaderLanguage::Auto,
    {
        ExtractConfig { header_language: HeaderLanguage::Auto }
    }
}

/// The Unicode `White_Space` property.
pub open spec fn is_white_space(c: char) -> bool {
    let u = c as u32;
    ||| 0x09 <= u <= 0x0D
    ||| u == 0x20
    ||| u == 0x85
    ||| u == 0xA0
    ||| u == 0x1680
    ||| 0x2000 <= u <= 0x200A
    ||| u == 0x2028
    ||| u == 0x2029
    ||| u == 0x202F
    ||| u == 0x205F
    ||| u == 0x3000
}

pub fn is_white_space_char(c: char) -> (r: bool)
    ensures
        r == is_white_space(c),
{
    let u: u32 = c as u32;
    (0x09 <= u && u <= 0x0D) || u == 0x20 || u == 0x85 || u == 0xA0 || u == 0x1680 || (0x2000 <= u
        && u <= 0x200A) || u == 0x2028 || u == 0x2029 || u == 0x202F || u == 0x205F || u == 0x3000
}

/// `s` without its leading white space.
pub open spec fn trim_start(s: Seq<char>) -> Seq<char>
    decreases s.len(),
{
    if s.len() > 0 && is_white_space(s[0]) {
        trim_start(s.drop_first())
    } else {
        s
    }
}

/// `s` without its trailing white space.
pub open spec fn trim_end(s: Seq<char>) -> Seq<char>
    decreases s.len(),
{
    if s.len() > 0 && is_white_space(s.last()) {
        trim_end(s.drop_last())
    } else {
        s
    }
}

/// `s` without leading and trailing white space.
pub open spec fn trim(s: Seq<char>) -> Seq<char> {
    trim_end(trim_start(s))
}

/// ASCII lower-casing of every character.
pub open spec fn lowered(s: Seq<char>) -> Seq<char> {
    s.map_values(|c: char| ascii_lower(c))
}

/// The characters of `v` without leading and trailing white space.
pub fn trim_chars(v: &Vec<char>) -> (r: Vec<char>)
    ensures
        r@ == trim(v@),
{
    let n = v.len();
    let mut i: usize = 0;
    assert(v@.subrange(0, n as int) =~= v@);
    while i < n && is_white_space_char(v[i])
        invariant
            n == v.len(),
            0 <= i <= n,
            trim_start(v@) == trim_start(v@.subrange(i as int, n as int)),
        decreases n - i,
    {
        proof {
            let s = v@.subrange(i as int, n as int);
            assert(s.drop_first() =~= v@.subrange(i + 1, n as int));
        }
        i = i + 1;
    }
    let ghost head = v@.subrange(i as int, n as int);
    assert(trim_start(v@) == head);
    let mut j: usize = n;
    while j > i && is_white_space_char(v[j - 1])
        invariant
            n == v.len(),
            0 <= i <= j <= n,
            head == v@.subrange(i as int, n as int),
            trim_end(head) == trim_end(v@.subrange(i as int, j as int)),
        decreases j - i,
    {
        proof {
            let s = v@.subrange(i as int, j as int);
            assert(s.drop_last() =~= v@.subrange(i as int, j - 1));
        }
        j = j - 1;
    }
    let mut r: Vec<char> = Vec::new();
    let mut k: usize = i;
    while k < j
        invariant
            n == v.len(),
            0 <= i <= k <= j <= n,
            r@ == v@.subrange(i as int, k as int),
        decreases j - k,
    {
        r.push(v[k]);
        proof {
            assert(v@.subrange(i as int, k + 1) =~= v@.subrange(i as int, k as int).push(v@[k as int]));
        }
        k = k + 1;
    }
    r
}

/// The characters of `v`, ASCII lower-cased.
pub fn lower_chars(v: &Vec<char>) -> (r: Vec<char>)
    ensures
        r@ == lowered(v@),
{
    let mut r: Vec<char> = Vec::new();
    let mut k: usize = 0;
    while k < v.len()
        invariant
            0 <= k <= v.len(),
            r@ == lowered(v@.take(k as int)),
        decreases v.len() - k,
    {
        r.push(ascii_lower_exec(v[k]));
        proof {
            assert(lowered(v@.take(k + 1)) =~= lowered(v@.take(k as int)).push(ascii_lower(v@[k as int])));
        }
        k = k + 1;
    }
    proof {
        assert(v@.take(v@.len() as int) =~= v@);
    }
    r
}

/// Whether two character vectors hold the same characters.
pub fn chars_eq(a: &Vec<char>, b: &Vec<char>) -> (r: bool)
    ensures
        r == (a@ == b@),
{
    if a.len() != b.len() {
        return false;
    }
    let mut k: usize = 0;
    while k < a.len()
        invariant
            a.len() == b.len(),
            0 <= k <= a.len(),
            forall|j: int| 0 <= j < k ==> a@[j] == b@[j],
        decreases a.len() - k,
    {
        if a[k] != b[k] {
            return false;
        }
        k = k + 1;
    }
    assert(a@ =~= b@);
    true
}

/// The header language named by a `headers` setting; an absent setting is `Auto`.
pub open spec fn header_language_of(raw: Option<Seq<char>>) -> HeaderLanguage {
    match raw {
        None => HeaderLanguage::Auto,
        Some(s) => {
            let t = lowered(trim(s));
            if t == "c"@ {
                HeaderLanguage::C
            } else if t == "cpp"@ || t == "c++"@ || t == "cxx"@ {
                HeaderLanguage::Cpp
            } else {
                HeaderLanguage::Auto
            }
        },
    }
}

pub open spec fn opt_view(raw: Option<&str>) -> Option<Seq<char>> {
    match raw {
        None => None,
        Some(s) => Some(s@),
    }
}

/// Reads a `headers` setting: `"c"`, or `"cpp"`/`"c++"`/`"cxx"`, after trimming
/// and ignoring ASCII case; anything else, or no setting, is `Auto`.
pub fn parse_header_language(raw: Option<&str>) -> (r: HeaderLanguage)
    ensures
        r == header_language_of(opt_view(raw)),
{
    match raw {
        None => HeaderLanguage::Auto,
        Some(s) => {
            let v = chars_of(s);
            let t = trim_chars(&v);
            let l = lower_chars(&t);
            if chars_eq(&l, &chars_of("c")) {
                HeaderLanguage::C
            } else if chars_eq(&l, &chars_of("cpp")) || chars_eq(&l, &chars_of("c++")) || chars_eq(
                &l,
                &chars_of("cxx"),
            ) {
                HeaderLanguage::Cpp
            } else {
                HeaderLanguage::Auto
            }
        },
    }
}

impl ExtractConfig {
    /// The settings given by the `headers` value of the `[languages]` table.
    pub fn from_headers_setting(raw: Option<&str>) -> (r: ExtractConfig)
        ensures
            r.header_language == header_language_of(opt_view(raw)),
    {
        ExtractConfig { header_language: parse_header_language(raw) }
    }
}

/// The `config.toml` written when a project is initialized.
pub const DEFAULT_CONFIG_TOML: &'static str = "# CodeGraph project configuration\n# See https://github.com/Cleboost/codegraph-rs\n\n[languages]\n# How to parse .h header files: \"auto\", \"c\", or \"cpp\".\n# \"auto\" detects C++ projects from .cpp/.hpp files and C++ syntax in headers.\nheaders = \"auto\"\n";

/// The substrings whose presence marks a header as C++.
pub open spec fn cpp_markers() -> Seq<Seq<char>> {
    seq![
        "namespace "@,
        "class "@,
        "template "@,
        "typename "@,
        "constexpr "@,
        "noexcept"@,
        "public:"@,
        "private:"@,
        "protected:"@,
        "operator "@,
        "std::"@,
        "extern \"C\""@,
        "using "@,
        "::"@,
    ]
}

fn cpp_marker(i: usize) -> (r: &'static str)
    requires
        i < 14,
    ensures
        r@ == cpp_markers()[i as int],
{
    match i {
        0 => "namespace ",
        1 => "class ",
        2 => "template ",
        3 => "typename ",
        4 => "constexpr ",
        5 => "noexcept",
        6 => "public:",
        7 => "private:",
        8 => "protected:",
        9 => "operator ",
        10 => "std::",
        11 => "extern \"C\"",
        12 => "using ",
        _ => "::",
    }
}

/// Whether the text holds one of the C++ markers.
pub open spec fn has_cpp_marker(t: Seq<char>) -> bool {
    exists|i: int| 0 <= i < cpp_markers().len() && contains_seq(t, #[trigger] cpp_markers()[i])
}

/// The number of leading bytes that the header heuristic looks at.
pub open spec fn sample_len(n: int) -> int {
    if n < 8192 {
        n
    } else {
        8192
    }
}

/// The text of the first 8 KiB of a header.
pub open spec fn header_sample(source: &str) -> Seq<char> {
    decode_utf8(source.spec_bytes().subrange(0, sample_len(source.spec_bytes().len() as int)))
}

/// The header check reads the first 8 KiB only: two texts of at least that
/// size whose first 8 KiB agree are judged alike.
pub proof fn lemma_header_check_reads_first_8k(a: &str, b: &str)
    requires
        a.spec_bytes().len() >= 8192,
        b.spec_bytes().len() >= 8192,
        a.spec_bytes().subrange(0, 8192) == b.spec_bytes().subrange(0, 8192),
    ensures
        has_cpp_marker(header_sample(a)) == has_cpp_marker(header_sample(b)),
{
}

fn has_cpp_marker_exec(hay: &Vec<char>) -> (r: bool)
    ensures
        r == has_cpp_marker(hay@),
{
    let mut i: usize = 0;
    while i < 14
        invariant
            0 <= i <= 14,
            cpp_markers().len() == 14,
            forall|k: int| 0 <= k < i ==> !contains_seq(hay@, #[trigger] cpp_markers()[k]),
        decreases 14 - i,
    {
        let needle = chars_of(cpp_marker(i));
        if contains_chars(hay, &needle, false) {
            return true;
        }
        i = i + 1;
    }
    false
}

/// Heuristic: does this header look like C++ from its first 8 KiB of text?
pub fn is_cpp_header(source: &str) -> (r: bool)
    requires
        source.spec_bytes().len() <= 8192 || is_char_boundary(source.spec_bytes(), 8192),
    ensures
        r == has_cpp_marker(header_sample(source)),
{
    let n = source.as_bytes().len();
    let m: usize = if n < 8192 { n } else { 8192 };
    proof {
        let b = source.spec_bytes();
        encode_utf8_valid_utf8(source@);
        is_char_boundary_start_end_of_seq(b);
        assert(m == n ==> is_char_boundary(b, m as int));
        assert(m != n ==> m == 8192);
        assert(is_char_boundary(source.spec_bytes(), m as int));
    }
    let (sample, _rest) = source.split_at(m);
    proof {
        let b = source.spec_bytes();
        assert(sample.spec_bytes() == b.subrange(0, m as int));
        assert(decode_utf8(encode_utf8(sample@)) == sample@);
    }
    let hay = chars_of(sample);
    has_cpp_marker_exec(&hay)
}

/// Whether `e` is the extension of a C source file.
pub open spec fn is_c_ext(e: Seq<char>) -> bool {
    e == "c"@
}

/// Whether `e` is the extension of a C++ source or header file.
pub open spec fn is_cpp_ext(e: Seq<char>) -> bool {
    e == "cpp"@ || e == "cc"@ || e == "cxx"@ || e == "hpp"@ || e == "hh"@ || e == "hxx"@
}

/// The project-wide header hint from the extensions of its files: C++ when
/// there are C++ files and no C files, C in the opposite case, else none.
pub open spec fn header_hint_of(exts: Seq<String>) -> Option<HeaderLanguage> {
    let has_c = exists|i: int| 0 <= i < exts.len() && is_c_ext(#[trigger] exts[i]@);
    let has_cpp = exists|i: int| 0 <= i < exts.len() && is_cpp_ext(#[trigger] exts[i]@);
    if has_cpp && !has_c {
        Some(HeaderLanguage::Cpp)
    } else if has_c && !has_cpp {
        Some(HeaderLanguage::C)
    } else {
        None
    }
}

/// The project-wide header hint from the extensions of the project's files.
pub fn header_hint(exts: &[String]) -> (r: Option<HeaderLanguage>)
    ensures
        r == header_hint_of(exts@),
{
    let mut has_c = false;
    let mut has_cpp = false;
    let mut i: usize = 0;
    while i < exts.len()
        invariant
            0 <= i <= exts.len(),
            has_c == exists|k: int| 0 <= k < i && is_c_ext(#[trigger] exts@[k]@),
            has_cpp == exists|k: int| 0 <= k < i && is_cpp_ext(#[trigger] exts@[k]@),
        decreases exts.len() - i,
    {
        let e = exts[i].as_str();
        if crate::text::str_eq(e, "c") {
            has_c = true;
        } else if crate::text::str_eq(e, "cpp") || crate::text::str_eq(e, "cc") || crate::text::str_eq(
            e,
            "cxx",
        ) || crate::text::str_eq(e, "hpp") || crate::text::str_eq(e, "hh") || crate::text::str_eq(e, "hxx") {
            has_cpp = true;
        }
        proof {
            if is_c_ext(exts@[i as int]@) {
                assert(!is_cpp_ext(exts@[i as int]@)) by {
                    reveal_strlit("c");
                    reveal_strlit("cpp");
                    reveal_strlit("cc");
                    reveal_strlit("cxx");
                    reveal_strlit("hpp");
                    reveal_strlit("hh");
                    reveal_strlit("hxx");
                    assert("c"@.len() == 1);
                    assert("cpp"@.len() == 3);
                    assert("cc"@.len() == 2);
                    assert("cxx"@.len() == 3);
                    assert("hpp"@.len() == 3);
                    assert("hh"@.len() == 2);
                    assert("hxx"@.len() == 3);
                }
            }
        }
        i = i + 1;
    }
    if has_cpp && !has_c {
        Some(HeaderLanguage::Cpp)
    } else if has_c && !has_cpp {
        Some(HeaderLanguage::C)
    } else {
        None
    }
}

} // verus!
