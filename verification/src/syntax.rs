//! Concrete syntax trees as the extractors read them, and the reading of
//! node text from the source bytes.

use vstd::prelude::*;
use vstd::utf8::{decode_utf8, valid_utf8};
use crate::text::str_eq;
use crate::walker::utf8_text;
use vstd::string::StringSliceAdditionalSpecFns;

verus! {

broadcast use vstd::std_specs::vec::axiom_vec_index_decreases;

/// A node of a concrete syntax tree: its kind, the field under which it
/// hangs in its parent, its byte range and rows in the source, its children.
#[derive(Debug)]
pub struct SyntaxNode {
    pub kind: String,
    pub field: Option<String>,
    pub start_byte: usize,
    pub end_byte: usize,
    pub start_row: usize,
    pub end_row: usize,
    pub children: Vec<SyntaxNode>,
}

/// The mathematical value of a [`SyntaxNode`].
pub struct SyntaxV {
    pub kind: Seq<char>,
    pub field: Option<Seq<char>>,
    pub start_byte: usize,
    pub end_byte: usize,
    pub start_row: usize,
    pub end_row: usize,
    pub children: Seq<SyntaxV>,
}

pub open spec fn opt_seq(o: Option<String>) -> Option<Seq<char>> {
    match o {
        None => None,
        Some(s) => Some(s@),
    }
}

/// The view of a syntax node.
pub open spec fn sv(n: SyntaxNode) -> SyntaxV
    decreases n,
{
    SyntaxV {
        kind: n.kind@,
        field: opt_seq(n.field),
        start_byte: n.start_byte,
        end_byte: n.end_byte,
        start_row: n.start_row,
        end_row: n.end_row,
        children: Seq::new(
            n.children@.len(),
            |i: int|
                if 0 <= i < n.children@.len() {
                    sv(n.children[i])
                } else {
                    SyntaxV {
                        kind: Seq::empty(),
                        field: None,
                        start_byte: 0,
                        end_byte: 0,
                        start_row: 0,
                        end_row: 0,
                        children: Seq::empty(),
                    }
                },
        ),
    }
}

impl View for SyntaxNode {
    type V = SyntaxV;

    open spec fn view(&self) -> SyntaxV {
        sv(*self)
    }
}

pub proof fn lemma_children_view(n: SyntaxNode)
    ensures
        n@.children.len() == n.children@.len(),
        forall|i: int| 0 <= i < n.children@.len() ==> #[trigger] n@.children[i] == n.children@[i]@,
{
}

/// Whether a tree fits a source of `len` bytes: each range is ordered and
/// lies within the source and within its parent's range, and rows can be
/// counted from 1 in a `u32`.
pub open spec fn tree_wf(n: SyntaxV, len: int) -> bool
    decreases n,
{
    &&& n.start_byte <= n.end_byte <= len
    &&& n.start_row < u32::MAX
    &&& n.end_row < u32::MAX
    &&& forall|i: int|
        0 <= i < n.children.len() ==> {
            &&& n.start_byte <= (#[trigger] n.children[i]).start_byte
            &&& n.children[i].end_byte <= n.end_byte
            &&& tree_wf(n.children[i], len)
        }
}

/// Whether a tree fits a source of `len` bytes.
pub fn check_tree(n: &SyntaxNode, len: usize) -> (r: bool)
    ensures
        r == tree_wf(n@, len as int),
    decreases n,
{
    proof {
        lemma_children_view(*n);
    }
    if !(n.start_byte <= n.end_byte && n.end_byte <= len && n.start_row < 4294967295 && n.end_row
        < 4294967295) {
        return false;
    }
    let mut i: usize = 0;
    while i < n.children.len()
        invariant
            0 <= i <= n.children@.len(),
            n@.children.len() == n.children@.len(),
            forall|k: int| 0 <= k < n.children@.len() ==> #[trigger] n@.children[k] == n.children@[k]@,
            forall|k: int|
                0 <= k < i ==> {
                    &&& n.start_byte <= (#[trigger] n@.children[k]).start_byte
                    &&& n@.children[k].end_byte <= n.end_byte
                    &&& tree_wf(n@.children[k], len as int)
                },
        decreases n.children@.len() - i,
    {
        let c = &n.children[i];
        assert(decreases_to!(n.children => n.children[i as int]));
        if !(n.start_byte <= c.start_byte && c.end_byte <= n.end_byte && check_tree(c, len)) {
            assert(!tree_wf(n@, len as int)) by {
                assert(n@.children[i as int] == c@);
            }
            return false;
        }
        i = i + 1;
    }
    true
}

/// The position of the first element of `cs` that satisfies `p`, or the
/// length when none does.
pub open spec fn first_index(cs: Seq<SyntaxV>, p: spec_fn(SyntaxV) -> bool) -> int {
    if exists|i: int| 0 <= i < cs.len() && p(cs[i]) {
        choose|i: int| 0 <= i < cs.len() && p(cs[i]) && forall|j: int| 0 <= j < i ==> !p(cs[j])
    } else {
        cs.len() as int
    }
}

pub proof fn lemma_first_index(cs: Seq<SyntaxV>, p: spec_fn(SyntaxV) -> bool, i: int)
    requires
        0 <= i <= cs.len(),
        i < cs.len() ==> p(cs[i]),
        forall|j: int| 0 <= j < i ==> !p(#[trigger] cs[j]),
    ensures
        first_index(cs, p) == i,
{
    if exists|k: int| 0 <= k < cs.len() && p(cs[k]) {
        let w = choose|k: int| 0 <= k < cs.len() && p(cs[k]) && forall|j: int| 0 <= j < k ==> !p(cs[j]);
        if w < i {
            assert(!p(cs[w]));
        } else if w > i {
            assert(p(cs[i]));
        }
    }
}

/// Whether a node hangs under field `f`.
pub open spec fn has_field(f: Seq<char>) -> spec_fn(SyntaxV) -> bool {
    |c: SyntaxV| c.field == Some(f)
}

/// The position of the first child that hangs under field `f`.
pub open spec fn field_index(n: SyntaxV, f: Seq<char>) -> int {
    first_index(n.children, has_field(f))
}

/// The first child that hangs under field `f`.
pub open spec fn field_child(n: SyntaxV, f: Seq<char>) -> Option<SyntaxV> {
    let i = field_index(n, f);
    if 0 <= i < n.children.len() {
        Some(n.children[i])
    } else {
        None
    }
}

/// The first child that hangs under field `f`.
pub fn child_by_field<'a>(n: &'a SyntaxNode, f: &str) -> (r: Option<&'a SyntaxNode>)
    ensures
        match r {
            Some(c) => field_child(n@, f@) == Some(c@) && 0 <= field_index(n@, f@) < n.children@.len()
                && *c == n.children@[field_index(n@, f@)],
            None => field_child(n@, f@) is None,
        },
{
    proof {
        lemma_children_view(*n);
    }
    let mut i: usize = 0;
    while i < n.children.len()
        invariant
            0 <= i <= n.children@.len(),
            n@.children.len() == n.children@.len(),
            forall|k: int| 0 <= k < n.children@.len() ==> #[trigger] n@.children[k] == n.children@[k]@,
            forall|k: int| 0 <= k < i ==> (#[trigger] n@.children[k]).field != Some(f@),
        decreases n.children@.len() - i,
    {
        let matches = match &n.children[i].field {
            Some(x) => str_eq(x.as_str(), f),
            None => false,
        };
        if matches {
            proof {
                assert(n@.children[i as int] == n.children@[i as int]@);
                lemma_first_index(n@.children, has_field(f@), i as int);
            }
            return Some(&n.children[i]);
        }
        i = i + 1;
    }
    proof {
        lemma_first_index(n@.children, has_field(f@), n@.children.len() as int);
    }
    None
}

/// The views of a list of kind names.
pub open spec fn strs_view(ks: Seq<&str>) -> Seq<Seq<char>> {
    ks.map_values(|s: &str| s@)
}

/// Whether a node's kind is one of `ks`.
pub open spec fn kind_in(ks: Seq<Seq<char>>) -> spec_fn(SyntaxV) -> bool {
    |c: SyntaxV| ks.contains(c.kind)
}

/// The first child whose kind is one of `ks`.
pub open spec fn first_child_in(n: SyntaxV, ks: Seq<Seq<char>>) -> Option<SyntaxV> {
    let i = first_index(n.children, kind_in(ks));
    if 0 <= i < n.children.len() {
        Some(n.children[i])
    } else {
        None
    }
}

/// Whether `k` is one of the kind names `ks`.
pub fn kind_among(ks: &[&str], k: &str) -> (r: bool)
    ensures
        r == strs_view(ks@).contains(k@),
{
    let mut i: usize = 0;
    while i < ks.len()
        invariant
            0 <= i <= ks@.len(),
            forall|j: int| 0 <= j < i ==> strs_view(ks@)[j] != k@,
        decreases ks@.len() - i,
    {
        if str_eq(ks[i], k) {
            assert(strs_view(ks@)[i as int] == k@);
            return true;
        }
        i = i + 1;
    }
    false
}

/// The first child whose kind is one of `ks`.
pub fn first_child_of_kinds<'a>(n: &'a SyntaxNode, ks: &[&str]) -> (r: Option<&'a SyntaxNode>)
    ensures
        match r {
            Some(c) => first_child_in(n@, strs_view(ks@)) == Some(c@) && 0 <= first_index(
                n@.children,
                kind_in(strs_view(ks@)),
            ) < n.children@.len() && *c == n.children@[first_index(n@.children, kind_in(strs_view(ks@)))],
            None => first_child_in(n@, strs_view(ks@)) is None,
        },
{
    proof {
        lemma_children_view(*n);
    }
    let ghost p = kind_in(strs_view(ks@));
    let mut i: usize = 0;
    while i < n.children.len()
        invariant
            0 <= i <= n.children@.len(),
            p == kind_in(strs_view(ks@)),
            n@.children.len() == n.children@.len(),
            forall|k: int| 0 <= k < n.children@.len() ==> #[trigger] n@.children[k] == n.children@[k]@,
            forall|k: int| 0 <= k < i ==> !p(#[trigger] n@.children[k]),
        decreases n.children@.len() - i,
    {
        if kind_among(ks, n.children[i].kind.as_str()) {
            proof {
                assert(n@.children[i as int] == n.children@[i as int]@);
                lemma_first_index(n@.children, p, i as int);
            }
            return Some(&n.children[i]);
        }
        i = i + 1;
    }
    proof {
        lemma_first_index(n@.children, p, n@.children.len() as int);
    }
    None
}

/// The text of the bytes `src[start..end]`, where they are UTF-8.
pub open spec fn bytes_text(src: Seq<u8>, start: int, end: int) -> Option<Seq<char>> {
    let b = src.subrange(start, end);
    if valid_utf8(b) {
        Some(decode_utf8(b))
    } else {
        None
    }
}

/// The text of a node, where its bytes are UTF-8.
pub open spec fn node_text(src: Seq<u8>, n: SyntaxV) -> Option<Seq<char>> {
    bytes_text(src, n.start_byte as int, n.end_byte as int)
}

/// The text of the bytes `src[start..end]`, where they are UTF-8.
pub fn text_of(src: &[u8], start: usize, end: usize) -> (r: Option<String>)
    requires
        start <= end <= src@.len(),
    ensures
        opt_seq(r) == bytes_text(src@, start as int, end as int),
{
    let (head, _tail) = src.split_at(end);
    let (_skip, part) = head.split_at(start);
    assert(part@ == src@.subrange(start as int, end as int));
    match utf8_text(part) {
        None => None,
        Some(t) => {
            proof {
                vstd::utf8::encode_utf8_decode_utf8(t@);
            }
            Some(t.to_owned())
        },
    }
}

/// The text of a node, where its bytes are UTF-8.
pub fn text_of_node(src: &[u8], n: &SyntaxNode) -> (r: Option<String>)
    requires
        n.start_byte <= n.end_byte <= src@.len(),
    ensures
        opt_seq(r) == node_text(src@, n@),
{
    text_of(src, n.start_byte, n.end_byte)
}

} // verus!
