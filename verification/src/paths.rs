//! Matching stored file paths against a directory or file prefix given
//! relative to the workspace root, with `/` or `\` as separator.

use vstd::prelude::*;
use crate::text::chars_of;

verus! {

/// `s` with every `\` turned into `/`.
pub open spec fn slashed(s: Seq<char>) -> Seq<char> {
    Seq::new(s.len(), |i: int| if s[i] == '\\' { '/' } else { s[i] })
}

/// `s` without its leading `./` pairs.
pub open spec fn strip_dot_slash(s: Seq<char>) -> Seq<char>
    decreases s.len(),
{
    if s.len() >= 2 && s[0] == '.' && s[1] == '/' {
        strip_dot_slash(s.subrange(2, s.len() as int))
    } else {
        s
    }
}

/// `s` without its trailing `/`s.
pub open spec fn strip_trailing_slashes(s: Seq<char>) -> Seq<char>
    decreases s.len(),
{
    if s.len() > 0 && s.last() == '/' {
        strip_trailing_slashes(s.drop_last())
    } else {
        s
    }
}

/// Whether a (slashed) path is absolute: it starts with `/`, or with a drive
/// letter and `:`.
pub open spec fn is_absolute_path(s: Seq<char>) -> bool {
    (s.len() > 0 && s[0] == '/') || (s.len() >= 2 && s[1] == ':')
}

/// The path a prefix stands for: slashed, without leading `./` and trailing
/// `/`, and joined to the (slashed) root unless it is absolute or the root is
/// empty. The empty prefix stands for every path.
pub open spec fn prefix_target(root: Seq<char>, prefix: Seq<char>) -> Seq<char> {
    let p = strip_trailing_slashes(strip_dot_slash(slashed(prefix)));
    let r = strip_trailing_slashes(slashed(root));
    if p.len() == 0 || is_absolute_path(p) || r.len() == 0 {
        p
    } else {
        r + "/"@ + p
    }
}

/// Whether stored path `path` is the target or lies under it.
pub open spec fn path_under(path: Seq<char>, target: Seq<char>) -> bool {
    let s = slashed(path);
    ||| target.len() == 0
    ||| s == target
    ||| (s.len() > target.len() && s.subrange(0, target.len() as int) == target && s[target.len() as int] == '/')
}

fn slashed_exec(v: &Vec<char>) -> (r: Vec<char>)
    ensures
        r@ == slashed(v@),
{
    let mut out: Vec<char> = Vec::new();
    let mut i: usize = 0;
    while i < v.len()
        invariant
            0 <= i <= v.len(),
            out@ == slashed(v@.take(i as int)),
        decreases v.len() - i,
    {
        let c = v[i];
        out.push(if c == '\\' { '/' } else { c });
        assert(out@ =~= slashed(v@.take(i + 1)));
        i = i + 1;
    }
    assert(v@.take(v@.len() as int) =~= v@);
    out
}

fn strip_dot_slash_exec(v: &Vec<char>) -> (r: Vec<char>)
    ensures
        r@ == strip_dot_slash(v@),
{
    let mut i: usize = 0;
    assert(v@.subrange(0, v@.len() as int) =~= v@);
    while v.len() - i > 1 && v[i] == '.' && v[i + 1] == '/'
        invariant
            0 <= i <= v.len(),
            strip_dot_slash(v@) == strip_dot_slash(v@.subrange(i as int, v@.len() as int)),
        decreases v.len() - i,
    {
        let ghost s = v@.subrange(i as int, v@.len() as int);
        assert(s.subrange(2, s.len() as int) =~= v@.subrange(i + 2, v@.len() as int));
        i = i + 2;
    }
    let mut out: Vec<char> = Vec::new();
    let mut j: usize = i;
    while j < v.len()
        invariant
            i <= j <= v.len(),
            out@ == v@.subrange(i as int, j as int),
        decreases v.len() - j,
    {
        out.push(v[j]);
        assert(out@ =~= v@.subrange(i as int, j + 1));
        j = j + 1;
    }
    out
}

fn strip_trailing_slashes_exec(v: &Vec<char>) -> (r: Vec<char>)
    ensures
        r@ == strip_trailing_slashes(v@),
{
    let mut n: usize = v.len();
    assert(v@.take(v@.len() as int) =~= v@);
    while n > 0 && v[n - 1] == '/'
        invariant
            0 <= n <= v.len(),
            strip_trailing_slashes(v@) == strip_trailing_slashes(v@.take(n as int)),
        decreases n,
    {
        assert(v@.take(n as int).drop_last() =~= v@.take(n - 1));
        n = n - 1;
    }
    let mut out: Vec<char> = Vec::new();
    let mut j: usize = 0;
    while j < n
        invariant
            0 <= j <= n <= v.len(),
            out@ == v@.take(j as int),
        decreases n - j,
    {
        out.push(v[j]);
        assert(out@ =~= v@.take(j + 1));
        j = j + 1;
    }
    out
}

/// The path that `prefix` stands for under the workspace `root`.
pub fn prefix_target_exec(root: &str, prefix: &str) -> (r: Vec<char>)
    ensures
        r@ == prefix_target(root@, prefix@),
{
    let p = strip_trailing_slashes_exec(&strip_dot_slash_exec(&slashed_exec(&chars_of(prefix))));
    let r = strip_trailing_slashes_exec(&slashed_exec(&chars_of(root)));
    let absolute = (p.len() > 0 && p[0] == '/') || (p.len() >= 2 && p[1] == ':');
    if p.len() == 0 || absolute || r.len() == 0 {
        p
    } else {
        let mut out = r;
        out.push('/');
        let mut j: usize = 0;
        let ghost base = out@;
        while j < p.len()
            invariant
                0 <= j <= p.len(),
                out@ == base + p@.take(j as int),
            decreases p.len() - j,
        {
            out.push(p[j]);
            assert(out@ =~= base + p@.take(j + 1));
            j = j + 1;
        }
        assert(p@.take(p@.len() as int) =~= p@);
        assert(base =~= strip_trailing_slashes(slashed(root@)) + "/"@) by {
            reveal_strlit("/");
        }
        out
    }
}

/// Whether stored path `path` is `target` or lies under it.
pub fn path_under_exec(path: &str, target: &Vec<char>) -> (r: bool)
    ensures
        r == path_under(path@, target@),
{
    if target.len() == 0 {
        return true;
    }
    let s = slashed_exec(&chars_of(path));
    if s.len() < target.len() {
        assert(slashed(path@) != target@);
        return false;
    }
    let mut i: usize = 0;
    while i < target.len()
        invariant
            target.len() <= s.len(),
            s@ == slashed(path@),
            0 <= i <= target.len(),
            forall|k: int| 0 <= k < i ==> s@[k] == target@[k],
        decreases target.len() - i,
    {
        if s[i] != target[i] {
            assert(s@.subrange(0, target@.len() as int)[i as int] != target@[i as int]);
            assert(s@.subrange(0, target@.len() as int) != target@);
            assert(s@ != target@);
            return false;
        }
        i = i + 1;
    }
    assert(s@.subrange(0, target@.len() as int) =~= target@);
    if s.len() == target.len() {
        assert(s@ =~= target@);
        true
    } else {
        s[target.len()] == '/'
    }
}

} // verus!
