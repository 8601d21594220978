//! Context builder: search, then callers and callees, rendered for an agent.

use crate::db::{at_most, matches_query, Db};
use crate::error::Error;
use crate::graph::{hits_spec, Traversal};
use crate::kinds::{node_kind_name, EdgeKind};
use crate::model::Node;
use crate::text::{chars_of, dec_nat, push_char, push_decimal, push_str, string_of};
use vstd::prelude::*;

verus! {

/// Output format of a context answer.
#[derive(Debug, Clone, Copy, PartialEq, Eq, Structural)]
pub enum Format {
    Markdown,
    Json,
}

impl Default for Format {
    fn default() -> (r: Self)
        ensures
            r == Format::Markdown,
    {
        Format::Markdown
    }
}

/// What to build context for.
#[derive(Debug)]
pub struct ContextRequest {
    pub query: String,
    pub depth: u32,
    pub include_source: bool,
    pub limit: u32,
    pub format: Format,
}

impl Default for ContextRequest {
    fn default() -> (r: Self)
        ensures
            r.query@ == Seq::<char>::empty(),
            r.depth == 1,
            !r.include_source,
            r.limit == 5,
            r.format == Format::Markdown,
    {
        Self { query: String::new(), depth: 1, include_source: false, limit: 5, format: Format::Markdown }
    }
}

/// One matching symbol with its direct neighbourhood.
#[derive(Debug)]
pub struct ContextHit {
    pub node: Node,
    pub callers: Vec<Node>,
    pub callees: Vec<Node>,
    pub source: Option<String>,
}

/// The answer to a context request.
#[derive(Debug)]
pub struct ContextResponse {
    pub query: String,
    pub hits: Vec<ContextHit>,
}

/// The text of a source file, as read by the caller.
#[derive(Debug)]
pub struct SourceText {
    pub path: String,
    pub text: String,
}

/// Position just past the line that starts at `i`: the next `\n`, or the end.
pub open spec fn line_end(t: Seq<char>, i: int) -> int
    decreases t.len() - i,
{
    if i >= t.len() || i < 0 {
        t.len() as int
    } else if t[i] == '\n' {
        i
    } else {
        line_end(t, i + 1)
    }
}

/// A line ends at or after its start, and within the text.
pub proof fn lemma_line_end(t: Seq<char>, i: int)
    requires
        0 <= i <= t.len(),
    ensures
        i <= line_end(t, i) <= t.len(),
        line_end(t, i) < t.len() ==> t[line_end(t, i)] == '\n',
        forall|j: int| i <= j < line_end(t, i) ==> t[j] != '\n',
    decreases t.len() - i,
{
    if i < t.len() && t[i] != '\n' {
        lemma_line_end(t, i + 1);
    }
}

/// A line without its terminating carriage return.
pub open spec fn strip_cr(l: Seq<char>, terminated: bool) -> Seq<char> {
    if terminated && l.len() > 0 && l.last() == '\r' { l.drop_last() } else { l }
}

/// The lines of `t[i..]`: split at `\n`, a `\r` before the `\n` dropped,
/// no empty line after a final `\n`.
pub open spec fn lines_from(t: Seq<char>, i: int) -> Seq<Seq<char>>
    decreases t.len() + 1 - i,
{
    if i >= t.len() || i < 0 {
        Seq::empty()
    } else {
        proof { lemma_line_end(t, i); }
        let e = line_end(t, i);
        seq![strip_cr(t.subrange(i, e), e < t.len())] + lines_from(t, e + 1)
    }
}

/// The lines of a text.
pub open spec fn lines(t: Seq<char>) -> Seq<Seq<char>> {
    lines_from(t, 0)
}

/// Lines joined with `\n` between them.
pub open spec fn join_lines(ls: Seq<Seq<char>>) -> Seq<char>
    decreases ls.len(),
{
    if ls.len() == 0 {
        Seq::empty()
    } else if ls.len() == 1 {
        ls[0]
    } else {
        join_lines(ls.drop_last()) + seq!['\n'] + ls.last()
    }
}

/// The lines `start_line..=end_line` (counted from 1) of `t`, joined; empty
/// when `start_line` lies past `end_line` or past the last line.
pub open spec fn source_slice_spec(t: Seq<char>, start_line: u32, end_line: u32) -> Seq<char> {
    let ls = lines(t);
    let start = if start_line == 0 { 0 } else { start_line - 1 };
    let end = if end_line < ls.len() { end_line as int } else { ls.len() as int };
    let from = if start < ls.len() { start as int } else { ls.len() as int };
    let to = if from <= end { end } else { from };
    join_lines(ls.subrange(from, to))
}

} // verus!

verus! {

/// The views of a sequence of character vectors.
pub open spec fn views(v: Seq<Vec<char>>) -> Seq<Seq<char>> {
    v.map_values(|l: Vec<char>| l@)
}

/// The characters `t[from..to]`.
fn sub_chars(t: &Vec<char>, from: usize, to: usize) -> (r: Vec<char>)
    requires
        from <= to <= t@.len(),
    ensures
        r@ == t@.subrange(from as int, to as int),
{
    let mut r: Vec<char> = Vec::new();
    let mut k = from;
    while k < to
        invariant
            from <= k <= to <= t@.len(),
            r@ == t@.subrange(from as int, k as int),
        decreases to - k,
    {
        r.push(t[k]);
        proof {
            assert(t@.subrange(from as int, k + 1) =~= t@.subrange(from as int, k as int).push(t@[k as int]));
        }
        k = k + 1;
    }
    r
}

/// The lines of a text.
pub fn split_lines(t: &Vec<char>) -> (r: Vec<Vec<char>>)
    ensures
        views(r@) == lines(t@),
{
    let mut out: Vec<Vec<char>> = Vec::new();
    let mut i: usize = 0;
    proof {
        assert(views(out@) =~= Seq::<Seq<char>>::empty());
    }
    while i < t.len()
        invariant
            0 <= i <= t@.len(),
            lines(t@) == views(out@) + lines_from(t@, i as int),
        decreases t@.len() - i,
    {
        let mut e = i;
        while e < t.len() && t[e] != '\n'
            invariant
                i <= e <= t@.len(),
                line_end(t@, i as int) == line_end(t@, e as int),
            decreases t@.len() - e,
        {
            e = e + 1;
        }
        proof {
            lemma_line_end(t@, i as int);
            assert(line_end(t@, e as int) == e);
        }
        let terminated = e < t.len();
        let mut stop = e;
        if terminated && e > i && t[e - 1] == '\r' {
            stop = e - 1;
        }
        let line = sub_chars(t, i, stop);
        let ghost o0 = out@;
        proof {
            let l = t@.subrange(i as int, e as int);
            assert(line@ =~= strip_cr(l, (e as int) < t@.len()));
            assert(lines_from(t@, i as int) == seq![strip_cr(l, (e as int) < t@.len())] + lines_from(t@, e + 1));
        }
        out.push(line);
        proof {
            assert(views(out@) =~= views(o0).push(line@));
            assert(lines(t@) =~= views(out@) + lines_from(t@, e + 1));
        }
        if e < t.len() {
            i = e + 1;
        } else {
            i = t.len();
        }
    }
    proof {
        assert(lines_from(t@, i as int) =~= Seq::<Seq<char>>::empty());
        assert(lines(t@) =~= views(out@));
    }
    out
}

/// The lines `ls[from..to]` joined with `\n`.
fn join_range(ls: &Vec<Vec<char>>, from: usize, to: usize) -> (r: String)
    requires
        from <= to <= ls@.len(),
    ensures
        r@ == join_lines(views(ls@).subrange(from as int, to as int)),
{
    let mut s = String::new();
    let mut k = from;
    proof {
        assert(views(ls@).subrange(from as int, from as int) =~= Seq::<Seq<char>>::empty());
    }
    while k < to
        invariant
            from <= k <= to <= ls@.len(),
            s@ == join_lines(views(ls@).subrange(from as int, k as int)),
        decreases to - k,
    {
        let ghost prev = views(ls@).subrange(from as int, k as int);
        let ghost next = views(ls@).subrange(from as int, k + 1);
        proof {
            assert(next.drop_last() =~= prev);
            assert(next.last() == ls@[k as int]@);
        }
        if k > from {
            push_char(&mut s, '\n');
        }
        let piece = string_of(&ls[k]);
        push_str(&mut s, piece.as_str());
        proof {
            if k == from {
                assert(next.len() == 1);
                assert(s@ =~= next[0]);
            } else {
                assert(s@ =~= join_lines(prev) + seq!['\n'] + next.last());
            }
        }
        k = k + 1;
    }
    s
}

/// The source lines `start_line..=end_line` (counted from 1) of `text`;
/// empty when `start_line` lies past `end_line` or past the last line.
pub fn source_slice(text: &str, start_line: u32, end_line: u32) -> (r: String)
    ensures
        r@ == source_slice_spec(text@, start_line, end_line),
{
    let t = chars_of(text);
    let ls = split_lines(&t);
    let n = ls.len();
    let start: usize = if start_line == 0 { 0 } else { (start_line - 1) as usize };
    let end: usize = if (end_line as usize) < n { end_line as usize } else { n };
    let from = if start < n { start } else { n };
    let to = if from <= end { end } else { from };
    proof {
        assert(views(ls@).len() == ls@.len());
    }
    join_range(&ls, from, to)
}

} // verus!

verus! {

/// Position of the first source text for path `p`.
pub open spec fn first_source(sources: Seq<SourceText>, p: Seq<char>) -> int {
    choose|i: int| 0 <= i < sources.len() && (#[trigger] sources[i]).path@ == p
        && forall|j: int| 0 <= j < i ==> (#[trigger] sources[j]).path@ != p
}

/// Whether some source text is given for path `p`.
pub open spec fn has_source(sources: Seq<SourceText>, p: Seq<char>) -> bool {
    exists|i: int| 0 <= i < sources.len() && (#[trigger] sources[i]).path@ == p
}

/// The source shown for symbol `n`: its lines, from the first text given
/// for its file, when sources are asked for and such a text is given.
pub open spec fn source_for(wanted: bool, sources: Seq<SourceText>, n: Node) -> Option<Seq<char>> {
    if wanted && has_source(sources, n.file@) {
        Some(source_slice_spec(sources[first_source(sources, n.file@)].text@, n.start_line, n.end_line))
    } else {
        None
    }
}

/// Whether `h` is the context of symbol `n` for request `req`.
pub open spec fn hit_for(db: Db, req: ContextRequest, sources: Seq<SourceText>, n: Node, h: ContextHit) -> bool {
    &&& h.node == n
    &&& exists|c: crate::graph::TraverseHits| hits_spec(db.node_seq(), db.edge_seq(), seq![EdgeKind::Calls], false, n.id, req.depth as int, c)
        && h.callers@ == c.nodes@
    &&& exists|c: crate::graph::TraverseHits| hits_spec(db.node_seq(), db.edge_seq(), seq![EdgeKind::Calls], true, n.id, req.depth as int, c)
        && h.callees@ == c.nodes@
    &&& match source_for(req.include_source, sources, n) {
        Some(s) => h.source matches Some(x) && x@ == s,
        None => h.source is None,
    }
}

/// The symbols a request is about: the first `limit` matches of its query.
pub open spec fn context_candidates(db: Db, req: ContextRequest) -> Seq<Node> {
    at_most(db.node_seq().filter(|n: Node| matches_query(n, req.query@)), req.limit as int)
}

/// The source text given for `path`, if any.
fn find_source<'b>(sources: &'b [SourceText], path: &str) -> (r: Option<&'b SourceText>)
    ensures
        match r {
            Some(s) => has_source(sources@, path@) && *s == sources@[first_source(sources@, path@)],
            None => !has_source(sources@, path@),
        },
{
    let mut i: usize = 0;
    while i < sources.len()
        invariant
            0 <= i <= sources@.len(),
            forall|j: int| 0 <= j < i ==> (#[trigger] sources@[j]).path@ != path@,
        decreases sources@.len() - i,
    {
        if crate::text::str_eq(sources[i].path.as_str(), path) {
            proof {
                let f = first_source(sources@, path@);
                assert(sources@[i as int].path@ == path@);
                if f != i {
                    if f < i {
                        assert(sources@[f].path@ != path@);
                    } else {
                        assert(sources@[i as int].path@ != path@);
                    }
                }
            }
            return Some(&sources[i]);
        }
        i = i + 1;
    }
    None
}

/// Searches the store for the request's query and gathers, for each of the
/// first `limit` matches, its callers and callees to the requested depth
/// and, when asked, its source lines from `sources`.
pub fn build_response(db: &Db, req: &ContextRequest, sources: &[SourceText]) -> (r: Result<ContextResponse, Error>)
    ensures
        r matches Ok(resp) && {
            &&& resp.query@ == req.query@
            &&& resp.hits@.len() == context_candidates(*db, *req).len()
            &&& forall|i: int| 0 <= i < resp.hits@.len() ==> hit_for(
                *db, *req, sources@, context_candidates(*db, *req)[i], #[trigger] resp.hits@[i])
        },
{
    let candidates = match db.search_nodes(req.query.as_str(), req.limit) {
        Ok(c) => c,
        Err(e) => { return Err(e); },
    };
    let trav = Traversal::new(db);
    let mut hits: Vec<ContextHit> = Vec::new();
    let mut i: usize = 0;
    while i < candidates.len()
        invariant
            0 <= i <= candidates@.len(),
            trav.store() == db,
            candidates@ == context_candidates(*db, *req),
            hits@.len() == i,
            forall|k: int| 0 <= k < i ==> hit_for(*db, *req, sources@, candidates@[k], #[trigger] hits@[k]),
        decreases candidates@.len() - i,
    {
        let n = &candidates[i];
        let callers = match trav.callers(n.id, req.depth) {
            Ok(h) => h.nodes,
            Err(e) => { return Err(e); },
        };
        let callees = match trav.callees(n.id, req.depth) {
            Ok(h) => h.nodes,
            Err(e) => { return Err(e); },
        };
        let source = if req.include_source {
            match find_source(sources, n.file.as_str()) {
                Some(st) => Some(source_slice(st.text.as_str(), n.start_line, n.end_line)),
                None => None,
            }
        } else {
            None
        };
        let hit = ContextHit { node: n.duplicate(), callers, callees, source };
        proof {
            assert(hit_for(*db, *req, sources@, candidates@[i as int], hit));
        }
        hits.push(hit);
        i = i + 1;
    }
    Ok(ContextResponse { query: req.query.clone(), hits })
}

} // verus!

verus! {

/// One reference line, reached through a call: "- `name` — file:line (calls)".
pub open spec fn md_ref(c: Node) -> Seq<char> {
    "- `"@ + c.name@ + "` — "@ + c.file@ + ":"@ + dec_nat(c.start_line as nat) + " (calls)\n"@
}

/// Reference lines for each symbol, in order.
pub open spec fn md_refs(cs: Seq<Node>) -> Seq<char>
    decreases cs.len(),
{
    if cs.len() == 0 { Seq::empty() } else { md_refs(cs.drop_last()) + md_ref(cs.last()) }
}

/// A fenced code block.
pub open spec fn md_code(lang: Seq<char>, body: Seq<char>) -> Seq<char> {
    "\n```"@ + lang + "\n"@ + body + "\n```\n"@
}

/// A titled list of references, or nothing for no references.
pub open spec fn md_section(title: Seq<char>, cs: Seq<Node>) -> Seq<char> {
    if cs.len() == 0 {
        Seq::empty()
    } else {
        "\n**"@ + title + "** ("@ + dec_nat(cs.len()) + "):\n"@ + md_refs(cs)
    }
}

/// The title line of a hit: "## `name` — kind — file:line".
pub open spec fn md_title(n: Node) -> Seq<char> {
    "\n## `"@ + n.name@ + "` — "@ + node_kind_name(n.kind) + " — "@ + n.file@ + ":"@
        + dec_nat(n.start_line as nat) + "\n"@
}

/// The rendering of one hit.
pub open spec fn md_hit(h: ContextHit) -> Seq<char> {
    let n = h.node;
    md_title(n)
        + (match n.signature { Some(sig) => md_code(n.language@, sig@), None => Seq::empty() })
        + (match h.source { Some(src) => md_code(n.language@, src@), None => Seq::empty() })
        + md_section("Callers"@, h.callers@)
        + md_section("Callees"@, h.callees@)
}

/// The renderings of the hits, in order.
pub open spec fn md_hits(hs: Seq<ContextHit>) -> Seq<char>
    decreases hs.len(),
{
    if hs.len() == 0 { Seq::empty() } else { md_hits(hs.drop_last()) + md_hit(hs.last()) }
}

/// The markdown rendering of a context answer.
pub open spec fn markdown(resp: ContextResponse) -> Seq<char> {
    "# Context: `"@ + resp.query@ + "`\n"@ + if resp.hits@.len() == 0 {
        "\n_No matches._\n"@
    } else {
        md_hits(resp.hits@)
    }
}

fn render_refs(out: &mut String, title: &str, cs: &Vec<Node>)
    ensures
        final(out)@ == old(out)@ + md_section(title@, cs@),
{
    if cs.len() == 0 {
        assert(final(out)@ =~= old(out)@ + md_section(title@, cs@));
        return;
    }
    push_str(out, "\n**");
    push_str(out, title);
    push_str(out, "** (");
    push_decimal(out, cs.len() as u64);
    push_str(out, "):\n");
    let ghost head = out@;
    let mut i: usize = 0;
    while i < cs.len()
        invariant
            0 <= i <= cs@.len(),
            out@ == head + md_refs(cs@.take(i as int)),
        decreases cs@.len() - i,
    {
        let c = &cs[i];
        push_str(out, "- `");
        push_str(out, c.name.as_str());
        push_str(out, "` — ");
        push_str(out, c.file.as_str());
        push_str(out, ":");
        push_decimal(out, c.start_line as u64);
        push_str(out, " (calls)\n");
        proof {
            assert(cs@.take(i + 1).drop_last() =~= cs@.take(i as int));
            assert(cs@.take(i + 1).last() == *c);
            assert(out@ =~= head + md_refs(cs@.take(i + 1)));
        }
        i = i + 1;
    }
    proof {
        assert(cs@.take(cs@.len() as int) =~= cs@);
        assert(out@ =~= old(out)@ + md_section(title@, cs@));
    }
}

fn render_title(out: &mut String, n: &Node)
    ensures
        final(out)@ == old(out)@ + md_title(*n),
{
    push_str(out, "\n## `");
    push_str(out, n.name.as_str());
    push_str(out, "` — ");
    push_str(out, n.kind.as_str());
    push_str(out, " — ");
    push_str(out, n.file.as_str());
    push_str(out, ":");
    push_decimal(out, n.start_line as u64);
    push_str(out, "\n");
    assert(final(out)@ =~= old(out)@ + md_title(*n));
}

fn render_code(out: &mut String, lang: &str, body: &Option<String>)
    ensures
        final(out)@ == old(out)@ + match body { Some(b) => md_code(lang@, b@), None => Seq::empty() },
{
    if let Some(b) = body {
        push_str(out, "\n```");
        push_str(out, lang);
        push_str(out, "\n");
        push_str(out, b.as_str());
        push_str(out, "\n```\n");
        assert(final(out)@ =~= old(out)@ + md_code(lang@, b@));
    } else {
        assert(final(out)@ =~= old(out)@ + Seq::<char>::empty());
    }
}

fn render_hit(out: &mut String, h: &ContextHit)
    ensures
        final(out)@ == old(out)@ + md_hit(*h),
{
    let n = &h.node;
    render_title(out, n);
    render_code(out, n.language.as_str(), &n.signature);
    render_code(out, n.language.as_str(), &h.source);
    render_refs(out, "Callers", &h.callers);
    render_refs(out, "Callees", &h.callees);
    assert(final(out)@ =~= old(out)@ + md_hit(*h));
}

/// Renders a context answer as markdown.
pub fn render_markdown(resp: &ContextResponse) -> (r: String)
    ensures
        r@ == markdown(*resp),
{
    let mut out = String::new();
    push_str(&mut out, "# Context: `");
    push_str(&mut out, resp.query.as_str());
    push_str(&mut out, "`\n");
    if resp.hits.len() == 0 {
        push_str(&mut out, "\n_No matches._\n");
        assert(out@ =~= markdown(*resp));
        return out;
    }
    let ghost head = out@;
    let mut i: usize = 0;
    while i < resp.hits.len()
        invariant
            0 <= i <= resp.hits@.len(),
            out@ == head + md_hits(resp.hits@.take(i as int)),
        decreases resp.hits@.len() - i,
    {
        render_hit(&mut out, &resp.hits[i]);
        proof {
            assert(resp.hits@.take(i + 1).drop_last() =~= resp.hits@.take(i as int));
            assert(resp.hits@.take(i + 1).last() == resp.hits@[i as int]);
            assert(out@ =~= head + md_hits(resp.hits@.take(i + 1)));
        }
        i = i + 1;
    }
    proof {
        assert(resp.hits@.take(resp.hits@.len() as int) =~= resp.hits@);
        assert(out@ =~= markdown(*resp));
    }
    out
}

/// Whether `piece` occurs in `t` as a run of consecutive characters.
pub open spec fn occurs_in(piece: Seq<char>, t: Seq<char>) -> bool {
    exists|a: int| 0 <= a && a + piece.len() <= t.len() && #[trigger] t.subrange(a, a + piece.len()) == piece
}

/// What occurs in `x` occurs in `y + x + z`.
proof fn lemma_occurs_in_middle(piece: Seq<char>, x: Seq<char>, y: Seq<char>, z: Seq<char>)
    requires
        occurs_in(piece, x),
    ensures
        occurs_in(piece, y + x + z),
{
    let a = choose|a: int| 0 <= a && a + piece.len() <= x.len() && #[trigger] x.subrange(a, a + piece.len()) == piece;
    let t = y + x + z;
    let b = y.len() + a;
    assert(t.subrange(b, b + piece.len()) =~= piece);
}

/// Every text occurs in itself.
proof fn lemma_occurs_in_itself(x: Seq<char>)
    ensures
        occurs_in(x, x),
{
    let a: int = 0;
    assert(x.subrange(a, a + x.len()) =~= x);
}

/// What occurs in `x` occurs in whatever `x` occurs in.
proof fn lemma_occurs_trans(piece: Seq<char>, x: Seq<char>, y: Seq<char>)
    requires
        occurs_in(piece, x),
        occurs_in(x, y),
    ensures
        occurs_in(piece, y),
{
    let a = choose|a: int| 0 <= a && a + piece.len() <= x.len() && #[trigger] x.subrange(a, a + piece.len()) == piece;
    let b = choose|b: int| 0 <= b && b + x.len() <= y.len() && #[trigger] y.subrange(b, b + x.len()) == x;
    let c = b + a;
    assert(y.subrange(c, c + piece.len()) =~= x.subrange(a, a + piece.len()));
}

/// Each hit's rendering occurs in the rendering of the hits.
proof fn lemma_hit_rendered(hs: Seq<ContextHit>, i: int)
    requires
        0 <= i < hs.len(),
    ensures
        occurs_in(md_hit(hs[i]), md_hits(hs)),
    decreases hs.len(),
{
    let init = hs.drop_last();
    if i == hs.len() - 1 {
        lemma_occurs_in_itself(md_hit(hs[i]));
        lemma_occurs_in_middle(md_hit(hs[i]), md_hit(hs[i]), md_hits(init), Seq::empty());
        assert(md_hits(init) + md_hit(hs[i]) + Seq::<char>::empty() =~= md_hits(hs));
    } else {
        assert(init[i] == hs[i]);
        lemma_hit_rendered(init, i);
        lemma_occurs_in_middle(md_hit(hs[i]), md_hits(init), Seq::empty(), md_hit(hs.last()));
        assert(Seq::<char>::empty() + md_hits(init) + md_hit(hs.last()) =~= md_hits(hs));
    }
}

/// A fenced code block in language `lang` with body `body`.
pub open spec fn fenced(lang: Seq<char>, body: Seq<char>) -> Seq<char> {
    "\n```"@ + lang + "\n"@ + body + "\n```\n"@
}

proof fn lemma_source_in_hit(h: ContextHit)
    requires
        h.source is Some,
    ensures
        occurs_in(fenced(h.node.language@, h.source->0@), md_hit(h)),
{
    let n = h.node;
    let block = fenced(n.language@, h.source->0@);
    let sig = match n.signature {
        Some(sg) => md_code(n.language@, sg@),
        None => Seq::empty(),
    };
    let rest = md_section("Callers"@, h.callers@) + md_section("Callees"@, h.callees@);
    assert(md_hit(h) =~= (md_title(n) + sig) + block + rest);
    lemma_occurs_in_itself(block);
    lemma_occurs_in_middle(block, block, md_title(n) + sig, rest);
}

/// Requested source lines are shown: wherever a hit carries source text
/// `s`, the Markdown rendering of the answer (what `render_markdown`
/// returns) holds a fenced code block in the symbol's language whose body
/// is `s`.
pub proof fn lemma_source_is_rendered(resp: ContextResponse, i: int)
    requires
        0 <= i < resp.hits@.len(),
        resp.hits@[i].source is Some,
    ensures
        occurs_in(
            "\n```"@ + resp.hits@[i].node.language@ + "\n"@ + resp.hits@[i].source->0@ + "\n```\n"@,
            markdown(resp),
        ),
{
    let h = resp.hits@[i];
    let block = fenced(h.node.language@, h.source->0@);
    lemma_source_in_hit(h);
    lemma_hit_rendered(resp.hits@, i);
    lemma_occurs_trans(block, md_hit(h), md_hits(resp.hits@));
    let head = "# Context: `"@ + resp.query@ + "`\n"@;
    lemma_occurs_in_middle(block, md_hits(resp.hits@), head, Seq::empty());
    assert(head + md_hits(resp.hits@) + Seq::<char>::empty() =~= markdown(resp));
}

proof fn lemma_signature_in_hit(h: ContextHit)
    requires
        h.node.signature is Some,
    ensures
        occurs_in(fenced(h.node.language@, h.node.signature->0@), md_hit(h)),
{
    let n = h.node;
    let block = fenced(n.language@, n.signature->0@);
    let src = match h.source {
        Some(sr) => md_code(n.language@, sr@),
        None => Seq::empty(),
    };
    let rest = src + md_section("Callers"@, h.callers@) + md_section("Callees"@, h.callees@);
    assert(md_hit(h) =~= md_title(n) + block + rest);
    lemma_occurs_in_itself(block);
    lemma_occurs_in_middle(block, block, md_title(n), rest);
}

/// Signatures are shown: wherever a hit's symbol has a signature, the
/// Markdown rendering of the answer holds a fenced code block in the
/// symbol's language whose body is that signature.
pub proof fn lemma_signature_is_rendered(resp: ContextResponse, i: int)
    requires
        0 <= i < resp.hits@.len(),
        resp.hits@[i].node.signature is Some,
    ensures
        occurs_in(
            "\n```"@ + resp.hits@[i].node.language@ + "\n"@ + resp.hits@[i].node.signature->0@ + "\n```\n"@,
            markdown(resp),
        ),
{
    let h = resp.hits@[i];
    let block = fenced(h.node.language@, h.node.signature->0@);
    lemma_signature_in_hit(h);
    lemma_hit_rendered(resp.hits@, i);
    lemma_occurs_trans(block, md_hit(h), md_hits(resp.hits@));
    let head = "# Context: `"@ + resp.query@ + "`\n"@;
    lemma_occurs_in_middle(block, md_hits(resp.hits@), head, Seq::empty());
    assert(head + md_hits(resp.hits@) + Seq::<char>::empty() =~= markdown(resp));
}

} // verus!
