//! Symbol extraction from syntax trees: which nodes are declarations,
//! calls and imports in each language, and what is recorded for them.

use vstd::prelude::*;
use crate::config::{is_white_space, trim, trim_chars};
use crate::context::{line_end, strip_cr};
use crate::error::Error;
use crate::kinds::{EdgeKind, NodeKind};
use crate::model::NodeDraft;
use crate::orchestrator::{ExtractResult, LocalEdge, PendingCall, RawImport};
use crate::syntax::{
    SyntaxNode, SyntaxV, bytes_text, check_tree, child_by_field, field_child, first_child_in,
    first_child_of_kinds, kind_among, lemma_children_view, node_text, strs_view, text_of, text_of_node,
    tree_wf,
};
use crate::text::{chars_of, str_eq, string_of};
use crate::walker::ExtractorInfo;
use vstd::string::StringSliceAdditionalSpecFns;

verus! {

broadcast use vstd::std_specs::vec::axiom_vec_index_decreases;

/// The languages whose syntax the library reads.
#[derive(Debug, Clone, Copy, PartialEq, Eq, Structural)]
pub enum Grammar {
    C,
    CSharp,
    Java,
    Lua,
    Php,
    Python,
    Ruby,
    Rust,
    Scala,
    Swift,
    TypeScript,
    Tsx,
}

/// The name under which a language's symbols are stored.
pub open spec fn language_name(g: Grammar) -> Seq<char> {
    match g {
        Grammar::C => "c"@,
        Grammar::CSharp => "csharp"@,
        Grammar::Java => "java"@,
        Grammar::Lua => "lua"@,
        Grammar::Php => "php"@,
        Grammar::Python => "python"@,
        Grammar::Ruby => "ruby"@,
        Grammar::Rust => "rust"@,
        Grammar::Scala => "scala"@,
        Grammar::Swift => "swift"@,
        Grammar::TypeScript => "typescript"@,
        Grammar::Tsx => "tsx"@,
    }
}

/// What the walker does at a node.
pub enum Act {
    /// Records a declaration of this kind.
    Decl(NodeKind),
    /// Records an import.
    Import,
    /// Records a call.
    Call,
    /// Nothing.
    Skip,
}

/// The declaration kind of a node kind, if it is a declaration.
#[verifier::opaque]
pub open spec fn decl_of(g: Grammar, k: Seq<char>) -> Option<NodeKind> {
    match g {
        Grammar::C => if k == "function_definition"@ {
            Some(NodeKind::Function)
        } else if k == "struct_specifier"@ {
            Some(NodeKind::Struct)
        } else if k == "enum_specifier"@ {
            Some(NodeKind::Enum)
        } else if k == "union_specifier"@ {
            Some(NodeKind::Struct)
        } else if k == "type_definition"@ {
            Some(NodeKind::TypeAlias)
        } else {
            None
        },
        Grammar::CSharp => if k == "class_declaration"@ {
            Some(NodeKind::Class)
        } else if k == "struct_declaration"@ {
            Some(NodeKind::Struct)
        } else if k == "interface_declaration"@ {
            Some(NodeKind::Interface)
        } else if k == "enum_declaration"@ {
            Some(NodeKind::Enum)
        } else if k == "namespace_declaration"@ {
            Some(NodeKind::Namespace)
        } else if k == "method_declaration"@ {
            Some(NodeKind::Method)
        } else if k == "constructor_declaration"@ {
            Some(NodeKind::Method)
        } else if k == "property_declaration"@ {
            Some(NodeKind::Property)
        } else if k == "field_declaration"@ {
            Some(NodeKind::Field)
        } else if k == "record_declaration"@ {
            Some(NodeKind::Class)
        } else {
            None
        },
        Grammar::Java => if k == "class_declaration"@ {
            Some(NodeKind::Class)
        } else if k == "interface_declaration"@ {
            Some(NodeKind::Interface)
        } else if k == "enum_declaration"@ {
            Some(NodeKind::Enum)
        } else if k == "record_declaration"@ {
            Some(NodeKind::Class)
        } else if k == "method_declaration"@ {
            Some(NodeKind::Method)
        } else if k == "constructor_declaration"@ {
            Some(NodeKind::Method)
        } else if k == "field_declaration"@ {
            Some(NodeKind::Field)
        } else {
            None
        },
        Grammar::Lua => if k == "function_declaration"@ || k == "function_definition"@ || k
            == "local_function"@ {
            Some(NodeKind::Function)
        } else {
            None
        },
        Grammar::Php => if k == "function_definition"@ {
            Some(NodeKind::Function)
        } else if k == "method_declaration"@ {
            Some(NodeKind::Method)
        } else if k == "class_declaration"@ {
            Some(NodeKind::Class)
        } else if k == "interface_declaration"@ {
            Some(NodeKind::Interface)
        } else if k == "trait_declaration"@ {
            Some(NodeKind::Trait)
        } else if k == "namespace_definition"@ {
            Some(NodeKind::Namespace)
        } else {
            None
        },
        Grammar::Python => if k == "function_definition"@ {
            Some(NodeKind::Function)
        } else if k == "class_definition"@ {
            Some(NodeKind::Class)
        } else {
            None
        },
        Grammar::Ruby => if k == "method"@ || k == "singleton_method"@ {
            Some(NodeKind::Method)
        } else if k == "class"@ {
            Some(NodeKind::Class)
        } else if k == "module"@ {
            Some(NodeKind::Module)
        } else {
            None
        },
        Grammar::Rust => if k == "function_item"@ {
            Some(NodeKind::Function)
        } else if k == "struct_item"@ {
            Some(NodeKind::Struct)
        } else if k == "enum_item"@ {
            Some(NodeKind::Enum)
        } else if k == "trait_item"@ {
            Some(NodeKind::Trait)
        } else if k == "impl_item"@ {
            Some(NodeKind::Namespace)
        } else if k == "mod_item"@ {
            Some(NodeKind::Module)
        } else if k == "const_item"@ {
            Some(NodeKind::Constant)
        } else if k == "static_item"@ {
            Some(NodeKind::Variable)
        } else if k == "type_item"@ {
            Some(NodeKind::TypeAlias)
        } else {
            None
        },
        Grammar::Scala => if k == "function_definition"@ || k == "function_declaration"@ {
            Some(NodeKind::Function)
        } else if k == "class_definition"@ {
            Some(NodeKind::Class)
        } else if k == "object_definition"@ {
            Some(NodeKind::Module)
        } else if k == "trait_definition"@ {
            Some(NodeKind::Trait)
        } else if k == "val_definition"@ {
            Some(NodeKind::Constant)
        } else if k == "var_definition"@ {
            Some(NodeKind::Variable)
        } else {
            None
        },
        Grammar::Swift => if k == "function_declaration"@ {
            Some(NodeKind::Function)
        } else if k == "class_declaration"@ {
            Some(NodeKind::Class)
        } else if k == "protocol_declaration"@ {
            Some(NodeKind::Protocol)
        } else if k == "property_declaration"@ {
            Some(NodeKind::Property)
        } else {
            None
        },
        Grammar::TypeScript | Grammar::Tsx => if k == "function_declaration"@ || k
            == "function_expression"@ || k == "arrow_function"@ {
            Some(NodeKind::Function)
        } else if k == "method_definition"@ || k == "method_signature"@ {
            Some(NodeKind::Method)
        } else if k == "class_declaration"@ || k == "class"@ {
            Some(NodeKind::Class)
        } else if k == "interface_declaration"@ {
            Some(NodeKind::Interface)
        } else if k == "type_alias_declaration"@ {
            Some(NodeKind::TypeAlias)
        } else if k == "enum_declaration"@ {
            Some(NodeKind::Enum)
        } else if k == "variable_declarator"@ {
            Some(NodeKind::Variable)
        } else {
            None
        },
    }
}

/// Whether a node kind is an import.
#[verifier::opaque]
pub open spec fn is_import_kind(g: Grammar, k: Seq<char>) -> bool {
    match g {
        Grammar::C => k == "preproc_include"@,
        Grammar::CSharp => k == "using_directive"@,
        Grammar::Java => k == "import_declaration"@,
        Grammar::Lua => false,
        Grammar::Php => k == "namespace_use_declaration"@,
        Grammar::Python => k == "import_statement"@ || k == "import_from_statement"@,
        Grammar::Ruby => false,
        Grammar::Rust => k == "use_declaration"@,
        Grammar::Scala => k == "import_declaration"@,
        Grammar::Swift => k == "import_declaration"@,
        Grammar::TypeScript | Grammar::Tsx => k == "import_statement"@,
    }
}

/// Whether a node kind is a call.
#[verifier::opaque]
pub open spec fn is_call_kind(g: Grammar, k: Seq<char>) -> bool {
    match g {
        Grammar::C => k == "call_expression"@,
        Grammar::CSharp => k == "invocation_expression"@,
        Grammar::Java => k == "method_invocation"@,
        Grammar::Lua => k == "function_call"@,
        Grammar::Php => k == "function_call_expression"@,
        Grammar::Python => k == "call"@,
        Grammar::Ruby => k == "call"@,
        Grammar::Rust => k == "call_expression"@,
        Grammar::Scala => k == "call_expression"@,
        Grammar::Swift => k == "call_expression"@,
        Grammar::TypeScript | Grammar::Tsx => k == "call_expression"@,
    }
}

/// What the walker does at a node of kind `k`: declarations first, then
/// imports, then calls.
#[verifier::opaque]
pub open spec fn act_of(g: Grammar, k: Seq<char>) -> Act {
    match decl_of(g, k) {
        Some(nk) => Act::Decl(nk),
        None => if is_import_kind(g, k) {
            Act::Import
        } else if is_call_kind(g, k) {
            Act::Call
        } else {
            Act::Skip
        },
    }
}

/// Whether a language is read with the declarative rules (names by field,
/// declarator or first identifier; calls by callee field).
pub open spec fn is_declarative(g: Grammar) -> bool {
    !(g is Python || g is Rust || g is TypeScript || g is Tsx)
}

/// The node kinds that make up a C/C++ declarator chain.
pub open spec fn declarator_kinds() -> Seq<Seq<char>> {
    seq![
        "function_declarator"@,
        "pointer_declarator"@,
        "reference_declarator"@,
        "array_declarator"@,
        "parenthesized_declarator"@,
        "abstract_function_declarator"@,
        "variadic_declarator"@,
        "identifier"@,
        "field_identifier"@,
        "destructor_name"@,
        "operator_name"@,
        "qualified_identifier"@,
        "operator_cast"@,
    ]
}

/// The node kinds that wrap a declarator.
pub open spec fn is_wrapping_declarator(k: Seq<char>) -> bool {
    ||| k == "function_declarator"@
    ||| k == "pointer_declarator"@
    ||| k == "reference_declarator"@
    ||| k == "array_declarator"@
    ||| k == "parenthesized_declarator"@
    ||| k == "abstract_function_declarator"@
    ||| k == "variadic_declarator"@
}

/// The position of the inner declarator of `n` among its children.
pub open spec fn declarator_next(n: SyntaxV) -> int {
    let i = crate::syntax::field_index(n, "declarator"@);
    if 0 <= i < n.children.len() {
        i
    } else {
        crate::syntax::first_index(n.children, crate::syntax::kind_in(declarator_kinds()))
    }
}

/// The identifier that a declarator chain names; `parent_kind` is the kind of
/// the node that `n` hangs under.
pub open spec fn declarator_name(n: SyntaxV, parent_kind: Seq<char>) -> Option<SyntaxV>
    decreases n,
{
    let k = n.kind;
    if k == "identifier"@ || k == "field_identifier"@ || k == "destructor_name"@ || k
        == "operator_name"@ {
        Some(n)
    } else if k == "type_identifier"@ && parent_kind == "operator_cast"@ {
        Some(n)
    } else if is_wrapping_declarator(k) {
        let i = declarator_next(n);
        if 0 <= i < n.children.len() {
            declarator_name(n.children[i], k)
        } else {
            None
        }
    } else if k == "qualified_identifier"@ {
        field_child(n, "name"@)
    } else {
        None
    }
}

/// The identifier kinds that name a declaration when nothing else does.
pub open spec fn identifier_kinds() -> Seq<Seq<char>> {
    seq!["identifier"@, "type_identifier"@, "field_identifier"@, "property_identifier"@, "simple_identifier"@]
}

/// The identifier kinds that name a TypeScript declaration without a name field.
pub open spec fn ts_identifier_kinds() -> Seq<Seq<char>> {
    seq!["identifier"@, "type_identifier"@, "property_identifier"@]
}

pub open spec fn or_else(a: Option<SyntaxV>, b: Option<SyntaxV>) -> Option<SyntaxV> {
    match a {
        Some(x) => Some(x),
        None => b,
    }
}

/// The node that names a declaration.
#[verifier::opaque]
pub open spec fn name_node(g: Grammar, n: SyntaxV) -> Option<SyntaxV> {
    if is_declarative(g) {
        or_else(
            field_child(n, "name"@),
            or_else(
                match field_child(n, "declarator"@) {
                    Some(d) => declarator_name(d, n.kind),
                    None => None,
                },
                first_child_in(n, identifier_kinds()),
            ),
        )
    } else if g is Python {
        field_child(n, "name"@)
    } else if g is Rust {
        or_else(field_child(n, "name"@), field_child(n, "type"@))
    } else {
        or_else(field_child(n, "name"@), first_child_in(n, ts_identifier_kinds()))
    }
}

/// The line number (from 1) of a row (from 0).
pub open spec fn line_of(row: usize) -> u32 {
    (row + 1) as u32
}

/// The first line of `t`, without a carriage return before its newline.
pub open spec fn first_line(t: Seq<char>) -> Seq<char> {
    if t.len() == 0 {
        Seq::empty()
    } else {
        strip_cr(t.subrange(0, line_end(t, 0)), line_end(t, 0) < t.len())
    }
}

/// The signature recorded for a declaration: the first line of its trimmed
/// text up to its body, where that text is UTF-8.
#[verifier::opaque]
pub open spec fn signature_of(src: Seq<u8>, n: SyntaxV) -> Option<Seq<char>> {
    let end = match field_child(n, "body"@) {
        Some(b) => b.start_byte as int,
        None => n.end_byte as int,
    };
    let end = if end < src.len() {
        end
    } else {
        src.len() as int
    };
    match bytes_text(src, n.start_byte as int, end) {
        Some(t) => Some(first_line(trim(t))),
        None => None,
    }
}

/// Sets of characters trimmed from the ends of a text.
#[derive(Debug, Clone, Copy, PartialEq, Eq, Structural)]
pub enum TrimSet {
    /// `"` and `'`.
    Quotes,
    /// `"`, `<` and `>`.
    IncludeDelims,
    /// `"`, `'` and `` ` ``.
    ScriptQuotes,
}

pub open spec fn in_set(set: TrimSet, c: char) -> bool {
    match set {
        TrimSet::Quotes => c == '"' || c == '\'',
        TrimSet::IncludeDelims => c == '"' || c == '<' || c == '>',
        TrimSet::ScriptQuotes => c == '"' || c == '\'' || c == '`',
    }
}

/// `s` without the leading and trailing characters of `set`.
pub open spec fn trim_by(s: Seq<char>, set: TrimSet) -> Seq<char>
    decreases s.len(),
{
    if s.len() > 0 && in_set(set, s[0]) {
        trim_by(s.drop_first(), set)
    } else if s.len() > 0 && in_set(set, s.last()) {
        trim_by(s.drop_last(), set)
    } else {
        s
    }
}

/// The docstring of a Python declaration: the string literal that opens its
/// body, without its quotes.
#[verifier::opaque]
pub open spec fn docstring_of(g: Grammar, src: Seq<u8>, n: SyntaxV) -> Option<Seq<char>> {
    if g is Python {
        match field_child(n, "body"@) {
            Some(b) => if b.children.len() > 0 && b.children[0].kind == "expression_statement"@ {
                let st = b.children[0];
                if st.children.len() > 0 && st.children[0].kind == "string"@ {
                    match node_text(src, st.children[0]) {
                        Some(t) => Some(trim_by(t, TrimSet::Quotes)),
                        None => None,
                    }
                } else {
                    None
                }
            } else {
                None
            },
            None => None,
        }
    } else {
        None
    }
}

/// The view of a symbol draft.
pub struct DraftV {
    pub kind: NodeKind,
    pub name: Seq<char>,
    pub qualified_name: Option<Seq<char>>,
    pub start_line: u32,
    pub end_line: u32,
    pub signature: Option<Seq<char>>,
    pub docstring: Option<Seq<char>>,
    pub language: Seq<char>,
}

/// The view of a call found by an extractor.
pub struct CallV {
    pub from_idx: usize,
    pub target: Seq<char>,
    pub line: u32,
}

/// The view of an import found by an extractor.
pub struct ImportV {
    pub from_idx: Option<usize>,
    pub module: Seq<char>,
    pub line: u32,
}

/// What a walk has found so far, and the declaration it is inside.
pub struct CtxV {
    pub nodes: Seq<DraftV>,
    pub edges: Seq<LocalEdge>,
    pub calls: Seq<CallV>,
    pub imports: Seq<ImportV>,
    pub parent: Option<usize>,
}

/// The draft recorded for declaration `n` of kind `nk`, if it has a
/// non-empty name with UTF-8 text.
#[verifier::opaque]
pub open spec fn draft_of(g: Grammar, src: Seq<u8>, n: SyntaxV, nk: NodeKind) -> Option<DraftV> {
    match name_node(g, n) {
        None => None,
        Some(nn) => match node_text(src, nn) {
            None => None,
            Some(name) => if name.len() == 0 {
                None
            } else {
                Some(
                    DraftV {
                        kind: nk,
                        name,
                        qualified_name: None,
                        start_line: line_of(n.start_row),
                        end_line: line_of(n.end_row),
                        signature: signature_of(src, n),
                        docstring: docstring_of(g, src, n),
                        language: language_name(g),
                    },
                )
            },
        },
    }
}

/// The first node, in left-to-right postorder of the forest `cs`, whose kind
/// is one of `ks` and whose text is UTF-8: its text.
pub open spec fn post_first(src: Seq<u8>, cs: Seq<SyntaxV>, ks: Seq<Seq<char>>) -> Option<Seq<char>>
    decreases cs,
{
    if cs.len() == 0 {
        None
    } else {
        let below = post_first(src, cs[0].children, ks);
        if below is Some {
            below
        } else if ks.contains(cs[0].kind) && node_text(src, cs[0]) is Some {
            node_text(src, cs[0])
        } else {
            post_first(src, cs.subrange(1, cs.len() as int), ks)
        }
    }
}

/// The field of a call that holds the callee, in the declarative languages.
pub open spec fn callee_field(g: Grammar) -> Seq<char> {
    match g {
        Grammar::Java | Grammar::Lua | Grammar::Swift => "name"@,
        Grammar::Ruby => "method"@,
        _ => "function"@,
    }
}

/// The kinds of a callee that are its name, in the declarative languages.
pub open spec fn callee_kinds(g: Grammar) -> Seq<Seq<char>> {
    match g {
        Grammar::C => seq!["identifier"@, "field_identifier"@],
        Grammar::Php => seq!["name"@, "qualified_name"@],
        Grammar::Ruby => seq!["identifier"@, "constant"@],
        Grammar::Swift => seq!["simple_identifier"@],
        _ => seq!["identifier"@],
    }
}

pub open spec fn field_text(src: Seq<u8>, n: SyntaxV, f: Seq<char>) -> Option<Seq<char>> {
    match field_child(n, f) {
        Some(c) => node_text(src, c),
        None => None,
    }
}

/// The name called at call node `n`.
#[verifier::opaque]
pub open spec fn callee_name(g: Grammar, src: Seq<u8>, n: SyntaxV) -> Option<Seq<char>> {
    if is_declarative(g) {
        match field_child(n, callee_field(g)) {
            None => None,
            Some(c) => if callee_kinds(g).contains(c.kind) {
                node_text(src, c)
            } else {
                post_first(src, c.children, callee_kinds(g))
            },
        }
    } else {
        match field_child(n, "function"@) {
            None => None,
            Some(c) => if c.kind == "identifier"@ {
                node_text(src, c)
            } else if g is Python && c.kind == "attribute"@ {
                field_text(src, c, "attribute"@)
            } else if g is Rust && c.kind == "field_expression"@ {
                field_text(src, c, "field"@)
            } else if g is Rust && c.kind == "scoped_identifier"@ {
                field_text(src, c, "name"@)
            } else if (g is TypeScript || g is Tsx) && c.kind == "member_expression"@ {
                field_text(src, c, "property"@)
            } else {
                None
            },
        }
    }
}

/// `s` with every leading copy of `p` removed (`p` not empty).
pub open spec fn strip_prefixes(s: Seq<char>, p: Seq<char>) -> Seq<char>
    decreases s.len(),
{
    if p.len() > 0 && p.len() <= s.len() && s.subrange(0, p.len() as int) == p {
        strip_prefixes(s.subrange(p.len() as int, s.len() as int), p)
    } else {
        s
    }
}

/// `s` without its trailing copies of `c`.
pub open spec fn strip_trailing(s: Seq<char>, c: char) -> Seq<char>
    decreases s.len(),
{
    if s.len() > 0 && s.last() == c {
        strip_trailing(s.drop_last(), c)
    } else {
        s
    }
}

/// The length of the leading run of `t` without white space.
pub open spec fn token_len(t: Seq<char>) -> int
    decreases t.len(),
{
    if t.len() == 0 || is_white_space(t[0]) {
        0
    } else {
        1 + token_len(t.drop_first())
    }
}

/// The first white-space separated word of `s`, or `s` itself when it has none.
pub open spec fn first_word_or_all(s: Seq<char>) -> Seq<char> {
    let t = crate::config::trim_start(s);
    if t.len() == 0 {
        s
    } else {
        t.subrange(0, token_len(t))
    }
}

/// The module named by a Rust `use` declaration: its text after `use `, up
/// to the first white space, without trailing semicolons.
pub open spec fn use_module(t: Seq<char>) -> Seq<char> {
    first_word_or_all(strip_trailing(strip_prefixes(trim(t), "use "@), ';'))
}

/// The module named by import node `n`.
#[verifier::opaque]
pub open spec fn import_module(g: Grammar, src: Seq<u8>, n: SyntaxV) -> Option<Seq<char>> {
    match g {
        Grammar::C => match first_child_in(n, seq!["string_literal"@, "system_lib_string"@]) {
            Some(c) => match node_text(src, c) {
                Some(t) => Some(trim_by(t, TrimSet::IncludeDelims)),
                None => None,
            },
            None => None,
        },
        Grammar::Java => match first_child_in(n, seq!["scoped_identifier"@, "identifier"@]) {
            Some(c) => node_text(src, c),
            None => None,
        },
        Grammar::CSharp => field_text(src, n, "name"@),
        Grammar::Php => match first_child_in(n, seq!["namespace_name"@, "qualified_name"@]) {
            Some(c) => node_text(src, c),
            None => None,
        },
        Grammar::Python => if n.kind == "import_from_statement"@ {
            field_text(src, n, "module_name"@)
        } else {
            match first_child_in(n, seq!["dotted_name"@]) {
                Some(c) => node_text(src, c),
                None => None,
            }
        },
        Grammar::Rust => match node_text(src, n) {
            Some(t) => Some(use_module(t)),
            None => None,
        },
        Grammar::TypeScript | Grammar::Tsx => match field_text(src, n, "source"@) {
            Some(t) => Some(trim_by(t, TrimSet::ScriptQuotes)),
            None => None,
        },
        _ => match node_text(src, n) {
            Some(t) => Some(trim(t)),
            None => None,
        },
    }
}

/// The walk state after the action at node `n`, and the index of the
/// declaration recorded there, if any.
#[verifier::opaque]
pub open spec fn act(g: Grammar, src: Seq<u8>, n: SyntaxV, c: CtxV) -> (CtxV, Option<usize>) {
    match act_of(g, n.kind) {
        Act::Decl(nk) => match draft_of(g, src, n, nk) {
            Some(d) => (CtxV { nodes: c.nodes.push(d), ..c }, Some(c.nodes.len() as usize)),
            None => (c, None),
        },
        Act::Import => match import_module(g, src, n) {
            Some(m) => (
                CtxV {
                    imports: c.imports.push(ImportV { from_idx: c.parent, module: m, line: line_of(n.start_row) }),
                    ..c
                },
                None,
            ),
            None => (c, None),
        },
        Act::Call => match (callee_name(g, src, n), c.parent) {
            (Some(t), Some(p)) => (
                CtxV { calls: c.calls.push(CallV { from_idx: p, target: t, line: line_of(n.start_row) }), ..c },
                None,
            ),
            _ => (c, None),
        },
        Act::Skip => (c, None),
    }
}

/// The walk state after the whole subtree of `n`.
pub open spec fn walk_node(g: Grammar, src: Seq<u8>, n: SyntaxV, c: CtxV) -> CtxV
    decreases n,
{
    let (c1, pushed) = act(g, src, n, c);
    let c2 = match pushed {
        Some(idx) => CtxV {
            edges: match c.parent {
                Some(p) => c1.edges.push(LocalEdge { from_idx: p, to_idx: idx, kind: EdgeKind::Contains, line: None }),
                None => c1.edges,
            },
            parent: Some(idx),
            ..c1
        },
        None => c1,
    };
    let c3 = walk_list(g, src, n.children, c2);
    CtxV { parent: c.parent, ..c3 }
}

/// The walk state after the subtrees of `cs`, in order.
pub open spec fn walk_list(g: Grammar, src: Seq<u8>, cs: Seq<SyntaxV>, c: CtxV) -> CtxV
    decreases cs,
{
    if cs.len() == 0 {
        c
    } else {
        walk_node(g, src, cs.last(), walk_list(g, src, cs.drop_last(), c))
    }
}

/// The name under which a language's symbols are stored.
pub fn language(g: Grammar) -> (r: &'static str)
    ensures
        r@ == language_name(g),
{
    match g {
        Grammar::C => "c",
        Grammar::CSharp => "csharp",
        Grammar::Java => "java",
        Grammar::Lua => "lua",
        Grammar::Php => "php",
        Grammar::Python => "python",
        Grammar::Ruby => "ruby",
        Grammar::Rust => "rust",
        Grammar::Scala => "scala",
        Grammar::Swift => "swift",
        Grammar::TypeScript => "typescript",
        Grammar::Tsx => "tsx",
    }
}

/// The file extensions of a language.
pub open spec fn extensions_of(g: Grammar) -> Seq<Seq<char>> {
    match g {
        Grammar::C => seq!["c"@],
        Grammar::CSharp => seq!["cs"@],
        Grammar::Java => seq!["java"@],
        Grammar::Lua => seq!["lua"@],
        Grammar::Php => seq!["php"@],
        Grammar::Python => seq!["py"@, "pyi"@],
        Grammar::Ruby => seq!["rb"@],
        Grammar::Rust => seq!["rs"@],
        Grammar::Scala => seq!["scala"@, "sc"@],
        Grammar::Swift => seq!["swift"@],
        Grammar::TypeScript => seq!["ts"@, "mts"@, "cts"@],
        Grammar::Tsx => seq!["tsx"@],
    }
}

fn owned(s: &str) -> (r: String)
    ensures
        r@ == s@,
{
    s.to_owned()
}

/// The file extensions of a language.
pub fn extensions(g: Grammar) -> (r: Vec<String>)
    ensures
        r@.map_values(|e: String| e@) == extensions_of(g),
{
    let mut v: Vec<String> = Vec::new();
    match g {
        Grammar::C => v.push(owned("c")),
        Grammar::CSharp => v.push(owned("cs")),
        Grammar::Java => v.push(owned("java")),
        Grammar::Lua => v.push(owned("lua")),
        Grammar::Php => v.push(owned("php")),
        Grammar::Python => {
            v.push(owned("py"));
            v.push(owned("pyi"));
        },
        Grammar::Ruby => v.push(owned("rb")),
        Grammar::Rust => v.push(owned("rs")),
        Grammar::Scala => {
            v.push(owned("scala"));
            v.push(owned("sc"));
        },
        Grammar::Swift => v.push(owned("swift")),
        Grammar::TypeScript => {
            v.push(owned("ts"));
            v.push(owned("mts"));
            v.push(owned("cts"));
        },
        Grammar::Tsx => v.push(owned("tsx")),
    }
    assert(v@.map_values(|e: String| e@) =~= extensions_of(g));
    v
}

/// The languages the library reads, in registry order.
pub open spec fn grammars() -> Seq<Grammar> {
    seq![
        Grammar::C,
        Grammar::CSharp,
        Grammar::Java,
        Grammar::Lua,
        Grammar::Php,
        Grammar::Python,
        Grammar::Ruby,
        Grammar::Rust,
        Grammar::Scala,
        Grammar::Swift,
        Grammar::TypeScript,
        Grammar::Tsx,
    ]
}

/// The languages the library reads, in registry order.
pub fn all_grammars() -> (r: Vec<Grammar>)
    ensures
        r@ == grammars(),
{
    let v = vec![
        Grammar::C,
        Grammar::CSharp,
        Grammar::Java,
        Grammar::Lua,
        Grammar::Php,
        Grammar::Python,
        Grammar::Ruby,
        Grammar::Rust,
        Grammar::Scala,
        Grammar::Swift,
        Grammar::TypeScript,
        Grammar::Tsx,
    ];
    assert(v@ =~= grammars());
    v
}

/// What the walker knows of each extractor: its language and extensions,
/// in registry order.
pub fn registry() -> (r: Vec<ExtractorInfo>)
    ensures
        r@.len() == grammars().len(),
        forall|i: int|
            0 <= i < r@.len() ==> (#[trigger] r@[i]).language@ == language_name(grammars()[i])
                && r@[i].extensions@.map_values(|e: String| e@) == extensions_of(grammars()[i]),
{
    let gs = all_grammars();
    let mut out: Vec<ExtractorInfo> = Vec::new();
    let mut i: usize = 0;
    while i < gs.len()
        invariant
            gs@ == grammars(),
            0 <= i <= gs@.len(),
            out@.len() == i,
            forall|k: int|
                0 <= k < i ==> (#[trigger] out@[k]).language@ == language_name(grammars()[k])
                    && out@[k].extensions@.map_values(|e: String| e@) == extensions_of(grammars()[k]),
        decreases gs@.len() - i,
    {
        let g = gs[i];
        out.push(ExtractorInfo { language: owned(language(g)), extensions: extensions(g) });
        i = i + 1;
    }
    out
}

fn decl_of_exec(g: Grammar, k: &str) -> (r: Option<NodeKind>)
    ensures
        r == decl_of(g, k@),
{
    proof {
        reveal(decl_of);
    }
    match g {
        Grammar::C => if str_eq(k, "function_definition") {
            Some(NodeKind::Function)
        } else if str_eq(k, "struct_specifier") {
            Some(NodeKind::Struct)
        } else if str_eq(k, "enum_specifier") {
            Some(NodeKind::Enum)
        } else if str_eq(k, "union_specifier") {
            Some(NodeKind::Struct)
        } else if str_eq(k, "type_definition") {
            Some(NodeKind::TypeAlias)
        } else {
            None
        },
        Grammar::CSharp => if str_eq(k, "class_declaration") {
            Some(NodeKind::Class)
        } else if str_eq(k, "struct_declaration") {
            Some(NodeKind::Struct)
        } else if str_eq(k, "interface_declaration") {
            Some(NodeKind::Interface)
        } else if str_eq(k, "enum_declaration") {
            Some(NodeKind::Enum)
        } else if str_eq(k, "namespace_declaration") {
            Some(NodeKind::Namespace)
        } else if str_eq(k, "method_declaration") {
            Some(NodeKind::Method)
        } else if str_eq(k, "constructor_declaration") {
            Some(NodeKind::Method)
        } else if str_eq(k, "property_declaration") {
            Some(NodeKind::Property)
        } else if str_eq(k, "field_declaration") {
            Some(NodeKind::Field)
        } else if str_eq(k, "record_declaration") {
            Some(NodeKind::Class)
        } else {
            None
        },
        Grammar::Java => if str_eq(k, "class_declaration") {
            Some(NodeKind::Class)
        } else if str_eq(k, "interface_declaration") {
            Some(NodeKind::Interface)
        } else if str_eq(k, "enum_declaration") {
            Some(NodeKind::Enum)
        } else if str_eq(k, "record_declaration") {
            Some(NodeKind::Class)
        } else if str_eq(k, "method_declaration") {
            Some(NodeKind::Method)
        } else if str_eq(k, "constructor_declaration") {
            Some(NodeKind::Method)
        } else if str_eq(k, "field_declaration") {
            Some(NodeKind::Field)
        } else {
            None
        },
        Grammar::Lua => if str_eq(k, "function_declaration") || str_eq(k, "function_definition")
            || str_eq(k, "local_function") {
            Some(NodeKind::Function)
        } else {
            None
        },
        Grammar::Php => if str_eq(k, "function_definition") {
            Some(NodeKind::Function)
        } else if str_eq(k, "method_declaration") {
            Some(NodeKind::Method)
        } else if str_eq(k, "class_declaration") {
            Some(NodeKind::Class)
        } else if str_eq(k, "interface_declaration") {
            Some(NodeKind::Interface)
        } else if str_eq(k, "trait_declaration") {
            Some(NodeKind::Trait)
        } else if str_eq(k, "namespace_definition") {
            Some(NodeKind::Namespace)
        } else {
            None
        },
        Grammar::Python => if str_eq(k, "function_definition") {
            Some(NodeKind::Function)
        } else if str_eq(k, "class_definition") {
            Some(NodeKind::Class)
        } else {
            None
        },
        Grammar::Ruby => if str_eq(k, "method") || str_eq(k, "singleton_method") {
            Some(NodeKind::Method)
        } else if str_eq(k, "class") {
            Some(NodeKind::Class)
        } else if str_eq(k, "module") {
            Some(NodeKind::Module)
        } else {
            None
        },
        Grammar::Rust => if str_eq(k, "function_item") {
            Some(NodeKind::Function)
        } else if str_eq(k, "struct_item") {
            Some(NodeKind::Struct)
        } else if str_eq(k, "enum_item") {
            Some(NodeKind::Enum)
        } else if str_eq(k, "trait_item") {
            Some(NodeKind::Trait)
        } else if str_eq(k, "impl_item") {
            Some(NodeKind::Namespace)
        } else if str_eq(k, "mod_item") {
            Some(NodeKind::Module)
        } else if str_eq(k, "const_item") {
            Some(NodeKind::Constant)
        } else if str_eq(k, "static_item") {
            Some(NodeKind::Variable)
        } else if str_eq(k, "type_item") {
            Some(NodeKind::TypeAlias)
        } else {
            None
        },
        Grammar::Scala => if str_eq(k, "function_definition") || str_eq(k, "function_declaration") {
            Some(NodeKind::Function)
        } else if str_eq(k, "class_definition") {
            Some(NodeKind::Class)
        } else if str_eq(k, "object_definition") {
            Some(NodeKind::Module)
        } else if str_eq(k, "trait_definition") {
            Some(NodeKind::Trait)
        } else if str_eq(k, "val_definition") {
            Some(NodeKind::Constant)
        } else if str_eq(k, "var_definition") {
            Some(NodeKind::Variable)
        } else {
            None
        },
        Grammar::Swift => if str_eq(k, "function_declaration") {
            Some(NodeKind::Function)
        } else if str_eq(k, "class_declaration") {
            Some(NodeKind::Class)
        } else if str_eq(k, "protocol_declaration") {
            Some(NodeKind::Protocol)
        } else if str_eq(k, "property_declaration") {
            Some(NodeKind::Property)
        } else {
            None
        },
        Grammar::TypeScript | Grammar::Tsx => if str_eq(k, "function_declaration") || str_eq(
            k,
            "function_expression",
        ) || str_eq(k, "arrow_function") {
            Some(NodeKind::Function)
        } else if str_eq(k, "method_definition") || str_eq(k, "method_signature") {
            Some(NodeKind::Method)
        } else if str_eq(k, "class_declaration") || str_eq(k, "class") {
            Some(NodeKind::Class)
        } else if str_eq(k, "interface_declaration") {
            Some(NodeKind::Interface)
        } else if str_eq(k, "type_alias_declaration") {
            Some(NodeKind::TypeAlias)
        } else if str_eq(k, "enum_declaration") {
            Some(NodeKind::Enum)
        } else if str_eq(k, "variable_declarator") {
            Some(NodeKind::Variable)
        } else {
            None
        },
    }
}

fn is_import_kind_exec(g: Grammar, k: &str) -> (r: bool)
    ensures
        r == is_import_kind(g, k@),
{
    proof {
        reveal(is_import_kind);
    }
    match g {
        Grammar::C => str_eq(k, "preproc_include"),
        Grammar::CSharp => str_eq(k, "using_directive"),
        Grammar::Java => str_eq(k, "import_declaration"),
        Grammar::Lua => false,
        Grammar::Php => str_eq(k, "namespace_use_declaration"),
        Grammar::Python => str_eq(k, "import_statement") || str_eq(k, "import_from_statement"),
        Grammar::Ruby => false,
        Grammar::Rust => str_eq(k, "use_declaration"),
        Grammar::Scala => str_eq(k, "import_declaration"),
        Grammar::Swift => str_eq(k, "import_declaration"),
        Grammar::TypeScript | Grammar::Tsx => str_eq(k, "import_statement"),
    }
}

fn is_call_kind_exec(g: Grammar, k: &str) -> (r: bool)
    ensures
        r == is_call_kind(g, k@),
{
    proof {
        reveal(is_call_kind);
    }
    match g {
        Grammar::C => str_eq(k, "call_expression"),
        Grammar::CSharp => str_eq(k, "invocation_expression"),
        Grammar::Java => str_eq(k, "method_invocation"),
        Grammar::Lua => str_eq(k, "function_call"),
        Grammar::Php => str_eq(k, "function_call_expression"),
        Grammar::Python => str_eq(k, "call"),
        Grammar::Ruby => str_eq(k, "call"),
        Grammar::Rust => str_eq(k, "call_expression"),
        Grammar::Scala => str_eq(k, "call_expression"),
        Grammar::Swift => str_eq(k, "call_expression"),
        Grammar::TypeScript | Grammar::Tsx => str_eq(k, "call_expression"),
    }
}

fn act_of_exec(g: Grammar, k: &str) -> (r: Act)
    ensures
        r == act_of(g, k@),
{
    proof {
        reveal(act_of);
    }
    match decl_of_exec(g, k) {
        Some(nk) => Act::Decl(nk),
        None => if is_import_kind_exec(g, k) {
            Act::Import
        } else if is_call_kind_exec(g, k) {
            Act::Call
        } else {
            Act::Skip
        },
    }
}

fn declarator_kind_list() -> (r: Vec<&'static str>)
    ensures
        strs_view(r@) == declarator_kinds(),
{
    let v = vec![
        "function_declarator",
        "pointer_declarator",
        "reference_declarator",
        "array_declarator",
        "parenthesized_declarator",
        "abstract_function_declarator",
        "variadic_declarator",
        "identifier",
        "field_identifier",
        "destructor_name",
        "operator_name",
        "qualified_identifier",
        "operator_cast",
    ];
    assert(strs_view(v@) =~= declarator_kinds());
    v
}

/// Whether a node kind is part of a C/C++ declarator chain.
pub fn is_declarator_kind(kind: &str) -> (r: bool)
    ensures
        r == declarator_kinds().contains(kind@),
{
    let ks = declarator_kind_list();
    kind_among(ks.as_slice(), kind)
}

fn is_wrapping_declarator_exec(k: &str) -> (r: bool)
    ensures
        r == is_wrapping_declarator(k@),
{
    str_eq(k, "function_declarator") || str_eq(k, "pointer_declarator") || str_eq(
        k,
        "reference_declarator",
    ) || str_eq(k, "array_declarator") || str_eq(k, "parenthesized_declarator") || str_eq(
        k,
        "abstract_function_declarator",
    ) || str_eq(k, "variadic_declarator")
}

/// The identifier that a declarator chain names.
#[verifier::rlimit(30)]
fn declarator_name_exec<'a>(n: &'a SyntaxNode, parent_kind: &str) -> (r: Option<&'a SyntaxNode>)
    ensures
        match r {
            Some(c) => declarator_name(n@, parent_kind@) == Some(c@),
            None => declarator_name(n@, parent_kind@) is None,
        },
    decreases n,
{
    proof {
        lemma_children_view(*n);
    }
    let k = n.kind.as_str();
    if str_eq(k, "identifier") || str_eq(k, "field_identifier") || str_eq(k, "destructor_name")
        || str_eq(k, "operator_name") {
        Some(n)
    } else if str_eq(k, "type_identifier") && str_eq(parent_kind, "operator_cast") {
        Some(n)
    } else if is_wrapping_declarator_exec(k) {
        let next = match child_by_field(n, "declarator") {
            Some(d) => Some(d),
            None => {
                let ks = declarator_kind_list();
                first_child_of_kinds(n, ks.as_slice())
            },
        };
        match next {
            Some(d) => {
                proof {
                    let i = declarator_next(n@);
                    assert(0 <= i < n@.children.len());
                    assert(*d == n.children@[i]);
                    assert(decreases_to!(n.children => n.children[i]));
                }
                declarator_name_exec(d, k)
            },
            None => None,
        }
    } else if str_eq(k, "qualified_identifier") {
        child_by_field(n, "name")
    } else {
        None
    }
}

fn identifier_kind_list() -> (r: Vec<&'static str>)
    ensures
        strs_view(r@) == identifier_kinds(),
{
    let v = vec!["identifier", "type_identifier", "field_identifier", "property_identifier", "simple_identifier"];
    assert(strs_view(v@) =~= identifier_kinds());
    v
}

fn ts_identifier_kind_list() -> (r: Vec<&'static str>)
    ensures
        strs_view(r@) == ts_identifier_kinds(),
{
    let v = vec!["identifier", "type_identifier", "property_identifier"];
    assert(strs_view(v@) =~= ts_identifier_kinds());
    v
}

fn is_declarative_exec(g: Grammar) -> (r: bool)
    ensures
        r == is_declarative(g),
{
    match g {
        Grammar::Python | Grammar::Rust | Grammar::TypeScript | Grammar::Tsx => false,
        _ => true,
    }
}

/// The node that names a declaration.
fn name_node_exec<'a>(g: Grammar, n: &'a SyntaxNode) -> (r: Option<&'a SyntaxNode>)
    ensures
        match r {
            Some(c) => name_node(g, n@) == Some(c@),
            None => name_node(g, n@) is None,
        },
{
    proof {
        reveal(name_node);
    }
    let by_name = child_by_field(n, "name");
    if by_name.is_some() {
        return by_name;
    }
    if is_declarative_exec(g) {
        let by_declarator = match child_by_field(n, "declarator") {
            Some(d) => declarator_name_exec(d, n.kind.as_str()),
            None => None,
        };
        if by_declarator.is_some() {
            return by_declarator;
        }
        let ks = identifier_kind_list();
        first_child_of_kinds(n, ks.as_slice())
    } else {
        match g {
            Grammar::Python => None,
            Grammar::Rust => child_by_field(n, "type"),
            _ => {
                let ks = ts_identifier_kind_list();
                first_child_of_kinds(n, ks.as_slice())
            },
        }
    }
}

/// The first line of `t`, without a carriage return before its newline.
fn first_line_exec(t: &Vec<char>) -> (r: Vec<char>)
    ensures
        r@ == first_line(t@),
{
    let mut e: usize = 0;
    while e < t.len() && t[e] != '\n'
        invariant
            0 <= e <= t@.len(),
            line_end(t@, 0) == line_end(t@, e as int),
        decreases t@.len() - e,
    {
        e = e + 1;
    }
    let mut end = e;
    if e < t.len() && e > 0 && t[e - 1] == '\r' {
        end = e - 1;
    }
    let mut r: Vec<char> = Vec::new();
    let mut k: usize = 0;
    while k < end
        invariant
            0 <= k <= end <= t@.len(),
            r@ == t@.subrange(0, k as int),
        decreases end - k,
    {
        r.push(t[k]);
        assert(t@.subrange(0, k + 1) =~= t@.subrange(0, k as int).push(t@[k as int]));
        k = k + 1;
    }
    proof {
        if t@.len() > 0 {
            let l = t@.subrange(0, line_end(t@, 0));
            if e < t@.len() && e > 0 && t@[e - 1] == '\r' {
                assert(l.drop_last() =~= t@.subrange(0, end as int));
            } else {
                assert(l =~= t@.subrange(0, end as int));
            }
        } else {
            assert(r@ =~= Seq::<char>::empty());
        }
    }
    r
}

/// The signature of declaration `n`.
fn signature_exec(src: &[u8], n: &SyntaxNode) -> (r: Option<String>)
    requires
        tree_wf(n@, src@.len() as int),
    ensures
        crate::syntax::opt_seq(r) == signature_of(src@, n@),
{
    proof {
        reveal(signature_of);
    }
    proof {
        lemma_children_view(*n);
    }
    let end = match child_by_field(n, "body") {
        Some(b) => {
            proof {
                let i = crate::syntax::field_index(n@, "body"@);
                assert(n@.children[i] == b@);
            }
            b.start_byte
        },
        None => n.end_byte,
    };
    let end = if end < src.len() { end } else { src.len() };
    match text_of(src, n.start_byte, end) {
        None => None,
        Some(t) => {
            let v = chars_of(t.as_str());
            let tr = trim_chars(&v);
            let line = first_line_exec(&tr);
            Some(string_of(&line))
        },
    }
}

fn in_set_exec(set: TrimSet, c: char) -> (r: bool)
    ensures
        r == in_set(set, c),
{
    match set {
        TrimSet::Quotes => c == '"' || c == '\'',
        TrimSet::IncludeDelims => c == '"' || c == '<' || c == '>',
        TrimSet::ScriptQuotes => c == '"' || c == '\'' || c == '`',
    }
}

/// `s` without the leading and trailing characters of `set`.
fn trim_by_exec(s: &str, set: TrimSet) -> (r: String)
    ensures
        r@ == trim_by(s@, set),
{
    let v = chars_of(s);
    let mut i: usize = 0;
    let mut j: usize = v.len();
    assert(v@.subrange(0, v@.len() as int) =~= v@);
    while i < j && (in_set_exec(set, v[i]) || in_set_exec(set, v[j - 1]))
        invariant
            0 <= i <= j <= v@.len(),
            trim_by(v@, set) == trim_by(v@.subrange(i as int, j as int), set),
        decreases j - i,
    {
        let ghost w = v@.subrange(i as int, j as int);
        if in_set_exec(set, v[i]) {
            assert(w.drop_first() =~= v@.subrange(i + 1, j as int));
            i = i + 1;
        } else {
            assert(w.drop_last() =~= v@.subrange(i as int, j - 1));
            j = j - 1;
        }
    }
    let mut r: Vec<char> = Vec::new();
    let mut k: usize = i;
    while k < j
        invariant
            0 <= i <= k <= j <= v@.len(),
            r@ == v@.subrange(i as int, k as int),
        decreases j - k,
    {
        r.push(v[k]);
        assert(v@.subrange(i as int, k + 1) =~= v@.subrange(i as int, k as int).push(v@[k as int]));
        k = k + 1;
    }
    string_of(&r)
}

/// The docstring of a declaration.
fn docstring_exec(g: Grammar, src: &[u8], n: &SyntaxNode) -> (r: Option<String>)
    requires
        tree_wf(n@, src@.len() as int),
    ensures
        crate::syntax::opt_seq(r) == docstring_of(g, src@, n@),
{
    proof {
        reveal(docstring_of);
    }
    if g != Grammar::Python {
        return None;
    }
    proof {
        lemma_children_view(*n);
    }
    match child_by_field(n, "body") {
        None => None,
        Some(b) => {
            proof {
                lemma_children_view(*b);
                let i = crate::syntax::field_index(n@, "body"@);
                assert(n@.children[i] == b@);
                assert(tree_wf(b@, src@.len() as int));
            }
            if b.children.len() > 0 && str_eq(b.children[0].kind.as_str(), "expression_statement") {
                let st = &b.children[0];
                proof {
                    lemma_children_view(*st);
                    assert(b@.children[0] == st@);
                    assert(tree_wf(st@, src@.len() as int));
                }
                if st.children.len() > 0 && str_eq(st.children[0].kind.as_str(), "string") {
                    let lit = &st.children[0];
                    proof {
                        assert(st@.children[0] == lit@);
                        assert(tree_wf(lit@, src@.len() as int));
                    }
                    match text_of_node(src, lit) {
                        Some(t) => Some(trim_by_exec(t.as_str(), TrimSet::Quotes)),
                        None => None,
                    }
                } else {
                    None
                }
            } else {
                None
            }
        },
    }
}

proof fn lemma_wf_child(n: SyntaxV, len: int, i: int)
    requires
        tree_wf(n, len),
        0 <= i < n.children.len(),
    ensures
        tree_wf(n.children[i], len),
        n.start_byte <= n.children[i].start_byte,
        n.children[i].end_byte <= n.end_byte,
{
}

/// The text of the first node, in left-to-right postorder of the children of
/// `n`, whose kind is one of `ks` and whose text is UTF-8.
fn post_first_exec(src: &[u8], n: &SyntaxNode, ks: &[&str]) -> (r: Option<String>)
    requires
        tree_wf(n@, src@.len() as int),
    ensures
        crate::syntax::opt_seq(r) == post_first(src@, n@.children, strs_view(ks@)),
    decreases n,
{
    proof {
        lemma_children_view(*n);
    }
    let ghost cs = n@.children;
    let mut i: usize = 0;
    assert(cs.subrange(0, cs.len() as int) =~= cs);
    while i < n.children.len()
        invariant
            0 <= i <= n.children@.len(),
            cs == n@.children,
            cs.len() == n.children@.len(),
            forall|k: int| 0 <= k < n.children@.len() ==> #[trigger] cs[k] == n.children@[k]@,
            tree_wf(n@, src@.len() as int),
            post_first(src@, cs, strs_view(ks@)) == post_first(src@, cs.subrange(i as int, cs.len() as int), strs_view(ks@)),
        decreases n.children@.len() - i,
    {
        let c = &n.children[i];
        proof {
            lemma_wf_child(n@, src@.len() as int, i as int);
            assert(cs[i as int] == c@);
            assert(decreases_to!(n.children => n.children[i as int]));
            lemma_children_view(*c);
        }
        let below = post_first_exec(src, c, ks);
        let ghost rest = cs.subrange(i as int, cs.len() as int);
        proof {
            assert(rest[0] == c@);
            assert(rest.subrange(1, rest.len() as int) =~= cs.subrange(i + 1, cs.len() as int));
        }
        if below.is_some() {
            return below;
        }
        if kind_among(ks, c.kind.as_str()) {
            let t = text_of_node(src, c);
            if t.is_some() {
                return t;
            }
        }
        i = i + 1;
    }
    None
}

fn callee_field_exec(g: Grammar) -> (r: &'static str)
    ensures
        r@ == callee_field(g),
{
    match g {
        Grammar::Java | Grammar::Lua | Grammar::Swift => "name",
        Grammar::Ruby => "method",
        _ => "function",
    }
}

fn callee_kind_list(g: Grammar) -> (r: Vec<&'static str>)
    ensures
        strs_view(r@) == callee_kinds(g),
{
    let v = match g {
        Grammar::C => vec!["identifier", "field_identifier"],
        Grammar::Php => vec!["name", "qualified_name"],
        Grammar::Ruby => vec!["identifier", "constant"],
        Grammar::Swift => vec!["simple_identifier"],
        _ => vec!["identifier"],
    };
    assert(strs_view(v@) =~= callee_kinds(g));
    v
}

/// The text of the child of `n` under field `f`.
fn field_text_exec(src: &[u8], n: &SyntaxNode, f: &str) -> (r: Option<String>)
    requires
        tree_wf(n@, src@.len() as int),
    ensures
        crate::syntax::opt_seq(r) == field_text(src@, n@, f@),
{
    match child_by_field(n, f) {
        None => None,
        Some(c) => {
            proof {
                lemma_children_view(*n);
                let i = crate::syntax::field_index(n@, f@);
                lemma_wf_child(n@, src@.len() as int, i);
            }
            text_of_node(src, c)
        },
    }
}

/// The name called at call node `n`.
fn callee_name_exec(g: Grammar, src: &[u8], n: &SyntaxNode) -> (r: Option<String>)
    requires
        tree_wf(n@, src@.len() as int),
    ensures
        crate::syntax::opt_seq(r) == callee_name(g, src@, n@),
{
    proof {
        reveal(callee_name);
    }
    proof {
        lemma_children_view(*n);
    }
    if is_declarative_exec(g) {
        let f = callee_field_exec(g);
        match child_by_field(n, f) {
            None => None,
            Some(c) => {
                proof {
                    let i = crate::syntax::field_index(n@, f@);
                    lemma_wf_child(n@, src@.len() as int, i);
                }
                let ks = callee_kind_list(g);
                if kind_among(ks.as_slice(), c.kind.as_str()) {
                    text_of_node(src, c)
                } else {
                    post_first_exec(src, c, ks.as_slice())
                }
            },
        }
    } else {
        match child_by_field(n, "function") {
            None => None,
            Some(c) => {
                proof {
                    let i = crate::syntax::field_index(n@, "function"@);
                    lemma_wf_child(n@, src@.len() as int, i);
                }
                let k = c.kind.as_str();
                if str_eq(k, "identifier") {
                    text_of_node(src, c)
                } else if g == Grammar::Python && str_eq(k, "attribute") {
                    field_text_exec(src, c, "attribute")
                } else if g == Grammar::Rust && str_eq(k, "field_expression") {
                    field_text_exec(src, c, "field")
                } else if g == Grammar::Rust && str_eq(k, "scoped_identifier") {
                    field_text_exec(src, c, "name")
                } else if (g == Grammar::TypeScript || g == Grammar::Tsx) && str_eq(k, "member_expression") {
                    field_text_exec(src, c, "property")
                } else {
                    None
                }
            },
        }
    }
}

/// `v` with every leading copy of `use ` removed.
fn strip_use_prefixes(v: &Vec<char>) -> (r: Vec<char>)
    ensures
        r@ == strip_prefixes(v@, "use "@),
{
    let p = chars_of("use ");
    assert(p@.len() == 4) by {
        reveal_strlit("use ");
    }
    let mut i: usize = 0;
    assert(v@.subrange(0, v@.len() as int) =~= v@);
    while v.len() >= 4 && i <= v.len() - 4 && v[i] == p[0] && v[i + 1] == p[1] && v[i + 2] == p[2] && v[i
        + 3] == p[3]
        invariant
            0 <= i <= v@.len(),
            p@ == "use "@,
            p@.len() == 4,
            strip_prefixes(v@, p@) == strip_prefixes(v@.subrange(i as int, v@.len() as int), p@),
        decreases v@.len() - i,
    {
        let ghost w = v@.subrange(i as int, v@.len() as int);
        assert(w.subrange(0, 4) =~= p@);
        assert(w.subrange(4, w.len() as int) =~= v@.subrange(i + 4, v@.len() as int));
        i = i + 4;
    }
    proof {
        let w = v@.subrange(i as int, v@.len() as int);
        if i + 4 <= v@.len() {
            assert(w.subrange(0, 4) != p@) by {
                if w.subrange(0, 4) == p@ {
                    assert(w.subrange(0, 4)[0] == p@[0]);
                    assert(w.subrange(0, 4)[1] == p@[1]);
                    assert(w.subrange(0, 4)[2] == p@[2]);
                    assert(w.subrange(0, 4)[3] == p@[3]);
                }
            }
        }
    }
    let mut r: Vec<char> = Vec::new();
    let mut k: usize = i;
    while k < v.len()
        invariant
            i <= k <= v@.len(),
            r@ == v@.subrange(i as int, k as int),
        decreases v@.len() - k,
    {
        r.push(v[k]);
        assert(v@.subrange(i as int, k + 1) =~= v@.subrange(i as int, k as int).push(v@[k as int]));
        k = k + 1;
    }
    r
}

/// `v` without its trailing semicolons.
fn strip_semicolons(v: &Vec<char>) -> (r: Vec<char>)
    ensures
        r@ == strip_trailing(v@, ';'),
{
    let mut j: usize = v.len();
    assert(v@.subrange(0, v@.len() as int) =~= v@);
    while j > 0 && v[j - 1] == ';'
        invariant
            0 <= j <= v@.len(),
            strip_trailing(v@, ';') == strip_trailing(v@.subrange(0, j as int), ';'),
        decreases j,
    {
        assert(v@.subrange(0, j as int).drop_last() =~= v@.subrange(0, j - 1));
        j = j - 1;
    }
    let mut r: Vec<char> = Vec::new();
    let mut k: usize = 0;
    while k < j
        invariant
            0 <= k <= j <= v@.len(),
            r@ == v@.subrange(0, k as int),
        decreases j - k,
    {
        r.push(v[k]);
        assert(v@.subrange(0, k + 1) =~= v@.subrange(0, k as int).push(v@[k as int]));
        k = k + 1;
    }
    r
}

/// The first white-space separated word of `v`, or `v` itself.
fn first_word(v: &Vec<char>) -> (r: Vec<char>)
    ensures
        r@ == first_word_or_all(v@),
{
    let mut a: usize = 0;
    assert(v@.subrange(0, v@.len() as int) =~= v@);
    while a < v.len() && crate::config::is_white_space_char(v[a])
        invariant
            0 <= a <= v@.len(),
            crate::config::trim_start(v@) == crate::config::trim_start(v@.subrange(a as int, v@.len() as int)),
        decreases v@.len() - a,
    {
        assert(v@.subrange(a as int, v@.len() as int).drop_first() =~= v@.subrange(a + 1, v@.len() as int));
        a = a + 1;
    }
    if a == v.len() {
        let mut r: Vec<char> = Vec::new();
        let mut k: usize = 0;
        while k < v.len()
            invariant
                0 <= k <= v@.len(),
                r@ == v@.subrange(0, k as int),
            decreases v@.len() - k,
        {
            r.push(v[k]);
            assert(v@.subrange(0, k + 1) =~= v@.subrange(0, k as int).push(v@[k as int]));
            k = k + 1;
        }
        return r;
    }
    let ghost ts = v@.subrange(a as int, v@.len() as int);
    let mut b: usize = a;
    while b < v.len() && !crate::config::is_white_space_char(v[b])
        invariant
            a <= b <= v@.len(),
            ts == v@.subrange(a as int, v@.len() as int),
            token_len(ts) == (b - a) + token_len(v@.subrange(b as int, v@.len() as int)),
        decreases v@.len() - b,
    {
        assert(v@.subrange(b as int, v@.len() as int).drop_first() =~= v@.subrange(b + 1, v@.len() as int));
        b = b + 1;
    }
    let mut r: Vec<char> = Vec::new();
    let mut k: usize = a;
    while k < b
        invariant
            a <= k <= b <= v@.len(),
            r@ == v@.subrange(a as int, k as int),
        decreases b - k,
    {
        r.push(v[k]);
        assert(v@.subrange(a as int, k + 1) =~= v@.subrange(a as int, k as int).push(v@[k as int]));
        k = k + 1;
    }
    assert(ts.subrange(0, token_len(ts)) =~= v@.subrange(a as int, b as int));
    r
}

/// The module named by a Rust `use` declaration's text.
fn use_module_exec(t: &str) -> (r: String)
    ensures
        r@ == use_module(t@),
{
    let v = chars_of(t);
    let tr = trim_chars(&v);
    let a = strip_use_prefixes(&tr);
    let b = strip_semicolons(&a);
    let c = first_word(&b);
    string_of(&c)
}

fn first_text_of_kinds(src: &[u8], n: &SyntaxNode, ks: &[&str]) -> (r: Option<String>)
    requires
        tree_wf(n@, src@.len() as int),
    ensures
        crate::syntax::opt_seq(r) == match first_child_in(n@, strs_view(ks@)) {
            Some(c) => node_text(src@, c),
            None => None,
        },
{
    match first_child_of_kinds(n, ks) {
        None => None,
        Some(c) => {
            proof {
                lemma_children_view(*n);
                let i = crate::syntax::first_index(n@.children, crate::syntax::kind_in(strs_view(ks@)));
                lemma_wf_child(n@, src@.len() as int, i);
            }
            text_of_node(src, c)
        },
    }
}

/// The module named by import node `n`.
#[verifier::spinoff_prover]
#[verifier::rlimit(80)]
fn import_module_exec(g: Grammar, src: &[u8], n: &SyntaxNode) -> (r: Option<String>)
    requires
        tree_wf(n@, src@.len() as int),
    ensures
        crate::syntax::opt_seq(r) == import_module(g, src@, n@),
{
    proof {
        reveal(import_module);
    }
    match g {
        Grammar::C => {
            let ks = vec!["string_literal", "system_lib_string"];
            assert(strs_view(ks@) =~= seq!["string_literal"@, "system_lib_string"@]);
            match first_text_of_kinds(src, n, ks.as_slice()) {
                Some(t) => Some(trim_by_exec(t.as_str(), TrimSet::IncludeDelims)),
                None => None,
            }
        },
        Grammar::Java => {
            let ks = vec!["scoped_identifier", "identifier"];
            assert(strs_view(ks@) =~= seq!["scoped_identifier"@, "identifier"@]);
            first_text_of_kinds(src, n, ks.as_slice())
        },
        Grammar::CSharp => field_text_exec(src, n, "name"),
        Grammar::Php => {
            let ks = vec!["namespace_name", "qualified_name"];
            assert(strs_view(ks@) =~= seq!["namespace_name"@, "qualified_name"@]);
            first_text_of_kinds(src, n, ks.as_slice())
        },
        Grammar::Python => if str_eq(n.kind.as_str(), "import_from_statement") {
            field_text_exec(src, n, "module_name")
        } else {
            let ks = vec!["dotted_name"];
            assert(strs_view(ks@) =~= seq!["dotted_name"@]);
            first_text_of_kinds(src, n, ks.as_slice())
        },
        Grammar::Rust => match text_of_node(src, n) {
            Some(t) => Some(use_module_exec(t.as_str())),
            None => None,
        },
        Grammar::TypeScript | Grammar::Tsx => match field_text_exec(src, n, "source") {
            Some(t) => Some(trim_by_exec(t.as_str(), TrimSet::ScriptQuotes)),
            None => None,
        },
        _ => match text_of_node(src, n) {
            Some(t) => {
                let v = chars_of(t.as_str());
                let tr = trim_chars(&v);
                Some(string_of(&tr))
            },
            None => None,
        },
    }
}

/// The view of a symbol draft.
pub open spec fn draft_view(d: NodeDraft) -> DraftV {
    DraftV {
        kind: d.kind,
        name: d.name@,
        qualified_name: crate::syntax::opt_seq(d.qualified_name),
        start_line: d.start_line,
        end_line: d.end_line,
        signature: crate::syntax::opt_seq(d.signature),
        docstring: crate::syntax::opt_seq(d.docstring),
        language: d.language@,
    }
}

/// The view of a call found by an extractor.
pub open spec fn call_view(c: PendingCall) -> CallV {
    CallV { from_idx: c.from_idx, target: c.target_name@, line: c.line }
}

/// The view of an import found by an extractor.
pub open spec fn import_view(i: RawImport) -> ImportV {
    ImportV { from_idx: i.from_idx, module: i.module@, line: i.line }
}

/// The view of an extraction result, inside declaration `parent`.
pub open spec fn result_view(r: ExtractResult, parent: Option<usize>) -> CtxV {
    CtxV {
        nodes: r.nodes@.map_values(|d: NodeDraft| draft_view(d)),
        edges: r.edges@,
        calls: r.pending_calls@.map_values(|c: PendingCall| call_view(c)),
        imports: r.imports@.map_values(|i: RawImport| import_view(i)),
        parent,
    }
}

/// A walk in progress: what was found, and the declaration it is inside.
struct Walker {
    result: ExtractResult,
    parent: Option<usize>,
}

fn line_of_exec(row: usize) -> (r: u32)
    requires
        row < u32::MAX,
    ensures
        r == line_of(row),
{
    (row + 1) as u32
}

proof fn lemma_field_child_wf(n: SyntaxV, f: Seq<char>, len: int)
    requires
        tree_wf(n, len),
    ensures
        field_child(n, f) matches Some(c) ==> tree_wf(c, len),
{
    let i = crate::syntax::field_index(n, f);
    if 0 <= i < n.children.len() {
        lemma_wf_child(n, len, i);
    }
}

proof fn lemma_first_child_in_wf(n: SyntaxV, ks: Seq<Seq<char>>, len: int)
    requires
        tree_wf(n, len),
    ensures
        first_child_in(n, ks) matches Some(c) ==> tree_wf(c, len),
{
    let i = crate::syntax::first_index(n.children, crate::syntax::kind_in(ks));
    if 0 <= i < n.children.len() {
        lemma_wf_child(n, len, i);
    }
}

proof fn lemma_declarator_name_wf(n: SyntaxV, pk: Seq<char>, len: int)
    requires
        tree_wf(n, len),
    ensures
        declarator_name(n, pk) matches Some(c) ==> tree_wf(c, len),
    decreases n,
{
    let k = n.kind;
    if k == "identifier"@ || k == "field_identifier"@ || k == "destructor_name"@ || k
        == "operator_name"@ {
    } else if k == "type_identifier"@ && pk == "operator_cast"@ {
    } else if is_wrapping_declarator(k) {
        let i = declarator_next(n);
        if 0 <= i < n.children.len() {
            lemma_wf_child(n, len, i);
            lemma_declarator_name_wf(n.children[i], k, len);
        }
    } else if k == "qualified_identifier"@ {
        lemma_field_child_wf(n, "name"@, len);
    }
}

/// The node that names a declaration lies within the source.
proof fn lemma_name_node_in_range(g: Grammar, n: SyntaxV, len: int)
    requires
        tree_wf(n, len),
    ensures
        name_node(g, n) matches Some(c) ==> tree_wf(c, len),
{
    reveal(name_node);
    lemma_field_child_wf(n, "name"@, len);
    lemma_field_child_wf(n, "type"@, len);
    lemma_field_child_wf(n, "declarator"@, len);
    lemma_first_child_in_wf(n, identifier_kinds(), len);
    lemma_first_child_in_wf(n, ts_identifier_kinds(), len);
    if let Some(d) = field_child(n, "declarator"@) {
        lemma_declarator_name_wf(d, n.kind, len);
    }
}

/// The draft recorded for declaration `n` of kind `nk`.
fn draft_exec(g: Grammar, src: &[u8], n: &SyntaxNode, nk: NodeKind) -> (r: Option<NodeDraft>)
    requires
        tree_wf(n@, src@.len() as int),
    ensures
        match r {
            Some(d) => draft_of(g, src@, n@, nk) == Some(draft_view(d)),
            None => draft_of(g, src@, n@, nk) is None,
        },
{
    proof {
        reveal(draft_of);
    }
    let nn = match name_node_exec(g, n) {
        None => {
            return None;
        },
        Some(x) => x,
    };
    proof {
        lemma_children_view(*n);
        lemma_name_node_in_range(g, n@, src@.len() as int);
    }
    let name = match text_of_node(src, nn) {
        None => {
            return None;
        },
        Some(t) => t,
    };
    if name.as_str().is_empty() {
        return None;
    }
    let d = NodeDraft {
        kind: nk,
        name,
        qualified_name: None,
        start_line: line_of_exec(n.start_row),
        end_line: line_of_exec(n.end_row),
        signature: signature_exec(src, n),
        docstring: docstring_exec(g, src, n),
        language: owned(language(g)),
    };
    Some(d)
}

impl Walker {
    spec fn view(&self) -> CtxV {
        result_view(self.result, self.parent)
    }
}

/// The action at node `n`: records its declaration, import or call.
fn act_exec(g: Grammar, src: &[u8], n: &SyntaxNode, w: &mut Walker) -> (r: Option<usize>)
    requires
        tree_wf(n@, src@.len() as int),
    ensures
        (final(w).view(), r) == act(g, src@, n@, old(w).view()),
{
    proof {
        reveal(act);
    }
    let ghost c = w.view();
    match act_of_exec(g, n.kind.as_str()) {
        Act::Decl(nk) => match draft_exec(g, src, n, nk) {
            Some(d) => {
                let idx = w.result.nodes.len();
                let ghost dv = draft_view(d);
                w.result.nodes.push(d);
                assert(w.view().nodes =~= c.nodes.push(dv));
                assert(w.view() =~= CtxV { nodes: c.nodes.push(dv), ..c });
                Some(idx)
            },
            None => None,
        },
        Act::Import => {
            let m = import_module_exec(g, src, n);
            match m {
                Some(m) => {
                    let p = w.parent;
                    let ghost mv = m@;
                    let line = line_of_exec(n.start_row);
                    w.result.imports.push(RawImport { from_idx: p, module: m, line });
                    assert(w.view().imports =~= c.imports.push(ImportV { from_idx: p, module: mv, line }));
                    assert(w.view() =~= CtxV {
                        imports: c.imports.push(ImportV { from_idx: p, module: mv, line }),
                        ..c
                    });
                    None
                },
                None => None,
            }
        },
        Act::Call => {
            let t = callee_name_exec(g, src, n);
            match (t, w.parent) {
                (Some(t), Some(p)) => {
                    let ghost tv = t@;
                    let line = line_of_exec(n.start_row);
                    w.result.pending_calls.push(PendingCall { from_idx: p, target_name: t, line });
                    assert(w.view().calls =~= c.calls.push(CallV { from_idx: p, target: tv, line }));
                    assert(w.view() =~= CtxV {
                        calls: c.calls.push(CallV { from_idx: p, target: tv, line }),
                        ..c
                    });
                    None
                },
                _ => None,
            }
        },
        Act::Skip => None,
    }
}

/// Walks the subtree of `n`, recording what it declares, imports and calls.
fn walk_exec(g: Grammar, src: &[u8], n: &SyntaxNode, w: &mut Walker)
    requires
        tree_wf(n@, src@.len() as int),
    ensures
        final(w).view() == walk_node(g, src@, n@, old(w).view()),
    decreases n,
{
    let ghost c = w.view();
    let prev = w.parent;
    let pushed = act_exec(g, src, n, w);
    let ghost c1 = w.view();
    match pushed {
        Some(idx) => {
            match prev {
                Some(p) => {
                    w.result.edges.push(LocalEdge { from_idx: p, to_idx: idx, kind: EdgeKind::Contains, line: None });
                },
                None => {},
            }
            w.parent = Some(idx);
        },
        None => {},
    }
    let ghost c2 = w.view();
    proof {
        lemma_children_view(*n);
        let expect = match pushed {
            Some(idx) => CtxV {
                edges: match c.parent {
                    Some(p) => c1.edges.push(LocalEdge { from_idx: p, to_idx: idx, kind: EdgeKind::Contains, line: None }),
                    None => c1.edges,
                },
                parent: Some(idx),
                ..c1
            },
            None => c1,
        };
        assert(c2 =~= expect);
    }
    let ghost cs = n@.children;
    let mut i: usize = 0;
    assert(cs.take(0) =~= Seq::<SyntaxV>::empty());
    while i < n.children.len()
        invariant
            0 <= i <= n.children@.len(),
            cs == n@.children,
            cs.len() == n.children@.len(),
            forall|k: int| 0 <= k < n.children@.len() ==> #[trigger] cs[k] == n.children@[k]@,
            tree_wf(n@, src@.len() as int),
            w.view() == walk_list(g, src@, cs.take(i as int), c2),
        decreases n.children@.len() - i,
    {
        let ch = &n.children[i];
        proof {
            lemma_wf_child(n@, src@.len() as int, i as int);
            assert(cs[i as int] == ch@);
            assert(decreases_to!(n.children => n.children[i as int]));
            assert(cs.take(i + 1).drop_last() =~= cs.take(i as int));
            assert(cs.take(i + 1).last() == ch@);
        }
        walk_exec(g, src, ch, w);
        i = i + 1;
    }
    assert(cs.take(cs.len() as int) =~= cs);
    w.parent = prev;
    assert(w.view() =~= CtxV { parent: c.parent, ..walk_list(g, src@, cs, c2) });
}

/// The empty walk state, outside any declaration.
pub open spec fn empty_ctx() -> CtxV {
    CtxV { nodes: Seq::empty(), edges: Seq::empty(), calls: Seq::empty(), imports: Seq::empty(), parent: None }
}

/// The syntax tree of a source text in a language, as tree-sitter parses it;
/// a function of the language and the text alone.
pub uninterp spec fn syntax_of(g: Grammar, source: Seq<char>) -> Option<SyntaxV>;

pub open spec fn opt_tree_view(t: Option<SyntaxNode>) -> Option<SyntaxV> {
    match t {
        Some(n) => Some(n@),
        None => None,
    }
}

#[verifier::external_type_specification]
#[verifier::external_body]
pub struct ExLanguage(tree_sitter::Language);

#[verifier::external_type_specification]
#[verifier::external_body]
pub struct ExTreeCursor<'tree>(tree_sitter::TreeCursor<'tree>);

/// The grammar of a language: the `LANGUAGE` item of its tree-sitter crate.
#[verifier::external_body]
fn grammar_language(g: Grammar) -> tree_sitter::Language {
    match g {
        Grammar::C => tree_sitter_c::LANGUAGE.into(),
        Grammar::CSharp => tree_sitter_c_sharp::LANGUAGE.into(),
        Grammar::Java => tree_sitter_java::LANGUAGE.into(),
        Grammar::Lua => tree_sitter_lua::LANGUAGE.into(),
        Grammar::Php => tree_sitter_php::LANGUAGE_PHP.into(),
        Grammar::Python => tree_sitter_python::LANGUAGE.into(),
        Grammar::Ruby => tree_sitter_ruby::LANGUAGE.into(),
        Grammar::Rust => tree_sitter_rust::LANGUAGE.into(),
        Grammar::Scala => tree_sitter_scala::LANGUAGE.into(),
        Grammar::Swift => tree_sitter_swift::LANGUAGE.into(),
        Grammar::TypeScript => tree_sitter_typescript::LANGUAGE_TYPESCRIPT.into(),
        Grammar::Tsx => tree_sitter_typescript::LANGUAGE_TSX.into(),
    }
}

/// A copy of the subtree at a tree-sitter cursor: kinds, the fields the
/// nodes hang under, byte ranges and rows. The cursor ends where it began.
#[verifier::external_body]
fn syntax_subtree(cursor: &mut tree_sitter::TreeCursor) -> SyntaxNode {
    let (n, field) = (cursor.node(), cursor.field_name().map(|f| f.to_string()));
    let mut children = Vec::new();
    if cursor.goto_first_child() {
        children.push(syntax_subtree(cursor));
        while cursor.goto_next_sibling() {
            children.push(syntax_subtree(cursor));
        }
        cursor.goto_parent();
    }
    let (start_row, end_row) = (n.start_position().row, n.end_position().row);
    let (kind, start_byte, end_byte) = (n.kind().to_string(), n.start_byte(), n.end_byte());
    SyntaxNode { kind, field, start_byte, end_byte, start_row, end_row, children }
}

/// `tree_sitter::Parser::parse` of the text with the language's grammar,
/// copied into a [`SyntaxNode`] tree.
#[verifier::external_body]
fn parse_syntax(g: Grammar, source: &str) -> (r: Option<SyntaxNode>)
    ensures
        opt_tree_view(r) == syntax_of(g, source@),
{
    let mut parser = tree_sitter::Parser::new();
    parser.set_language(&grammar_language(g)).ok()?;
    let tree = parser.parse(source, None)?;
    let mut cursor = tree.walk();
    let root = syntax_subtree(&mut cursor);
    Some(root)
}

/// Extracts the symbols, relations, calls and imports of a source text
/// from its syntax tree. A tree whose byte ranges do not fit the text is
/// refused as a parse error.
pub fn extract_tree(g: Grammar, source: &str, tree: &SyntaxNode) -> (r: Result<ExtractResult, Error>)
    ensures
        tree_wf(tree@, source.spec_bytes().len() as int) ==> r is Ok && result_view(r->Ok_0, None)
            == walk_node(g, source.spec_bytes(), tree@, empty_ctx()),
        !tree_wf(tree@, source.spec_bytes().len() as int) ==> parse_failed(r),
{
    let src = source.as_bytes();
    if !check_tree(tree, src.len()) {
        return Err(Error::Parse(owned("parse failed")));
    }
    let mut w = Walker {
        result: ExtractResult { nodes: Vec::new(), edges: Vec::new(), pending_calls: Vec::new(), imports: Vec::new() },
        parent: None,
    };
    assert(w.view().nodes =~= Seq::<DraftV>::empty());
    assert(w.view().calls =~= Seq::<CallV>::empty());
    assert(w.view().imports =~= Seq::<ImportV>::empty());
    assert(w.view().edges =~= Seq::<LocalEdge>::empty());
    assert(w.view() =~= empty_ctx());
    walk_exec(g, src, tree, &mut w);
    Ok(w.result)
}

/// Whether `r` is the parse error of a text that could not be parsed.
pub open spec fn parse_failed(r: Result<ExtractResult, Error>) -> bool {
    r matches Err(Error::Parse(m)) && m@ == "parse failed"@
}

/// What extracting a text yields: the walk of its syntax tree, or a parse
/// error where there is no tree or it does not fit the text.
pub open spec fn extract_outcome(g: Grammar, text: Seq<char>, bytes: Seq<u8>, r: Result<ExtractResult, Error>) -> bool {
    match syntax_of(g, text) {
        Some(t) => if tree_wf(t, bytes.len() as int) {
            r is Ok && result_view(r->Ok_0, None) == walk_node(g, bytes, t, empty_ctx())
        } else {
            parse_failed(r)
        },
        None => parse_failed(r),
    }
}

/// Extracts the symbols, relations, calls and imports of a source text:
/// parses it, then walks the tree. Fails when the text cannot be parsed.
pub fn extract(g: Grammar, source: &str) -> (r: Result<ExtractResult, Error>)
    ensures
        extract_outcome(g, source@, source.spec_bytes(), r),
{
    match parse_syntax(g, source) {
        None => Err(Error::Parse(owned("parse failed"))),
        Some(t) => extract_tree(g, source, &t),
    }
}

/// The extractor of Python sources.
pub struct PythonExtractor;

/// The extractor of Rust sources.
pub struct RustExtractor;

/// The extractor of TypeScript sources.
pub struct TypeScriptExtractor;

/// The extractor of TSX sources.
pub struct TsxExtractor;

impl PythonExtractor {
    pub fn new() -> Self {
        PythonExtractor
    }

    pub fn language(&self) -> (r: &'static str)
        ensures
            r@ == language_name(Grammar::Python),
    {
        language(Grammar::Python)
    }

    pub fn extensions(&self) -> (r: Vec<String>)
        ensures
            r@.map_values(|e: String| e@) == extensions_of(Grammar::Python),
    {
        extensions(Grammar::Python)
    }

    pub fn extract(&self, source: &str) -> (r: Result<ExtractResult, Error>)
        ensures
            extract_outcome(Grammar::Python, source@, source.spec_bytes(), r),
    {
        extract(Grammar::Python, source)
    }
}

impl RustExtractor {
    pub fn new() -> Self {
        RustExtractor
    }

    pub fn language(&self) -> (r: &'static str)
        ensures
            r@ == language_name(Grammar::Rust),
    {
        language(Grammar::Rust)
    }

    pub fn extensions(&self) -> (r: Vec<String>)
        ensures
            r@.map_values(|e: String| e@) == extensions_of(Grammar::Rust),
    {
        extensions(Grammar::Rust)
    }

    pub fn extract(&self, source: &str) -> (r: Result<ExtractResult, Error>)
        ensures
            extract_outcome(Grammar::Rust, source@, source.spec_bytes(), r),
    {
        extract(Grammar::Rust, source)
    }
}

impl TypeScriptExtractor {
    pub fn new() -> Self {
        TypeScriptExtractor
    }

    pub fn language(&self) -> (r: &'static str)
        ensures
            r@ == language_name(Grammar::TypeScript),
    {
        language(Grammar::TypeScript)
    }

    pub fn extensions(&self) -> (r: Vec<String>)
        ensures
            r@.map_values(|e: String| e@) == extensions_of(Grammar::TypeScript),
    {
        extensions(Grammar::TypeScript)
    }

    pub fn extract(&self, source: &str) -> (r: Result<ExtractResult, Error>)
        ensures
            extract_outcome(Grammar::TypeScript, source@, source.spec_bytes(), r),
    {
        extract(Grammar::TypeScript, source)
    }
}

impl TsxExtractor {
    pub fn new() -> Self {
        TsxExtractor
    }

    pub fn language(&self) -> (r: &'static str)
        ensures
            r@ == language_name(Grammar::Tsx),
    {
        language(Grammar::Tsx)
    }

    pub fn extensions(&self) -> (r: Vec<String>)
        ensures
            r@.map_values(|e: String| e@) == extensions_of(Grammar::Tsx),
    {
        extensions(Grammar::Tsx)
    }

    pub fn extract(&self, source: &str) -> (r: Result<ExtractResult, Error>)
        ensures
            extract_outcome(Grammar::Tsx, source@, source.spec_bytes(), r),
    {
        extract(Grammar::Tsx, source)
    }
}

/// The declarations each language's extractor records: node kinds of the
/// language's syntax trees, with the kind of symbol each one declares.
pub open spec fn declaration_table(g: Grammar) -> Seq<(Seq<char>, NodeKind)> {
    match g {
        Grammar::C => seq![
            ("function_definition"@, NodeKind::Function),
            ("struct_specifier"@, NodeKind::Struct),
            ("enum_specifier"@, NodeKind::Enum),
            ("union_specifier"@, NodeKind::Struct),
            ("type_definition"@, NodeKind::TypeAlias),
        ],
        Grammar::CSharp => seq![
            ("class_declaration"@, NodeKind::Class),
            ("struct_declaration"@, NodeKind::Struct),
            ("interface_declaration"@, NodeKind::Interface),
            ("enum_declaration"@, NodeKind::Enum),
            ("namespace_declaration"@, NodeKind::Namespace),
            ("method_declaration"@, NodeKind::Method),
            ("constructor_declaration"@, NodeKind::Method),
            ("property_declaration"@, NodeKind::Property),
            ("field_declaration"@, NodeKind::Field),
            ("record_declaration"@, NodeKind::Class),
        ],
        Grammar::Java => seq![
            ("class_declaration"@, NodeKind::Class),
            ("interface_declaration"@, NodeKind::Interface),
            ("enum_declaration"@, NodeKind::Enum),
            ("record_declaration"@, NodeKind::Class),
            ("method_declaration"@, NodeKind::Method),
            ("constructor_declaration"@, NodeKind::Method),
            ("field_declaration"@, NodeKind::Field),
        ],
        Grammar::Lua => seq![
            ("function_declaration"@, NodeKind::Function),
            ("function_definition"@, NodeKind::Function),
            ("local_function"@, NodeKind::Function),
        ],
        Grammar::Php => seq![
            ("function_definition"@, NodeKind::Function),
            ("method_declaration"@, NodeKind::Method),
            ("class_declaration"@, NodeKind::Class),
            ("interface_declaration"@, NodeKind::Interface),
            ("trait_declaration"@, NodeKind::Trait),
            ("namespace_definition"@, NodeKind::Namespace),
        ],
        Grammar::Python => seq![
            ("function_definition"@, NodeKind::Function),
            ("class_definition"@, NodeKind::Class),
        ],
        Grammar::Ruby => seq![
            ("method"@, NodeKind::Method),
            ("singleton_method"@, NodeKind::Method),
            ("class"@, NodeKind::Class),
            ("module"@, NodeKind::Module),
        ],
        Grammar::Rust => seq![
            ("function_item"@, NodeKind::Function),
            ("struct_item"@, NodeKind::Struct),
            ("enum_item"@, NodeKind::Enum),
            ("trait_item"@, NodeKind::Trait),
            ("impl_item"@, NodeKind::Namespace),
            ("mod_item"@, NodeKind::Module),
            ("const_item"@, NodeKind::Constant),
            ("static_item"@, NodeKind::Variable),
            ("type_item"@, NodeKind::TypeAlias),
        ],
        Grammar::Scala => seq![
            ("function_definition"@, NodeKind::Function),
            ("function_declaration"@, NodeKind::Function),
            ("class_definition"@, NodeKind::Class),
            ("object_definition"@, NodeKind::Module),
            ("trait_definition"@, NodeKind::Trait),
            ("val_definition"@, NodeKind::Constant),
            ("var_definition"@, NodeKind::Variable),
        ],
        Grammar::Swift => seq![
            ("function_declaration"@, NodeKind::Function),
            ("class_declaration"@, NodeKind::Class),
            ("protocol_declaration"@, NodeKind::Protocol),
            ("property_declaration"@, NodeKind::Property),
        ],
        Grammar::TypeScript | Grammar::Tsx => seq![
            ("function_declaration"@, NodeKind::Function),
            ("function_expression"@, NodeKind::Function),
            ("arrow_function"@, NodeKind::Function),
            ("method_definition"@, NodeKind::Method),
            ("method_signature"@, NodeKind::Method),
            ("class_declaration"@, NodeKind::Class),
            ("class"@, NodeKind::Class),
            ("interface_declaration"@, NodeKind::Interface),
            ("type_alias_declaration"@, NodeKind::TypeAlias),
            ("enum_declaration"@, NodeKind::Enum),
            ("variable_declarator"@, NodeKind::Variable),
        ],
    }
}

proof fn lemma_table_is_declared(g: Grammar, k: int)
    requires
        0 <= k < declaration_table(g).len(),
    ensures
        decl_of(g, declaration_table(g)[k].0) == Some(declaration_table(g)[k].1),
{
    reveal(decl_of);
    match g {
        Grammar::C => {
            assert("enum_specifier"@ != "function_definition"@) by { reveal_strlit("enum_specifier"); reveal_strlit("function_definition"); assert("enum_specifier"@.len() == 14); assert("function_definition"@.len() == 19); }
            assert("enum_specifier"@ != "struct_specifier"@) by { reveal_strlit("enum_specifier"); reveal_strlit("struct_specifier"); assert("enum_specifier"@.len() == 14); assert("struct_specifier"@.len() == 16); }
            assert("struct_specifier"@ != "function_definition"@) by { reveal_strlit("struct_specifier"); reveal_strlit("function_definition"); assert("struct_specifier"@.len() == 16); assert("function_definition"@.len() == 19); }
            assert("type_definition"@ != "enum_specifier"@) by { reveal_strlit("type_definition"); reveal_strlit("enum_specifier"); assert("type_definition"@.len() == 15); assert("enum_specifier"@.len() == 14); }
            assert("type_definition"@ != "function_definition"@) by { reveal_strlit("type_definition"); reveal_strlit("function_definition"); assert("type_definition"@.len() == 15); assert("function_definition"@.len() == 19); }
            assert("type_definition"@ != "struct_specifier"@) by { reveal_strlit("type_definition"); reveal_strlit("struct_specifier"); assert("type_definition"@.len() == 15); assert("struct_specifier"@.len() == 16); }
            assert("type_definition"@ != "union_specifier"@) by { reveal_strlit("type_definition"); reveal_strlit("union_specifier"); assert("type_definition"@.len() == 15); assert("union_specifier"@.len() == 15); assert("type_definition"@[0] == 't'); assert("union_specifier"@[0] == 'u'); }
            assert("union_specifier"@ != "enum_specifier"@) by { reveal_strlit("union_specifier"); reveal_strlit("enum_specifier"); assert("union_specifier"@.len() == 15); assert("enum_specifier"@.len() == 14); }
            assert("union_specifier"@ != "function_definition"@) by { reveal_strlit("union_specifier"); reveal_strlit("function_definition"); assert("union_specifier"@.len() == 15); assert("function_definition"@.len() == 19); }
            assert("union_specifier"@ != "struct_specifier"@) by { reveal_strlit("union_specifier"); reveal_strlit("struct_specifier"); assert("union_specifier"@.len() == 15); assert("struct_specifier"@.len() == 16); }
        },
        Grammar::CSharp => {
            assert("constructor_declaration"@ != "class_declaration"@) by { reveal_strlit("constructor_declaration"); reveal_strlit("class_declaration"); assert("constructor_declaration"@.len() == 23); assert("class_declaration"@.len() == 17); }
            assert("constructor_declaration"@ != "enum_declaration"@) by { reveal_strlit("constructor_declaration"); reveal_strlit("enum_declaration"); assert("constructor_declaration"@.len() == 23); assert("enum_declaration"@.len() == 16); }
            assert("constructor_declaration"@ != "interface_declaration"@) by { reveal_strlit("constructor_declaration"); reveal_strlit("interface_declaration"); assert("constructor_declaration"@.len() == 23); assert("interface_declaration"@.len() == 21); }
            assert("constructor_declaration"@ != "method_declaration"@) by { reveal_strlit("constructor_declaration"); reveal_strlit("method_declaration"); assert("constructor_declaration"@.len() == 23); assert("method_declaration"@.len() == 18); }
            assert("constructor_declaration"@ != "namespace_declaration"@) by { reveal_strlit("constructor_declaration"); reveal_strlit("namespace_declaration"); assert("constructor_declaration"@.len() == 23); assert("namespace_declaration"@.len() == 21); }
            assert("constructor_declaration"@ != "struct_declaration"@) by { reveal_strlit("constructor_declaration"); reveal_strlit("struct_declaration"); assert("constructor_declaration"@.len() == 23); assert("struct_declaration"@.len() == 18); }
            assert("enum_declaration"@ != "class_declaration"@) by { reveal_strlit("enum_declaration"); reveal_strlit("class_declaration"); assert("enum_declaration"@.len() == 16); assert("class_declaration"@.len() == 17); }
            assert("enum_declaration"@ != "interface_declaration"@) by { reveal_strlit("enum_declaration"); reveal_strlit("interface_declaration"); assert("enum_declaration"@.len() == 16); assert("interface_declaration"@.len() == 21); }
            assert("enum_declaration"@ != "struct_declaration"@) by { reveal_strlit("enum_declaration"); reveal_strlit("struct_declaration"); assert("enum_declaration"@.len() == 16); assert("struct_declaration"@.len() == 18); }
            assert("field_declaration"@ != "class_declaration"@) by { reveal_strlit("field_declaration"); reveal_strlit("class_declaration"); assert("field_declaration"@.len() == 17); assert("class_declaration"@.len() == 17); assert("field_declaration"@[0] == 'f'); assert("class_declaration"@[0] == 'c'); }
            assert("field_declaration"@ != "constructor_declaration"@) by { reveal_strlit("field_declaration"); reveal_strlit("constructor_declaration"); assert("field_declaration"@.len() == 17); assert("constructor_declaration"@.len() == 23); }
            assert("field_declaration"@ != "enum_declaration"@) by { reveal_strlit("field_declaration"); reveal_strlit("enum_declaration"); assert("field_declaration"@.len() == 17); assert("enum_declaration"@.len() == 16); }
            assert("field_declaration"@ != "interface_declaration"@) by { reveal_strlit("field_declaration"); reveal_strlit("interface_declaration"); assert("field_declaration"@.len() == 17); assert("interface_declaration"@.len() == 21); }
            assert("field_declaration"@ != "method_declaration"@) by { reveal_strlit("field_declaration"); reveal_strlit("method_declaration"); assert("field_declaration"@.len() == 17); assert("method_declaration"@.len() == 18); }
            assert("field_declaration"@ != "namespace_declaration"@) by { reveal_strlit("field_declaration"); reveal_strlit("namespace_declaration"); assert("field_declaration"@.len() == 17); assert("namespace_declaration"@.len() == 21); }
            assert("field_declaration"@ != "property_declaration"@) by { reveal_strlit("field_declaration"); reveal_strlit("property_declaration"); assert("field_declaration"@.len() == 17); assert("property_declaration"@.len() == 20); }
            assert("field_declaration"@ != "struct_declaration"@) by { reveal_strlit("field_declaration"); reveal_strlit("struct_declaration"); assert("field_declaration"@.len() == 17); assert("struct_declaration"@.len() == 18); }
            assert("interface_declaration"@ != "class_declaration"@) by { reveal_strlit("interface_declaration"); reveal_strlit("class_declaration"); assert("interface_declaration"@.len() == 21); assert("class_declaration"@.len() == 17); }
            assert("interface_declaration"@ != "struct_declaration"@) by { reveal_strlit("interface_declaration"); reveal_strlit("struct_declaration"); assert("interface_declaration"@.len() == 21); assert("struct_declaration"@.len() == 18); }
            assert("method_declaration"@ != "class_declaration"@) by { reveal_strlit("method_declaration"); reveal_strlit("class_declaration"); assert("method_declaration"@.len() == 18); assert("class_declaration"@.len() == 17); }
            assert("method_declaration"@ != "enum_declaration"@) by { reveal_strlit("method_declaration"); reveal_strlit("enum_declaration"); assert("method_declaration"@.len() == 18); assert("enum_declaration"@.len() == 16); }
            assert("method_declaration"@ != "interface_declaration"@) by { reveal_strlit("method_declaration"); reveal_strlit("interface_declaration"); assert("method_declaration"@.len() == 18); assert("interface_declaration"@.len() == 21); }
            assert("method_declaration"@ != "namespace_declaration"@) by { reveal_strlit("method_declaration"); reveal_strlit("namespace_declaration"); assert("method_declaration"@.len() == 18); assert("namespace_declaration"@.len() == 21); }
            assert("method_declaration"@ != "struct_declaration"@) by { reveal_strlit("method_declaration"); reveal_strlit("struct_declaration"); assert("method_declaration"@.len() == 18); assert("struct_declaration"@.len() == 18); assert("method_declaration"@[0] == 'm'); assert("struct_declaration"@[0] == 's'); }
            assert("namespace_declaration"@ != "class_declaration"@) by { reveal_strlit("namespace_declaration"); reveal_strlit("class_declaration"); assert("namespace_declaration"@.len() == 21); assert("class_declaration"@.len() == 17); }
            assert("namespace_declaration"@ != "enum_declaration"@) by { reveal_strlit("namespace_declaration"); reveal_strlit("enum_declaration"); assert("namespace_declaration"@.len() == 21); assert("enum_declaration"@.len() == 16); }
            assert("namespace_declaration"@ != "interface_declaration"@) by { reveal_strlit("namespace_declaration"); reveal_strlit("interface_declaration"); assert("namespace_declaration"@.len() == 21); assert("interface_declaration"@.len() == 21); assert("namespace_declaration"@[0] == 'n'); assert("interface_declaration"@[0] == 'i'); }
            assert("namespace_declaration"@ != "struct_declaration"@) by { reveal_strlit("namespace_declaration"); reveal_strlit("struct_declaration"); assert("namespace_declaration"@.len() == 21); assert("struct_declaration"@.len() == 18); }
            assert("property_declaration"@ != "class_declaration"@) by { reveal_strlit("property_declaration"); reveal_strlit("class_declaration"); assert("property_declaration"@.len() == 20); assert("class_declaration"@.len() == 17); }
            assert("property_declaration"@ != "constructor_declaration"@) by { reveal_strlit("property_declaration"); reveal_strlit("constructor_declaration"); assert("property_declaration"@.len() == 20); assert("constructor_declaration"@.len() == 23); }
            assert("property_declaration"@ != "enum_declaration"@) by { reveal_strlit("property_declaration"); reveal_strlit("enum_declaration"); assert("property_declaration"@.len() == 20); assert("enum_declaration"@.len() == 16); }
            assert("property_declaration"@ != "interface_declaration"@) by { reveal_strlit("property_declaration"); reveal_strlit("interface_declaration"); assert("property_declaration"@.len() == 20); assert("interface_declaration"@.len() == 21); }
            assert("property_declaration"@ != "method_declaration"@) by { reveal_strlit("property_declaration"); reveal_strlit("method_declaration"); assert("property_declaration"@.len() == 20); assert("method_declaration"@.len() == 18); }
            assert("property_declaration"@ != "namespace_declaration"@) by { reveal_strlit("property_declaration"); reveal_strlit("namespace_declaration"); assert("property_declaration"@.len() == 20); assert("namespace_declaration"@.len() == 21); }
            assert("property_declaration"@ != "struct_declaration"@) by { reveal_strlit("property_declaration"); reveal_strlit("struct_declaration"); assert("property_declaration"@.len() == 20); assert("struct_declaration"@.len() == 18); }
            assert("record_declaration"@ != "class_declaration"@) by { reveal_strlit("record_declaration"); reveal_strlit("class_declaration"); assert("record_declaration"@.len() == 18); assert("class_declaration"@.len() == 17); }
            assert("record_declaration"@ != "constructor_declaration"@) by { reveal_strlit("record_declaration"); reveal_strlit("constructor_declaration"); assert("record_declaration"@.len() == 18); assert("constructor_declaration"@.len() == 23); }
            assert("record_declaration"@ != "enum_declaration"@) by { reveal_strlit("record_declaration"); reveal_strlit("enum_declaration"); assert("record_declaration"@.len() == 18); assert("enum_declaration"@.len() == 16); }
            assert("record_declaration"@ != "field_declaration"@) by { reveal_strlit("record_declaration"); reveal_strlit("field_declaration"); assert("record_declaration"@.len() == 18); assert("field_declaration"@.len() == 17); }
            assert("record_declaration"@ != "interface_declaration"@) by { reveal_strlit("record_declaration"); reveal_strlit("interface_declaration"); assert("record_declaration"@.len() == 18); assert("interface_declaration"@.len() == 21); }
            assert("record_declaration"@ != "method_declaration"@) by { reveal_strlit("record_declaration"); reveal_strlit("method_declaration"); assert("record_declaration"@.len() == 18); assert("method_declaration"@.len() == 18); assert("record_declaration"@[0] == 'r'); assert("method_declaration"@[0] == 'm'); }
            assert("record_declaration"@ != "namespace_declaration"@) by { reveal_strlit("record_declaration"); reveal_strlit("namespace_declaration"); assert("record_declaration"@.len() == 18); assert("namespace_declaration"@.len() == 21); }
            assert("record_declaration"@ != "property_declaration"@) by { reveal_strlit("record_declaration"); reveal_strlit("property_declaration"); assert("record_declaration"@.len() == 18); assert("property_declaration"@.len() == 20); }
            assert("record_declaration"@ != "struct_declaration"@) by { reveal_strlit("record_declaration"); reveal_strlit("struct_declaration"); assert("record_declaration"@.len() == 18); assert("struct_declaration"@.len() == 18); assert("record_declaration"@[0] == 'r'); assert("struct_declaration"@[0] == 's'); }
            assert("struct_declaration"@ != "class_declaration"@) by { reveal_strlit("struct_declaration"); reveal_strlit("class_declaration"); assert("struct_declaration"@.len() == 18); assert("class_declaration"@.len() == 17); }
        },
        Grammar::Java => {
            assert("constructor_declaration"@ != "class_declaration"@) by { reveal_strlit("constructor_declaration"); reveal_strlit("class_declaration"); assert("constructor_declaration"@.len() == 23); assert("class_declaration"@.len() == 17); }
            assert("constructor_declaration"@ != "enum_declaration"@) by { reveal_strlit("constructor_declaration"); reveal_strlit("enum_declaration"); assert("constructor_declaration"@.len() == 23); assert("enum_declaration"@.len() == 16); }
            assert("constructor_declaration"@ != "interface_declaration"@) by { reveal_strlit("constructor_declaration"); reveal_strlit("interface_declaration"); assert("constructor_declaration"@.len() == 23); assert("interface_declaration"@.len() == 21); }
            assert("constructor_declaration"@ != "method_declaration"@) by { reveal_strlit("constructor_declaration"); reveal_strlit("method_declaration"); assert("constructor_declaration"@.len() == 23); assert("method_declaration"@.len() == 18); }
            assert("constructor_declaration"@ != "record_declaration"@) by { reveal_strlit("constructor_declaration"); reveal_strlit("record_declaration"); assert("constructor_declaration"@.len() == 23); assert("record_declaration"@.len() == 18); }
            assert("enum_declaration"@ != "class_declaration"@) by { reveal_strlit("enum_declaration"); reveal_strlit("class_declaration"); assert("enum_declaration"@.len() == 16); assert("class_declaration"@.len() == 17); }
            assert("enum_declaration"@ != "interface_declaration"@) by { reveal_strlit("enum_declaration"); reveal_strlit("interface_declaration"); assert("enum_declaration"@.len() == 16); assert("interface_declaration"@.len() == 21); }
            assert("field_declaration"@ != "class_declaration"@) by { reveal_strlit("field_declaration"); reveal_strlit("class_declaration"); assert("field_declaration"@.len() == 17); assert("class_declaration"@.len() == 17); assert("field_declaration"@[0] == 'f'); assert("class_declaration"@[0] == 'c'); }
            assert("field_declaration"@ != "constructor_declaration"@) by { reveal_strlit("field_declaration"); reveal_strlit("constructor_declaration"); assert("field_declaration"@.len() == 17); assert("constructor_declaration"@.len() == 23); }
            assert("field_declaration"@ != "enum_declaration"@) by { reveal_strlit("field_declaration"); reveal_strlit("enum_declaration"); assert("field_declaration"@.len() == 17); assert("enum_declaration"@.len() == 16); }
            assert("field_declaration"@ != "interface_declaration"@) by { reveal_strlit("field_declaration"); reveal_strlit("interface_declaration"); assert("field_declaration"@.len() == 17); assert("interface_declaration"@.len() == 21); }
            assert("field_declaration"@ != "method_declaration"@) by { reveal_strlit("field_declaration"); reveal_strlit("method_declaration"); assert("field_declaration"@.len() == 17); assert("method_declaration"@.len() == 18); }
            assert("field_declaration"@ != "record_declaration"@) by { reveal_strlit("field_declaration"); reveal_strlit("record_declaration"); assert("field_declaration"@.len() == 17); assert("record_declaration"@.len() == 18); }
            assert("interface_declaration"@ != "class_declaration"@) by { reveal_strlit("interface_declaration"); reveal_strlit("class_declaration"); assert("interface_declaration"@.len() == 21); assert("class_declaration"@.len() == 17); }
            assert("method_declaration"@ != "class_declaration"@) by { reveal_strlit("method_declaration"); reveal_strlit("class_declaration"); assert("method_declaration"@.len() == 18); assert("class_declaration"@.len() == 17); }
            assert("method_declaration"@ != "enum_declaration"@) by { reveal_strlit("method_declaration"); reveal_strlit("enum_declaration"); assert("method_declaration"@.len() == 18); assert("enum_declaration"@.len() == 16); }
            assert("method_declaration"@ != "interface_declaration"@) by { reveal_strlit("method_declaration"); reveal_strlit("interface_declaration"); assert("method_declaration"@.len() == 18); assert("interface_declaration"@.len() == 21); }
            assert("method_declaration"@ != "record_declaration"@) by { reveal_strlit("method_declaration"); reveal_strlit("record_declaration"); assert("method_declaration"@.len() == 18); assert("record_declaration"@.len() == 18); assert("method_declaration"@[0] == 'm'); assert("record_declaration"@[0] == 'r'); }
            assert("record_declaration"@ != "class_declaration"@) by { reveal_strlit("record_declaration"); reveal_strlit("class_declaration"); assert("record_declaration"@.len() == 18); assert("class_declaration"@.len() == 17); }
            assert("record_declaration"@ != "enum_declaration"@) by { reveal_strlit("record_declaration"); reveal_strlit("enum_declaration"); assert("record_declaration"@.len() == 18); assert("enum_declaration"@.len() == 16); }
            assert("record_declaration"@ != "interface_declaration"@) by { reveal_strlit("record_declaration"); reveal_strlit("interface_declaration"); assert("record_declaration"@.len() == 18); assert("interface_declaration"@.len() == 21); }
        },
        Grammar::Lua => {
            assert("function_definition"@ != "function_declaration"@) by { reveal_strlit("function_definition"); reveal_strlit("function_declaration"); assert("function_definition"@.len() == 19); assert("function_declaration"@.len() == 20); }
            assert("local_function"@ != "function_declaration"@) by { reveal_strlit("local_function"); reveal_strlit("function_declaration"); assert("local_function"@.len() == 14); assert("function_declaration"@.len() == 20); }
            assert("local_function"@ != "function_definition"@) by { reveal_strlit("local_function"); reveal_strlit("function_definition"); assert("local_function"@.len() == 14); assert("function_definition"@.len() == 19); }
        },
        Grammar::Php => {
            assert("class_declaration"@ != "function_definition"@) by { reveal_strlit("class_declaration"); reveal_strlit("function_definition"); assert("class_declaration"@.len() == 17); assert("function_definition"@.len() == 19); }
            assert("class_declaration"@ != "method_declaration"@) by { reveal_strlit("class_declaration"); reveal_strlit("method_declaration"); assert("class_declaration"@.len() == 17); assert("method_declaration"@.len() == 18); }
            assert("interface_declaration"@ != "class_declaration"@) by { reveal_strlit("interface_declaration"); reveal_strlit("class_declaration"); assert("interface_declaration"@.len() == 21); assert("class_declaration"@.len() == 17); }
            assert("interface_declaration"@ != "function_definition"@) by { reveal_strlit("interface_declaration"); reveal_strlit("function_definition"); assert("interface_declaration"@.len() == 21); assert("function_definition"@.len() == 19); }
            assert("interface_declaration"@ != "method_declaration"@) by { reveal_strlit("interface_declaration"); reveal_strlit("method_declaration"); assert("interface_declaration"@.len() == 21); assert("method_declaration"@.len() == 18); }
            assert("method_declaration"@ != "function_definition"@) by { reveal_strlit("method_declaration"); reveal_strlit("function_definition"); assert("method_declaration"@.len() == 18); assert("function_definition"@.len() == 19); }
            assert("namespace_definition"@ != "class_declaration"@) by { reveal_strlit("namespace_definition"); reveal_strlit("class_declaration"); assert("namespace_definition"@.len() == 20); assert("class_declaration"@.len() == 17); }
            assert("namespace_definition"@ != "function_definition"@) by { reveal_strlit("namespace_definition"); reveal_strlit("function_definition"); assert("namespace_definition"@.len() == 20); assert("function_definition"@.len() == 19); }
            assert("namespace_definition"@ != "interface_declaration"@) by { reveal_strlit("namespace_definition"); reveal_strlit("interface_declaration"); assert("namespace_definition"@.len() == 20); assert("interface_declaration"@.len() == 21); }
            assert("namespace_definition"@ != "method_declaration"@) by { reveal_strlit("namespace_definition"); reveal_strlit("method_declaration"); assert("namespace_definition"@.len() == 20); assert("method_declaration"@.len() == 18); }
            assert("namespace_definition"@ != "trait_declaration"@) by { reveal_strlit("namespace_definition"); reveal_strlit("trait_declaration"); assert("namespace_definition"@.len() == 20); assert("trait_declaration"@.len() == 17); }
            assert("trait_declaration"@ != "class_declaration"@) by { reveal_strlit("trait_declaration"); reveal_strlit("class_declaration"); assert("trait_declaration"@.len() == 17); assert("class_declaration"@.len() == 17); assert("trait_declaration"@[0] == 't'); assert("class_declaration"@[0] == 'c'); }
            assert("trait_declaration"@ != "function_definition"@) by { reveal_strlit("trait_declaration"); reveal_strlit("function_definition"); assert("trait_declaration"@.len() == 17); assert("function_definition"@.len() == 19); }
            assert("trait_declaration"@ != "interface_declaration"@) by { reveal_strlit("trait_declaration"); reveal_strlit("interface_declaration"); assert("trait_declaration"@.len() == 17); assert("interface_declaration"@.len() == 21); }
            assert("trait_declaration"@ != "method_declaration"@) by { reveal_strlit("trait_declaration"); reveal_strlit("method_declaration"); assert("trait_declaration"@.len() == 17); assert("method_declaration"@.len() == 18); }
        },
        Grammar::Python => {
            assert("class_definition"@ != "function_definition"@) by { reveal_strlit("class_definition"); reveal_strlit("function_definition"); assert("class_definition"@.len() == 16); assert("function_definition"@.len() == 19); }
        },
        Grammar::Ruby => {
            assert("class"@ != "method"@) by { reveal_strlit("class"); reveal_strlit("method"); assert("class"@.len() == 5); assert("method"@.len() == 6); }
            assert("class"@ != "singleton_method"@) by { reveal_strlit("class"); reveal_strlit("singleton_method"); assert("class"@.len() == 5); assert("singleton_method"@.len() == 16); }
            assert("module"@ != "class"@) by { reveal_strlit("module"); reveal_strlit("class"); assert("module"@.len() == 6); assert("class"@.len() == 5); }
            assert("module"@ != "method"@) by { reveal_strlit("module"); reveal_strlit("method"); assert("module"@.len() == 6); assert("method"@.len() == 6); assert("module"@[1] == 'o'); assert("method"@[1] == 'e'); }
            assert("module"@ != "singleton_method"@) by { reveal_strlit("module"); reveal_strlit("singleton_method"); assert("module"@.len() == 6); assert("singleton_method"@.len() == 16); }
            assert("singleton_method"@ != "method"@) by { reveal_strlit("singleton_method"); reveal_strlit("method"); assert("singleton_method"@.len() == 16); assert("method"@.len() == 6); }
        },
        Grammar::Rust => {
            assert("const_item"@ != "enum_item"@) by { reveal_strlit("const_item"); reveal_strlit("enum_item"); assert("const_item"@.len() == 10); assert("enum_item"@.len() == 9); }
            assert("const_item"@ != "function_item"@) by { reveal_strlit("const_item"); reveal_strlit("function_item"); assert("const_item"@.len() == 10); assert("function_item"@.len() == 13); }
            assert("const_item"@ != "impl_item"@) by { reveal_strlit("const_item"); reveal_strlit("impl_item"); assert("const_item"@.len() == 10); assert("impl_item"@.len() == 9); }
            assert("const_item"@ != "mod_item"@) by { reveal_strlit("const_item"); reveal_strlit("mod_item"); assert("const_item"@.len() == 10); assert("mod_item"@.len() == 8); }
            assert("const_item"@ != "struct_item"@) by { reveal_strlit("const_item"); reveal_strlit("struct_item"); assert("const_item"@.len() == 10); assert("struct_item"@.len() == 11); }
            assert("const_item"@ != "trait_item"@) by { reveal_strlit("const_item"); reveal_strlit("trait_item"); assert("const_item"@.len() == 10); assert("trait_item"@.len() == 10); assert("const_item"@[0] == 'c'); assert("trait_item"@[0] == 't'); }
            assert("enum_item"@ != "function_item"@) by { reveal_strlit("enum_item"); reveal_strlit("function_item"); assert("enum_item"@.len() == 9); assert("function_item"@.len() == 13); }
            assert("enum_item"@ != "struct_item"@) by { reveal_strlit("enum_item"); reveal_strlit("struct_item"); assert("enum_item"@.len() == 9); assert("struct_item"@.len() == 11); }
            assert("impl_item"@ != "enum_item"@) by { reveal_strlit("impl_item"); reveal_strlit("enum_item"); assert("impl_item"@.len() == 9); assert("enum_item"@.len() == 9); assert("impl_item"@[0] == 'i'); assert("enum_item"@[0] == 'e'); }
            assert("impl_item"@ != "function_item"@) by { reveal_strlit("impl_item"); reveal_strlit("function_item"); assert("impl_item"@.len() == 9); assert("function_item"@.len() == 13); }
            assert("impl_item"@ != "struct_item"@) by { reveal_strlit("impl_item"); reveal_strlit("struct_item"); assert("impl_item"@.len() == 9); assert("struct_item"@.len() == 11); }
            assert("impl_item"@ != "trait_item"@) by { reveal_strlit("impl_item"); reveal_strlit("trait_item"); assert("impl_item"@.len() == 9); assert("trait_item"@.len() == 10); }
            assert("mod_item"@ != "enum_item"@) by { reveal_strlit("mod_item"); reveal_strlit("enum_item"); assert("mod_item"@.len() == 8); assert("enum_item"@.len() == 9); }
            assert("mod_item"@ != "function_item"@) by { reveal_strlit("mod_item"); reveal_strlit("function_item"); assert("mod_item"@.len() == 8); assert("function_item"@.len() == 13); }
            assert("mod_item"@ != "impl_item"@) by { reveal_strlit("mod_item"); reveal_strlit("impl_item"); assert("mod_item"@.len() == 8); assert("impl_item"@.len() == 9); }
            assert("mod_item"@ != "struct_item"@) by { reveal_strlit("mod_item"); reveal_strlit("struct_item"); assert("mod_item"@.len() == 8); assert("struct_item"@.len() == 11); }
            assert("mod_item"@ != "trait_item"@) by { reveal_strlit("mod_item"); reveal_strlit("trait_item"); assert("mod_item"@.len() == 8); assert("trait_item"@.len() == 10); }
            assert("static_item"@ != "const_item"@) by { reveal_strlit("static_item"); reveal_strlit("const_item"); assert("static_item"@.len() == 11); assert("const_item"@.len() == 10); }
            assert("static_item"@ != "enum_item"@) by { reveal_strlit("static_item"); reveal_strlit("enum_item"); assert("static_item"@.len() == 11); assert("enum_item"@.len() == 9); }
            assert("static_item"@ != "function_item"@) by { reveal_strlit("static_item"); reveal_strlit("function_item"); assert("static_item"@.len() == 11); assert("function_item"@.len() == 13); }
            assert("static_item"@ != "impl_item"@) by { reveal_strlit("static_item"); reveal_strlit("impl_item"); assert("static_item"@.len() == 11); assert("impl_item"@.len() == 9); }
            assert("static_item"@ != "mod_item"@) by { reveal_strlit("static_item"); reveal_strlit("mod_item"); assert("static_item"@.len() == 11); assert("mod_item"@.len() == 8); }
            assert("static_item"@ != "struct_item"@) by { reveal_strlit("static_item"); reveal_strlit("struct_item"); assert("static_item"@.len() == 11); assert("struct_item"@.len() == 11); assert("static_item"@[2] == 'a'); assert("struct_item"@[2] == 'r'); }
            assert("static_item"@ != "trait_item"@) by { reveal_strlit("static_item"); reveal_strlit("trait_item"); assert("static_item"@.len() == 11); assert("trait_item"@.len() == 10); }
            assert("struct_item"@ != "function_item"@) by { reveal_strlit("struct_item"); reveal_strlit("function_item"); assert("struct_item"@.len() == 11); assert("function_item"@.len() == 13); }
            assert("trait_item"@ != "enum_item"@) by { reveal_strlit("trait_item"); reveal_strlit("enum_item"); assert("trait_item"@.len() == 10); assert("enum_item"@.len() == 9); }
            assert("trait_item"@ != "function_item"@) by { reveal_strlit("trait_item"); reveal_strlit("function_item"); assert("trait_item"@.len() == 10); assert("function_item"@.len() == 13); }
            assert("trait_item"@ != "struct_item"@) by { reveal_strlit("trait_item"); reveal_strlit("struct_item"); assert("trait_item"@.len() == 10); assert("struct_item"@.len() == 11); }
            assert("type_item"@ != "const_item"@) by { reveal_strlit("type_item"); reveal_strlit("const_item"); assert("type_item"@.len() == 9); assert("const_item"@.len() == 10); }
            assert("type_item"@ != "enum_item"@) by { reveal_strlit("type_item"); reveal_strlit("enum_item"); assert("type_item"@.len() == 9); assert("enum_item"@.len() == 9); assert("type_item"@[0] == 't'); assert("enum_item"@[0] == 'e'); }
            assert("type_item"@ != "function_item"@) by { reveal_strlit("type_item"); reveal_strlit("function_item"); assert("type_item"@.len() == 9); assert("function_item"@.len() == 13); }
            assert("type_item"@ != "impl_item"@) by { reveal_strlit("type_item"); reveal_strlit("impl_item"); assert("type_item"@.len() == 9); assert("impl_item"@.len() == 9); assert("type_item"@[0] == 't'); assert("impl_item"@[0] == 'i'); }
            assert("type_item"@ != "mod_item"@) by { reveal_strlit("type_item"); reveal_strlit("mod_item"); assert("type_item"@.len() == 9); assert("mod_item"@.len() == 8); }
            assert("type_item"@ != "static_item"@) by { reveal_strlit("type_item"); reveal_strlit("static_item"); assert("type_item"@.len() == 9); assert("static_item"@.len() == 11); }
            assert("type_item"@ != "struct_item"@) by { reveal_strlit("type_item"); reveal_strlit("struct_item"); assert("type_item"@.len() == 9); assert("struct_item"@.len() == 11); }
            assert("type_item"@ != "trait_item"@) by { reveal_strlit("type_item"); reveal_strlit("trait_item"); assert("type_item"@.len() == 9); assert("trait_item"@.len() == 10); }
        },
        Grammar::Scala => {
            assert("class_definition"@ != "function_declaration"@) by { reveal_strlit("class_definition"); reveal_strlit("function_declaration"); assert("class_definition"@.len() == 16); assert("function_declaration"@.len() == 20); }
            assert("class_definition"@ != "function_definition"@) by { reveal_strlit("class_definition"); reveal_strlit("function_definition"); assert("class_definition"@.len() == 16); assert("function_definition"@.len() == 19); }
            assert("function_declaration"@ != "function_definition"@) by { reveal_strlit("function_declaration"); reveal_strlit("function_definition"); assert("function_declaration"@.len() == 20); assert("function_definition"@.len() == 19); }
            assert("object_definition"@ != "class_definition"@) by { reveal_strlit("object_definition"); reveal_strlit("class_definition"); assert("object_definition"@.len() == 17); assert("class_definition"@.len() == 16); }
            assert("object_definition"@ != "function_declaration"@) by { reveal_strlit("object_definition"); reveal_strlit("function_declaration"); assert("object_definition"@.len() == 17); assert("function_declaration"@.len() == 20); }
            assert("object_definition"@ != "function_definition"@) by { reveal_strlit("object_definition"); reveal_strlit("function_definition"); assert("object_definition"@.len() == 17); assert("function_definition"@.len() == 19); }
            assert("trait_definition"@ != "class_definition"@) by { reveal_strlit("trait_definition"); reveal_strlit("class_definition"); assert("trait_definition"@.len() == 16); assert("class_definition"@.len() == 16); assert("trait_definition"@[0] == 't'); assert("class_definition"@[0] == 'c'); }
            assert("trait_definition"@ != "function_declaration"@) by { reveal_strlit("trait_definition"); reveal_strlit("function_declaration"); assert("trait_definition"@.len() == 16); assert("function_declaration"@.len() == 20); }
            assert("trait_definition"@ != "function_definition"@) by { reveal_strlit("trait_definition"); reveal_strlit("function_definition"); assert("trait_definition"@.len() == 16); assert("function_definition"@.len() == 19); }
            assert("trait_definition"@ != "object_definition"@) by { reveal_strlit("trait_definition"); reveal_strlit("object_definition"); assert("trait_definition"@.len() == 16); assert("object_definition"@.len() == 17); }
            assert("val_definition"@ != "class_definition"@) by { reveal_strlit("val_definition"); reveal_strlit("class_definition"); assert("val_definition"@.len() == 14); assert("class_definition"@.len() == 16); }
            assert("val_definition"@ != "function_declaration"@) by { reveal_strlit("val_definition"); reveal_strlit("function_declaration"); assert("val_definition"@.len() == 14); assert("function_declaration"@.len() == 20); }
            assert("val_definition"@ != "function_definition"@) by { reveal_strlit("val_definition"); reveal_strlit("function_definition"); assert("val_definition"@.len() == 14); assert("function_definition"@.len() == 19); }
            assert("val_definition"@ != "object_definition"@) by { reveal_strlit("val_definition"); reveal_strlit("object_definition"); assert("val_definition"@.len() == 14); assert("object_definition"@.len() == 17); }
            assert("val_definition"@ != "trait_definition"@) by { reveal_strlit("val_definition"); reveal_strlit("trait_definition"); assert("val_definition"@.len() == 14); assert("trait_definition"@.len() == 16); }
            assert("var_definition"@ != "class_definition"@) by { reveal_strlit("var_definition"); reveal_strlit("class_definition"); assert("var_definition"@.len() == 14); assert("class_definition"@.len() == 16); }
            assert("var_definition"@ != "function_declaration"@) by { reveal_strlit("var_definition"); reveal_strlit("function_declaration"); assert("var_definition"@.len() == 14); assert("function_declaration"@.len() == 20); }
            assert("var_definition"@ != "function_definition"@) by { reveal_strlit("var_definition"); reveal_strlit("function_definition"); assert("var_definition"@.len() == 14); assert("function_definition"@.len() == 19); }
            assert("var_definition"@ != "object_definition"@) by { reveal_strlit("var_definition"); reveal_strlit("object_definition"); assert("var_definition"@.len() == 14); assert("object_definition"@.len() == 17); }
            assert("var_definition"@ != "trait_definition"@) by { reveal_strlit("var_definition"); reveal_strlit("trait_definition"); assert("var_definition"@.len() == 14); assert("trait_definition"@.len() == 16); }
            assert("var_definition"@ != "val_definition"@) by { reveal_strlit("var_definition"); reveal_strlit("val_definition"); assert("var_definition"@.len() == 14); assert("val_definition"@.len() == 14); assert("var_definition"@[2] == 'r'); assert("val_definition"@[2] == 'l'); }
        },
        Grammar::Swift => {
            assert("class_declaration"@ != "function_declaration"@) by { reveal_strlit("class_declaration"); reveal_strlit("function_declaration"); assert("class_declaration"@.len() == 17); assert("function_declaration"@.len() == 20); }
            assert("property_declaration"@ != "class_declaration"@) by { reveal_strlit("property_declaration"); reveal_strlit("class_declaration"); assert("property_declaration"@.len() == 20); assert("class_declaration"@.len() == 17); }
            assert("property_declaration"@ != "function_declaration"@) by { reveal_strlit("property_declaration"); reveal_strlit("function_declaration"); assert("property_declaration"@.len() == 20); assert("function_declaration"@.len() == 20); assert("property_declaration"@[0] == 'p'); assert("function_declaration"@[0] == 'f'); }
            assert("property_declaration"@ != "protocol_declaration"@) by { reveal_strlit("property_declaration"); reveal_strlit("protocol_declaration"); assert("property_declaration"@.len() == 20); assert("protocol_declaration"@.len() == 20); assert("property_declaration"@[3] == 'p'); assert("protocol_declaration"@[3] == 't'); }
            assert("protocol_declaration"@ != "class_declaration"@) by { reveal_strlit("protocol_declaration"); reveal_strlit("class_declaration"); assert("protocol_declaration"@.len() == 20); assert("class_declaration"@.len() == 17); }
            assert("protocol_declaration"@ != "function_declaration"@) by { reveal_strlit("protocol_declaration"); reveal_strlit("function_declaration"); assert("protocol_declaration"@.len() == 20); assert("function_declaration"@.len() == 20); assert("protocol_declaration"@[0] == 'p'); assert("function_declaration"@[0] == 'f'); }
        },
        Grammar::TypeScript | Grammar::Tsx => {
            assert("arrow_function"@ != "function_declaration"@) by { reveal_strlit("arrow_function"); reveal_strlit("function_declaration"); assert("arrow_function"@.len() == 14); assert("function_declaration"@.len() == 20); }
            assert("arrow_function"@ != "function_expression"@) by { reveal_strlit("arrow_function"); reveal_strlit("function_expression"); assert("arrow_function"@.len() == 14); assert("function_expression"@.len() == 19); }
            assert("class"@ != "arrow_function"@) by { reveal_strlit("class"); reveal_strlit("arrow_function"); assert("class"@.len() == 5); assert("arrow_function"@.len() == 14); }
            assert("class"@ != "class_declaration"@) by { reveal_strlit("class"); reveal_strlit("class_declaration"); assert("class"@.len() == 5); assert("class_declaration"@.len() == 17); }
            assert("class"@ != "function_declaration"@) by { reveal_strlit("class"); reveal_strlit("function_declaration"); assert("class"@.len() == 5); assert("function_declaration"@.len() == 20); }
            assert("class"@ != "function_expression"@) by { reveal_strlit("class"); reveal_strlit("function_expression"); assert("class"@.len() == 5); assert("function_expression"@.len() == 19); }
            assert("class"@ != "method_definition"@) by { reveal_strlit("class"); reveal_strlit("method_definition"); assert("class"@.len() == 5); assert("method_definition"@.len() == 17); }
            assert("class"@ != "method_signature"@) by { reveal_strlit("class"); reveal_strlit("method_signature"); assert("class"@.len() == 5); assert("method_signature"@.len() == 16); }
            assert("class_declaration"@ != "arrow_function"@) by { reveal_strlit("class_declaration"); reveal_strlit("arrow_function"); assert("class_declaration"@.len() == 17); assert("arrow_function"@.len() == 14); }
            assert("class_declaration"@ != "function_declaration"@) by { reveal_strlit("class_declaration"); reveal_strlit("function_declaration"); assert("class_declaration"@.len() == 17); assert("function_declaration"@.len() == 20); }
            assert("class_declaration"@ != "function_expression"@) by { reveal_strlit("class_declaration"); reveal_strlit("function_expression"); assert("class_declaration"@.len() == 17); assert("function_expression"@.len() == 19); }
            assert("class_declaration"@ != "method_definition"@) by { reveal_strlit("class_declaration"); reveal_strlit("method_definition"); assert("class_declaration"@.len() == 17); assert("method_definition"@.len() == 17); assert("class_declaration"@[0] == 'c'); assert("method_definition"@[0] == 'm'); }
            assert("class_declaration"@ != "method_signature"@) by { reveal_strlit("class_declaration"); reveal_strlit("method_signature"); assert("class_declaration"@.len() == 17); assert("method_signature"@.len() == 16); }
            assert("enum_declaration"@ != "arrow_function"@) by { reveal_strlit("enum_declaration"); reveal_strlit("arrow_function"); assert("enum_declaration"@.len() == 16); assert("arrow_function"@.len() == 14); }
            assert("enum_declaration"@ != "class"@) by { reveal_strlit("enum_declaration"); reveal_strlit("class"); assert("enum_declaration"@.len() == 16); assert("class"@.len() == 5); }
            assert("enum_declaration"@ != "class_declaration"@) by { reveal_strlit("enum_declaration"); reveal_strlit("class_declaration"); assert("enum_declaration"@.len() == 16); assert("class_declaration"@.len() == 17); }
            assert("enum_declaration"@ != "function_declaration"@) by { reveal_strlit("enum_declaration"); reveal_strlit("function_declaration"); assert("enum_declaration"@.len() == 16); assert("function_declaration"@.len() == 20); }
            assert("enum_declaration"@ != "function_expression"@) by { reveal_strlit("enum_declaration"); reveal_strlit("function_expression"); assert("enum_declaration"@.len() == 16); assert("function_expression"@.len() == 19); }
            assert("enum_declaration"@ != "interface_declaration"@) by { reveal_strlit("enum_declaration"); reveal_strlit("interface_declaration"); assert("enum_declaration"@.len() == 16); assert("interface_declaration"@.len() == 21); }
            assert("enum_declaration"@ != "method_definition"@) by { reveal_strlit("enum_declaration"); reveal_strlit("method_definition"); assert("enum_declaration"@.len() == 16); assert("method_definition"@.len() == 17); }
            assert("enum_declaration"@ != "method_signature"@) by { reveal_strlit("enum_declaration"); reveal_strlit("method_signature"); assert("enum_declaration"@.len() == 16); assert("method_signature"@.len() == 16); assert("enum_declaration"@[0] == 'e'); assert("method_signature"@[0] == 'm'); }
            assert("enum_declaration"@ != "type_alias_declaration"@) by { reveal_strlit("enum_declaration"); reveal_strlit("type_alias_declaration"); assert("enum_declaration"@.len() == 16); assert("type_alias_declaration"@.len() == 22); }
            assert("function_expression"@ != "function_declaration"@) by { reveal_strlit("function_expression"); reveal_strlit("function_declaration"); assert("function_expression"@.len() == 19); assert("function_declaration"@.len() == 20); }
            assert("interface_declaration"@ != "arrow_function"@) by { reveal_strlit("interface_declaration"); reveal_strlit("arrow_function"); assert("interface_declaration"@.len() == 21); assert("arrow_function"@.len() == 14); }
            assert("interface_declaration"@ != "class"@) by { reveal_strlit("interface_declaration"); reveal_strlit("class"); assert("interface_declaration"@.len() == 21); assert("class"@.len() == 5); }
            assert("interface_declaration"@ != "class_declaration"@) by { reveal_strlit("interface_declaration"); reveal_strlit("class_declaration"); assert("interface_declaration"@.len() == 21); assert("class_declaration"@.len() == 17); }
            assert("interface_declaration"@ != "function_declaration"@) by { reveal_strlit("interface_declaration"); reveal_strlit("function_declaration"); assert("interface_declaration"@.len() == 21); assert("function_declaration"@.len() == 20); }
            assert("interface_declaration"@ != "function_expression"@) by { reveal_strlit("interface_declaration"); reveal_strlit("function_expression"); assert("interface_declaration"@.len() == 21); assert("function_expression"@.len() == 19); }
            assert("interface_declaration"@ != "method_definition"@) by { reveal_strlit("interface_declaration"); reveal_strlit("method_definition"); assert("interface_declaration"@.len() == 21); assert("method_definition"@.len() == 17); }
            assert("interface_declaration"@ != "method_signature"@) by { reveal_strlit("interface_declaration"); reveal_strlit("method_signature"); assert("interface_declaration"@.len() == 21); assert("method_signature"@.len() == 16); }
            assert("method_definition"@ != "arrow_function"@) by { reveal_strlit("method_definition"); reveal_strlit("arrow_function"); assert("method_definition"@.len() == 17); assert("arrow_function"@.len() == 14); }
            assert("method_definition"@ != "function_declaration"@) by { reveal_strlit("method_definition"); reveal_strlit("function_declaration"); assert("method_definition"@.len() == 17); assert("function_declaration"@.len() == 20); }
            assert("method_definition"@ != "function_expression"@) by { reveal_strlit("method_definition"); reveal_strlit("function_expression"); assert("method_definition"@.len() == 17); assert("function_expression"@.len() == 19); }
            assert("method_signature"@ != "arrow_function"@) by { reveal_strlit("method_signature"); reveal_strlit("arrow_function"); assert("method_signature"@.len() == 16); assert("arrow_function"@.len() == 14); }
            assert("method_signature"@ != "function_declaration"@) by { reveal_strlit("method_signature"); reveal_strlit("function_declaration"); assert("method_signature"@.len() == 16); assert("function_declaration"@.len() == 20); }
            assert("method_signature"@ != "function_expression"@) by { reveal_strlit("method_signature"); reveal_strlit("function_expression"); assert("method_signature"@.len() == 16); assert("function_expression"@.len() == 19); }
            assert("method_signature"@ != "method_definition"@) by { reveal_strlit("method_signature"); reveal_strlit("method_definition"); assert("method_signature"@.len() == 16); assert("method_definition"@.len() == 17); }
            assert("type_alias_declaration"@ != "arrow_function"@) by { reveal_strlit("type_alias_declaration"); reveal_strlit("arrow_function"); assert("type_alias_declaration"@.len() == 22); assert("arrow_function"@.len() == 14); }
            assert("type_alias_declaration"@ != "class"@) by { reveal_strlit("type_alias_declaration"); reveal_strlit("class"); assert("type_alias_declaration"@.len() == 22); assert("class"@.len() == 5); }
            assert("type_alias_declaration"@ != "class_declaration"@) by { reveal_strlit("type_alias_declaration"); reveal_strlit("class_declaration"); assert("type_alias_declaration"@.len() == 22); assert("class_declaration"@.len() == 17); }
            assert("type_alias_declaration"@ != "function_declaration"@) by { reveal_strlit("type_alias_declaration"); reveal_strlit("function_declaration"); assert("type_alias_declaration"@.len() == 22); assert("function_declaration"@.len() == 20); }
            assert("type_alias_declaration"@ != "function_expression"@) by { reveal_strlit("type_alias_declaration"); reveal_strlit("function_expression"); assert("type_alias_declaration"@.len() == 22); assert("function_expression"@.len() == 19); }
            assert("type_alias_declaration"@ != "interface_declaration"@) by { reveal_strlit("type_alias_declaration"); reveal_strlit("interface_declaration"); assert("type_alias_declaration"@.len() == 22); assert("interface_declaration"@.len() == 21); }
            assert("type_alias_declaration"@ != "method_definition"@) by { reveal_strlit("type_alias_declaration"); reveal_strlit("method_definition"); assert("type_alias_declaration"@.len() == 22); assert("method_definition"@.len() == 17); }
            assert("type_alias_declaration"@ != "method_signature"@) by { reveal_strlit("type_alias_declaration"); reveal_strlit("method_signature"); assert("type_alias_declaration"@.len() == 22); assert("method_signature"@.len() == 16); }
            assert("variable_declarator"@ != "arrow_function"@) by { reveal_strlit("variable_declarator"); reveal_strlit("arrow_function"); assert("variable_declarator"@.len() == 19); assert("arrow_function"@.len() == 14); }
            assert("variable_declarator"@ != "class"@) by { reveal_strlit("variable_declarator"); reveal_strlit("class"); assert("variable_declarator"@.len() == 19); assert("class"@.len() == 5); }
            assert("variable_declarator"@ != "class_declaration"@) by { reveal_strlit("variable_declarator"); reveal_strlit("class_declaration"); assert("variable_declarator"@.len() == 19); assert("class_declaration"@.len() == 17); }
            assert("variable_declarator"@ != "enum_declaration"@) by { reveal_strlit("variable_declarator"); reveal_strlit("enum_declaration"); assert("variable_declarator"@.len() == 19); assert("enum_declaration"@.len() == 16); }
            assert("variable_declarator"@ != "function_declaration"@) by { reveal_strlit("variable_declarator"); reveal_strlit("function_declaration"); assert("variable_declarator"@.len() == 19); assert("function_declaration"@.len() == 20); }
            assert("variable_declarator"@ != "function_expression"@) by { reveal_strlit("variable_declarator"); reveal_strlit("function_expression"); assert("variable_declarator"@.len() == 19); assert("function_expression"@.len() == 19); assert("variable_declarator"@[0] == 'v'); assert("function_expression"@[0] == 'f'); }
            assert("variable_declarator"@ != "interface_declaration"@) by { reveal_strlit("variable_declarator"); reveal_strlit("interface_declaration"); assert("variable_declarator"@.len() == 19); assert("interface_declaration"@.len() == 21); }
            assert("variable_declarator"@ != "method_definition"@) by { reveal_strlit("variable_declarator"); reveal_strlit("method_definition"); assert("variable_declarator"@.len() == 19); assert("method_definition"@.len() == 17); }
            assert("variable_declarator"@ != "method_signature"@) by { reveal_strlit("variable_declarator"); reveal_strlit("method_signature"); assert("variable_declarator"@.len() == 19); assert("method_signature"@.len() == 16); }
            assert("variable_declarator"@ != "type_alias_declaration"@) by { reveal_strlit("variable_declarator"); reveal_strlit("type_alias_declaration"); assert("variable_declarator"@.len() == 19); assert("type_alias_declaration"@.len() == 22); }
        },
    }
}

/// A walk only adds to what it has found: the symbols and relations found
/// before stay, in place.
proof fn lemma_walk_node_extends(g: Grammar, src: Seq<u8>, n: SyntaxV, c: CtxV)
    ensures
        walk_node(g, src, n, c).nodes.len() >= c.nodes.len(),
        forall|i: int| 0 <= i < c.nodes.len() ==> walk_node(g, src, n, c).nodes[i] == c.nodes[i],
        walk_node(g, src, n, c).edges.len() >= c.edges.len(),
        forall|i: int| 0 <= i < c.edges.len() ==> walk_node(g, src, n, c).edges[i] == c.edges[i],
    decreases n,
{
    reveal(act);
    let (c1, pushed) = act(g, src, n, c);
    let c2 = match pushed {
        Some(idx) => CtxV {
            edges: match c.parent {
                Some(p) => c1.edges.push(LocalEdge { from_idx: p, to_idx: idx, kind: EdgeKind::Contains, line: None }),
                None => c1.edges,
            },
            parent: Some(idx),
            ..c1
        },
        None => c1,
    };
    assert(c1.edges == c.edges);
    assert(c1.nodes.len() >= c.nodes.len());
    assert(forall|i: int| 0 <= i < c.nodes.len() ==> c1.nodes[i] == c.nodes[i]);
    assert(c2.nodes == c1.nodes);
    assert(c2.edges.len() >= c.edges.len());
    assert(forall|i: int| 0 <= i < c.edges.len() ==> c2.edges[i] == c.edges[i]);
    lemma_walk_list_extends(g, src, n.children, c2);
    let c3 = walk_list(g, src, n.children, c2);
    assert(walk_node(g, src, n, c) == CtxV { parent: c.parent, ..c3 });
}

proof fn lemma_walk_list_extends(g: Grammar, src: Seq<u8>, cs: Seq<SyntaxV>, c: CtxV)
    ensures
        walk_list(g, src, cs, c).nodes.len() >= c.nodes.len(),
        forall|i: int| 0 <= i < c.nodes.len() ==> walk_list(g, src, cs, c).nodes[i] == c.nodes[i],
        walk_list(g, src, cs, c).edges.len() >= c.edges.len(),
        forall|i: int| 0 <= i < c.edges.len() ==> walk_list(g, src, cs, c).edges[i] == c.edges[i],
    decreases cs,
{
    if cs.len() > 0 {
        let before = walk_list(g, src, cs.drop_last(), c);
        lemma_walk_list_extends(g, src, cs.drop_last(), c);
        lemma_walk_node_extends(g, src, cs.last(), before);
    }
}

/// Declarations are recorded with their kind: at a syntax node whose kind
/// is in its language's [`declaration_table`] and that has a non-empty
/// name, the walk records a symbol of the table's kind with that name, next
/// after what it had found, and, inside another declaration, a containment
/// relation from that declaration to it.
pub proof fn lemma_declaration_recorded(g: Grammar, src: Seq<u8>, n: SyntaxV, c: CtxV, k: int, name: Seq<char>)
    requires
        0 <= k < declaration_table(g).len(),
        n.kind == declaration_table(g)[k].0,
        name_node(g, n) matches Some(nn) && node_text(src, nn) == Some(name),
        name.len() > 0,
    ensures
        walk_node(g, src, n, c).nodes.len() > c.nodes.len(),
        walk_node(g, src, n, c).nodes[c.nodes.len() as int].kind == declaration_table(g)[k].1,
        walk_node(g, src, n, c).nodes[c.nodes.len() as int].name == name,
        c.parent matches Some(p) ==> walk_node(g, src, n, c).edges.contains(
            LocalEdge { from_idx: p, to_idx: c.nodes.len() as usize, kind: EdgeKind::Contains, line: None },
        ),
{
    lemma_table_is_declared(g, k);
    reveal(act);
    reveal(act_of);
    reveal(draft_of);
    let nk = declaration_table(g)[k].1;
    let (c1, pushed) = act(g, src, n, c);
    assert(pushed == Some(c.nodes.len() as usize));
    assert(c1.nodes.len() == c.nodes.len() + 1);
    assert(c1.nodes[c.nodes.len() as int].kind == nk);
    let c2 = CtxV {
        edges: match c.parent {
            Some(p) => c1.edges.push(
                LocalEdge { from_idx: p, to_idx: c.nodes.len() as usize, kind: EdgeKind::Contains, line: None },
            ),
            None => c1.edges,
        },
        parent: Some(c.nodes.len() as usize),
        ..c1
    };
    lemma_walk_list_extends(g, src, n.children, c2);
    let w = walk_node(g, src, n, c);
    assert(w.nodes == walk_list(g, src, n.children, c2).nodes);
    assert(w.edges == walk_list(g, src, n.children, c2).edges);
    if c.parent is Some {
        let i = c2.edges.len() - 1;
        assert(w.edges[i] == c2.edges[i]);
    }
}

} // verus!
