use vstd::prelude::*;

verus! {

/// Kind of a symbol stored in the graph.
#[derive(Debug, Clone, Copy, PartialEq, Eq, Structural)]
pub enum NodeKind {
    File,
    Module,
    Class,
    Struct,
    Interface,
    Trait,
    Protocol,
    Function,
    Method,
    Property,
    Field,
    Variable,
    Constant,
    Enum,
    EnumMember,
    TypeAlias,
    Namespace,
    Parameter,
    Import,
    Export,
    Route,
    Component,
}

/// Kind of a relation between two symbols.
#[derive(Debug, Clone, Copy, PartialEq, Eq, Structural)]
pub enum EdgeKind {
    Contains,
    Calls,
    Imports,
    Exports,
    Extends,
    Implements,
    References,
    TypeOf,
    Returns,
    Instantiates,
    Overrides,
    Decorates,
}

/// The stable name under which a node kind is stored and shown.
pub open spec fn node_kind_name(k: NodeKind) -> Seq<char> {
    match k {
        NodeKind::File => "file"@,
        NodeKind::Module => "module"@,
        NodeKind::Class => "class"@,
        NodeKind::Struct => "struct"@,
        NodeKind::Interface => "interface"@,
        NodeKind::Trait => "trait"@,
        NodeKind::Protocol => "protocol"@,
        NodeKind::Function => "function"@,
        NodeKind::Method => "method"@,
        NodeKind::Property => "property"@,
        NodeKind::Field => "field"@,
        NodeKind::Variable => "variable"@,
        NodeKind::Constant => "constant"@,
        NodeKind::Enum => "enum"@,
        NodeKind::EnumMember => "enum_member"@,
        NodeKind::TypeAlias => "type_alias"@,
        NodeKind::Namespace => "namespace"@,
        NodeKind::Parameter => "parameter"@,
        NodeKind::Import => "import"@,
        NodeKind::Export => "export"@,
        NodeKind::Route => "route"@,
        NodeKind::Component => "component"@,
    }
}

/// The stable name under which an edge kind is stored and shown.
pub open spec fn edge_kind_name(k: EdgeKind) -> Seq<char> {
    match k {
        EdgeKind::Contains => "contains"@,
        EdgeKind::Calls => "calls"@,
        EdgeKind::Imports => "imports"@,
        EdgeKind::Exports => "exports"@,
        EdgeKind::Extends => "extends"@,
        EdgeKind::Implements => "implements"@,
        EdgeKind::References => "references"@,
        EdgeKind::TypeOf => "type_of"@,
        EdgeKind::Returns => "returns"@,
        EdgeKind::Instantiates => "instantiates"@,
        EdgeKind::Overrides => "overrides"@,
        EdgeKind::Decorates => "decorates"@,
    }
}

impl NodeKind {
    pub fn as_str(self) -> (s: &'static str)
        ensures
            s@ == node_kind_name(self),
    {
        match self {
            NodeKind::File => "file",
            NodeKind::Module => "module",
            NodeKind::Class => "class",
            NodeKind::Struct => "struct",
            NodeKind::Interface => "interface",
            NodeKind::Trait => "trait",
            NodeKind::Protocol => "protocol",
            NodeKind::Function => "function",
            NodeKind::Method => "method",
            NodeKind::Property => "property",
            NodeKind::Field => "field",
            NodeKind::Variable => "variable",
            NodeKind::Constant => "constant",
            NodeKind::Enum => "enum",
            NodeKind::EnumMember => "enum_member",
            NodeKind::TypeAlias => "type_alias",
            NodeKind::Namespace => "namespace",
            NodeKind::Parameter => "parameter",
            NodeKind::Import => "import",
            NodeKind::Export => "export",
            NodeKind::Route => "route",
            NodeKind::Component => "component",
        }
    }
}

impl EdgeKind {
    pub fn as_str(self) -> (s: &'static str)
        ensures
            s@ == edge_kind_name(self),
    {
        match self {
            EdgeKind::Contains => "contains",
            EdgeKind::Calls => "calls",
            EdgeKind::Imports => "imports",
            EdgeKind::Exports => "exports",
            EdgeKind::Extends => "extends",
            EdgeKind::Implements => "implements",
            EdgeKind::References => "references",
            EdgeKind::TypeOf => "type_of",
            EdgeKind::Returns => "returns",
            EdgeKind::Instantiates => "instantiates",
            EdgeKind::Overrides => "overrides",
            EdgeKind::Decorates => "decorates",
        }
    }
}

} // verus!
