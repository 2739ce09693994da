//! What the lint rules share: the nodes of a program, and the reports on them.

use crate::ast::{
    ArrowFunctionExpression, AssignmentExpression, Class, Function, Signature, Span,
    VariableDeclarator,
};
use crate::semantic::{NodeId, Scoping};
use vstd::prelude::*;

verus! {

/// A report on a piece of source.
#[derive(Debug)]
pub struct Diagnostic {
    pub message: String,
    pub help: Option<String>,
    pub span: Span,
}

/// A report, with its texts as sequences of characters.
pub ghost struct Report {
    pub message: Seq<char>,
    pub help: Option<Seq<char>>,
    pub span: Span,
}

impl View for Diagnostic {
    type V = Report;

    open spec fn view(&self) -> Report {
        Report {
            message: self.message@,
            help: match self.help {
                Some(h) => Some(h@),
                None => None,
            },
            span: self.span,
        }
    }
}

/// The reports in a list, in order.
pub open spec fn reports(diagnostics: Seq<Diagnostic>) -> Seq<Report> {
    diagnostics.map_values(|d: Diagnostic| d@)
}

/// What a node is, for the forms that some rule looks at.
#[derive(Debug, Clone, Copy)]
pub enum AstKind<'a> {
    VariableDeclarator(&'a VariableDeclarator),
    AssignmentExpression(&'a AssignmentExpression),
    Function(&'a Function),
    ArrowFunctionExpression(&'a ArrowFunctionExpression),
    Class(&'a Class),
    /// An interface, with its members.
    InterfaceDeclaration(&'a Vec<Signature>),
    /// A type literal, with its members.
    TypeLiteral(&'a Vec<Signature>),
    Other,
}

/// A node, with the one round it.
#[derive(Debug, Clone, Copy)]
pub struct AstNode<'a> {
    pub kind: AstKind<'a>,
    pub parent_id: NodeId,
}

/// What a rule can ask about the program.
#[derive(Debug)]
pub struct LintContext<'a> {
    pub scoping: &'a Scoping,
    /// The nodes of the program. A node is named by its place in the list.
    pub nodes: Vec<AstNode<'a>>,
    /// The names of the global variables that the configuration knows.
    pub globals: Vec<String>,
}

impl<'a> LintContext<'a> {
    /// The tables are ones that can be walked and numbered.
    pub open spec fn wf(self) -> bool {
        &&& self.scoping.scopes.wf()
        &&& self.globals@.len() <= u32::MAX
    }

    /// What the node `id` is.
    pub open spec fn spec_kind(self, id: NodeId) -> AstKind<'a> {
        if id < self.nodes@.len() {
            self.nodes@[id as int].kind
        } else {
            AstKind::Other
        }
    }

    /// What the node round `id` is.
    pub open spec fn spec_parent_kind(self, id: NodeId) -> AstKind<'a> {
        if id < self.nodes@.len() {
            self.spec_kind(self.nodes@[id as int].parent_id)
        } else {
            AstKind::Other
        }
    }

    /// What the node `id` is.
    pub fn kind(&self, id: NodeId) -> (r: AstKind<'a>)
        ensures
            r == self.spec_kind(id),
    {
        if (id as usize) < self.nodes.len() {
            self.nodes[id as usize].kind
        } else {
            AstKind::Other
        }
    }

    /// What the node round `id` is.
    pub fn parent_kind(&self, id: NodeId) -> (r: AstKind<'a>)
        ensures
            r == self.spec_parent_kind(id),
    {
        if (id as usize) < self.nodes.len() {
            self.kind(self.nodes[id as usize].parent_id)
        } else {
            AstKind::Other
        }
    }
}

} // verus!
