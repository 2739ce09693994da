//! Where a traversal stands: the nodes round the current one, and the scopes and symbols.

use crate::ast::{
    ArrowFunctionExpression, AssignmentExpression, AssignmentTarget, BindingIdentifier,
    BindingPattern, CallExpression, Expression, FormalParameters, Function, FunctionType,
    IdentifierReference, ObjectProperty, ScopeId, Span, SymbolId, VariableDeclaration,
    VariableDeclarator,
};
use crate::semantic::{ScopeFlags, ScopeTree, SymbolTable};
use crate::text::opt_view;
use vstd::prelude::*;

verus! {

/// A name with the symbol that it is bound to.
#[derive(Debug)]
pub struct BoundIdentifier {
    pub name: String,
    pub symbol_id: SymbolId,
}

/// What a [`BoundIdentifier`] holds.
pub ghost struct Bound {
    pub name: Seq<char>,
    pub symbol_id: SymbolId,
}

impl View for BoundIdentifier {
    type V = Bound;

    open spec fn view(&self) -> Bound {
        Bound { name: self.name@, symbol_id: self.symbol_id }
    }
}

impl BoundIdentifier {
    /// The name that a declaration binds.
    pub fn from_binding_ident(ident: &BindingIdentifier) -> (r: BoundIdentifier)
        ensures
            r@ == spec_bound(*ident),
    {
        BoundIdentifier { name: ident.name.clone(), symbol_id: ident.symbol_id }
    }

    /// The same once more.
    pub fn copy(&self) -> (r: BoundIdentifier)
        ensures
            r@ == self@,
    {
        BoundIdentifier { name: self.name.clone(), symbol_id: self.symbol_id }
    }

    /// An expression that reads the variable.
    pub fn create_read_expression(&self) -> (r: Expression)
        ensures
            r matches Expression::Identifier(ident) && reads(ident, self@),
    {
        Expression::Identifier(
            IdentifierReference {
                span: Span::empty(),
                name: self.name.clone(),
                symbol_id: Some(self.symbol_id),
                is_read: true,
                is_write: false,
            },
        )
    }

    /// A target that writes the variable.
    pub fn create_write_target(&self) -> (r: AssignmentTarget)
        ensures
            r matches AssignmentTarget::Identifier(ident) && writes(ident, self@),
    {
        AssignmentTarget::Identifier(
            IdentifierReference {
                span: Span::empty(),
                name: self.name.clone(),
                symbol_id: Some(self.symbol_id),
                is_read: false,
                is_write: true,
            },
        )
    }

    /// The declaration of the variable.
    pub fn create_binding_identifier(&self) -> (r: BindingIdentifier)
        ensures
            declares(r, self@),
    {
        BindingIdentifier {
            span: Span::empty(),
            name: self.name.clone(),
            symbol_id: self.symbol_id,
        }
    }

    /// A pattern that declares the variable.
    pub fn create_binding_pattern(&self) -> (r: BindingPattern)
        ensures
            r matches BindingPattern::Identifier(ident) && declares(ident, self@),
    {
        BindingPattern::Identifier(self.create_binding_identifier())
    }
}

/// The name that a declaration binds.
pub open spec fn spec_bound(ident: BindingIdentifier) -> Bound {
    Bound { name: ident.name@, symbol_id: ident.symbol_id }
}

/// The name that a declaration binds, if any.
pub open spec fn spec_optional_bound(ident: Option<BindingIdentifier>) -> Option<Bound> {
    match ident {
        Some(ident) => Some(spec_bound(ident)),
        None => None,
    }
}

/// A new identifier that reads `bound`.
pub open spec fn reads(ident: IdentifierReference, bound: Bound) -> bool {
    &&& ident.span == Span::empty()
    &&& ident.name@ == bound.name
    &&& ident.symbol_id == Some(bound.symbol_id)
    &&& ident.is_read
    &&& !ident.is_write
}

/// A new identifier that writes `bound`.
pub open spec fn writes(ident: IdentifierReference, bound: Bound) -> bool {
    &&& ident.span == Span::empty()
    &&& ident.name@ == bound.name
    &&& ident.symbol_id == Some(bound.symbol_id)
    &&& !ident.is_read
    &&& ident.is_write
}

/// A new declaration of `bound`.
pub open spec fn declares(ident: BindingIdentifier, bound: Bound) -> bool {
    &&& ident.span == Span::empty()
    &&& ident.name@ == bound.name
    &&& ident.symbol_id == bound.symbol_id
}

/// The views of bound names.
pub open spec fn bounds(s: Seq<BoundIdentifier>) -> Seq<Bound> {
    s.map_values(|b: BoundIdentifier| b@)
}

/// The parameters that are one identifier each, with a default or without.
pub open spec fn identifier_params(items: Seq<BindingPattern>) -> Seq<Bound>
    decreases items.len(),
{
    if items.len() == 0 {
        Seq::empty()
    } else {
        let before = identifier_params(items.drop_last());
        match items.last().spec_binding_identifier() {
            Some(ident) => before.push(spec_bound(ident)),
            None => before,
        }
    }
}

/// The parameters that are one identifier each, with a default or without.
pub fn collect_identifier_params(params: &FormalParameters) -> (r: Vec<BoundIdentifier>)
    ensures
        bounds(r@) == identifier_params(params.items@),
{
    let items = &params.items;
    let mut r: Vec<BoundIdentifier> = Vec::new();
    let mut i: usize = 0;
    proof {
        assert(bounds(r@) =~= identifier_params(items@.take(0)));
    }
    while i < items.len()
        invariant
            i <= items@.len(),
            bounds(r@) == identifier_params(items@.take(i as int)),
        decreases items@.len() - i,
    {
        proof {
            assert(items@.take(i + 1).drop_last() =~= items@.take(i as int));
        }
        if let Some(ident) = items[i].get_binding_identifier() {
            let bound = BoundIdentifier::from_binding_ident(ident);
            let ghost before = r@;
            r.push(bound);
            proof {
                assert(bounds(r@) =~= bounds(before).push(bound@));
            }
        }
        i += 1;
    }
    proof {
        assert(items@.take(items@.len() as int) =~= items@);
    }
    r
}

/// The name under which a function on the right of an assignment is known.
pub open spec fn spec_assignment_target_name(target: AssignmentTarget) -> Option<Seq<char>> {
    match target {
        AssignmentTarget::Identifier(ident) => Some(ident.name@),
        AssignmentTarget::StaticMember(m) => Some(m.property@),
        AssignmentTarget::ComputedMember(m) => opt_view(m.static_property_name),
        _ => None,
    }
}

/// The name under which a function on the right of an assignment is known.
pub fn assignment_target_name(target: &AssignmentTarget) -> (r: Option<String>)
    ensures
        opt_view(r) == spec_assignment_target_name(*target),
{
    match target {
        AssignmentTarget::Identifier(ident) => Some(ident.name.clone()),
        AssignmentTarget::StaticMember(m) => Some(m.property.clone()),
        AssignmentTarget::ComputedMember(m) => match &m.static_property_name {
            Some(name) => Some(name.clone()),
            None => None,
        },
        _ => None,
    }
}

/// Which part of the node round it the current one is.
#[derive(Debug, Clone, Copy, PartialEq, Eq, Structural)]
pub enum AncestorType {
    /// There is no node round the program.
    Nothing,
    ProgramHashbang,
    ProgramDirectives,
    ProgramBody,
    FunctionParams,
    FunctionBody,
    ArrowFunctionExpressionParams,
    ArrowFunctionExpressionBody,
    CallExpressionCallee,
    CallExpressionArguments,
    VariableDeclarationDeclarations,
    VariableDeclaratorInit,
    AssignmentExpressionLeft,
    AssignmentExpressionRight,
    ObjectPropertyValue,
    ExportNamedDeclarationDeclaration,
    ExportDefaultDeclarationDeclaration,
    ExpressionStatementExpression,
    Other,
}

/// What the passes ask about a function round the current node.
#[derive(Debug)]
pub struct FunctionFacts {
    pub scope_id: ScopeId,
    pub function_type: FunctionType,
    pub name: Option<String>,
    /// The parameters that are one identifier each.
    pub params: Vec<BoundIdentifier>,
}

/// What the passes ask about an arrow function round the current node.
#[derive(Debug)]
pub struct ArrowFacts {
    pub scope_id: ScopeId,
    /// The parameters that are one identifier each.
    pub params: Vec<BoundIdentifier>,
}

/// What the passes ask about a call round the current node.
#[derive(Debug)]
pub struct CallFacts {
    pub span: Span,
    /// The name of the callee, where it is an identifier inside any parentheses and annotations.
    pub callee_name: Option<String>,
}

/// What the passes ask about a declared variable round the current node.
#[derive(Debug)]
pub struct DeclaratorFacts {
    pub span: Span,
    /// Where the declared pattern stands in the source.
    pub id_span: Span,
    pub binding: Option<BoundIdentifier>,
}

/// What the passes ask about an assignment round the current node.
#[derive(Debug)]
pub struct AssignmentFacts {
    pub span: Span,
    /// Where the target stands in the source.
    pub left_span: Span,
    /// The name of the target, where it is an identifier.
    pub identifier_name: Option<String>,
    /// The name under which a function on the right is known.
    pub target_name: Option<String>,
}

/// What the passes ask about a property round the current node.
#[derive(Debug)]
pub struct PropertyFacts {
    pub span: Span,
    pub key_name: Option<String>,
}

/// What the passes ask about a declaration or an export round the current node.
#[derive(Debug, Clone, Copy)]
pub struct PlaceFacts {
    pub span: Span,
    pub address: u32,
}

/// The node round the current one.
#[derive(Debug)]
pub enum AncestorNode {
    Program,
    Function(FunctionFacts),
    Arrow(ArrowFacts),
    Call(CallFacts),
    VariableDeclaration(PlaceFacts),
    VariableDeclarator(DeclaratorFacts),
    Assignment(AssignmentFacts),
    ObjectProperty(PropertyFacts),
    Export(PlaceFacts),
    ExpressionStatement(Span),
    Other,
}

/// The node round the current one, and which part of it the current one is.
#[derive(Debug)]
pub struct Ancestor {
    pub ty: AncestorType,
    pub node: AncestorNode,
}

/// Where a pattern stands in the source.
pub open spec fn pattern_span(pattern: BindingPattern) -> Span {
    match pattern {
        BindingPattern::Identifier(p) => p.span,
        BindingPattern::Object(p) => p.span,
        BindingPattern::Array(p) => p.span,
        BindingPattern::Assignment(p) => p.span,
    }
}

impl AncestorNode {
    /// A function.
    pub fn function(func: &Function) -> (r: AncestorNode)
        ensures
            r matches AncestorNode::Function(f) && f.scope_id == func.scope_id && f.function_type
                == func.function_type && opt_view(f.name) == (match func.id {
                Some(id) => Some(id.name@),
                None => None,
            }) && bounds(f.params@) == identifier_params(func.params.items@),
    {
        let name = match &func.id {
            Some(id) => Some(id.name.clone()),
            None => None,
        };
        AncestorNode::Function(
            FunctionFacts {
                scope_id: func.scope_id,
                function_type: func.function_type,
                name,
                params: collect_identifier_params(&func.params),
            },
        )
    }

    /// An arrow function.
    pub fn arrow(arrow: &ArrowFunctionExpression) -> (r: AncestorNode)
        ensures
            r matches AncestorNode::Arrow(f) && f.scope_id == arrow.scope_id && bounds(f.params@)
                == identifier_params(arrow.params.items@),
    {
        AncestorNode::Arrow(
            ArrowFacts {
                scope_id: arrow.scope_id,
                params: collect_identifier_params(&arrow.params),
            },
        )
    }

    /// A call.
    pub fn call(call: &CallExpression) -> (r: AncestorNode)
        ensures
            r matches AncestorNode::Call(f) && f.span == call.span && opt_view(f.callee_name) == (
            match call.callee.spec_inner_expression() {
                Expression::Identifier(ident) => Some(ident.name@),
                _ => None,
            }),
    {
        let callee_name = match call.callee.get_inner_expression() {
            Expression::Identifier(ident) => Some(ident.name.clone()),
            _ => None,
        };
        AncestorNode::Call(CallFacts { span: call.span, callee_name })
    }

    /// A declaration of variables.
    pub fn variable_declaration(declaration: &VariableDeclaration) -> (r: AncestorNode)
        ensures
            r matches AncestorNode::VariableDeclaration(f) && f.span == declaration.span && f.address
                == declaration.address,
    {
        AncestorNode::VariableDeclaration(
            PlaceFacts { span: declaration.span, address: declaration.address },
        )
    }

    /// A declared variable.
    pub fn variable_declarator(declarator: &VariableDeclarator) -> (r: AncestorNode)
        ensures
            r matches AncestorNode::VariableDeclarator(f) && f.span == declarator.span && f.id_span
                == pattern_span(declarator.id) && (match f.binding {
                Some(b) => Some(b@),
                None => None,
            }) == spec_optional_bound(declarator.id.spec_binding_identifier()),
    {
        let binding = match declarator.id.get_binding_identifier() {
            Some(ident) => Some(BoundIdentifier::from_binding_ident(ident)),
            None => None,
        };
        let id_span = match &declarator.id {
            BindingPattern::Identifier(p) => p.span,
            BindingPattern::Object(p) => p.span,
            BindingPattern::Array(p) => p.span,
            BindingPattern::Assignment(p) => p.span,
        };
        AncestorNode::VariableDeclarator(DeclaratorFacts { span: declarator.span, id_span, binding })
    }

    /// An assignment.
    pub fn assignment(assignment: &AssignmentExpression) -> (r: AncestorNode)
        ensures
            r matches AncestorNode::Assignment(f) && f.span == assignment.span && f.left_span
                == assignment.left.spec_span() && opt_view(f.identifier_name) == (
            match assignment.left {
                AssignmentTarget::Identifier(ident) => Some(ident.name@),
                _ => None,
            }) && opt_view(f.target_name) == spec_assignment_target_name(assignment.left),
    {
        let identifier_name = match &assignment.left {
            AssignmentTarget::Identifier(ident) => Some(ident.name.clone()),
            _ => None,
        };
        AncestorNode::Assignment(
            AssignmentFacts {
                span: assignment.span,
                left_span: assignment.left.span(),
                identifier_name,
                target_name: assignment_target_name(&assignment.left),
            },
        )
    }

    /// A property of an object.
    pub fn object_property(property: &ObjectProperty) -> (r: AncestorNode)
        ensures
            r matches AncestorNode::ObjectProperty(f) && f.span == property.span && opt_view(
                f.key_name,
            ) == property.key.spec_static_name(),
    {
        let key_name = match property.key.static_name() {
            Some(name) => Some(name.to_string()),
            None => None,
        };
        AncestorNode::ObjectProperty(PropertyFacts { span: property.span, key_name })
    }

    /// Whether the node is a call.
    pub fn is_call_expression(&self) -> (r: bool)
        ensures
            r == (self is Call),
    {
        match self {
            AncestorNode::Call(_) => true,
            _ => false,
        }
    }

    /// Whether the node is an assignment.
    pub fn is_assignment_expression(&self) -> (r: bool)
        ensures
            r == (self is Assignment),
    {
        match self {
            AncestorNode::Assignment(_) => true,
            _ => false,
        }
    }
}

/// Return value of a closure that looks for an ancestor or a scope.
#[derive(Debug)]
pub enum FinderRet<T> {
    /// Stop, with this value.
    Found(T),
    /// Stop, with nothing.
    Stop,
    /// Go on.
    Continue,
}

/// How a search answers when the closure says `ret`.
pub open spec fn answer<O>(r: Option<O>) -> FinderRet<O> {
    match r {
        Some(o) => FinderRet::Found(o),
        None => FinderRet::Stop,
    }
}

/// `r` is what a search through `trail` gives: the closure goes on up to some place, and answers
/// there, or goes on to the end.
pub open spec fn search_result<A, F: Fn(A) -> FinderRet<O>, O>(
    finder: F,
    trail: Seq<A>,
    r: Option<O>,
) -> bool {
    exists|k: int|
        #![trigger went_on_to(finder, trail, k)]
        0 <= k <= trail.len() && went_on_to(finder, trail, k) && (if k == trail.len() {
            r is None
        } else {
            call_ensures(finder, (trail[k],), answer(r))
        })
}

/// The closure says to go on at each of the first `k` places.
pub open spec fn went_on_to<A, F: Fn(A) -> FinderRet<O>, O>(
    finder: F,
    trail: Seq<A>,
    k: int,
) -> bool {
    forall|j: int|
        0 <= j < k ==> #[trigger] call_ensures(finder, (trail[j],), FinderRet::<O>::Continue)
}

/// The nodes round the current one.
#[derive(Debug)]
pub struct TraverseAncestry {
    /// From the outside in. The first entry is [`AncestorType::Nothing`].
    pub stack: Vec<Ancestor>,
}

impl TraverseAncestry {
    /// There is always an entry.
    pub open spec fn wf(self) -> bool {
        self.stack@.len() > 0
    }

    /// The entries from the inside out.
    pub open spec fn trail(&self) -> Seq<&Ancestor> {
        Seq::new(self.stack@.len(), |i: int| &self.stack@[self.stack@.len() - 1 - i])
    }

    /// The nodes round the current one, from the inside out.
    pub open spec fn outward(self) -> Seq<Ancestor> {
        Seq::new(
            (self.stack@.len() - 1) as nat,
            |i: int| self.stack@[self.stack@.len() - 1 - i],
        )
    }

    /// The ancestry of the program.
    pub fn new() -> (r: TraverseAncestry)
        ensures
            r.wf(),
            r.stack@ == seq![
                (Ancestor { ty: AncestorType::Nothing, node: AncestorNode::Other }),
            ],
    {
        let mut stack: Vec<Ancestor> = Vec::new();
        stack.push(Ancestor { ty: AncestorType::Nothing, node: AncestorNode::Other });
        TraverseAncestry { stack }
    }

    /// The node round the current one.
    pub fn parent(&self) -> (r: &Ancestor)
        requires
            self.wf(),
        ensures
            *r == self.stack@.last(),
    {
        &self.stack[self.stack.len() - 1]
    }

    /// The node `level` levels above, where the one round the current node is one level above.
    pub fn ancestor(&self, level: usize) -> (r: Option<&Ancestor>)
        ensures
            r == (if 1 <= level <= self.stack@.len() {
                Some(&self.stack@[self.stack@.len() - level])
            } else {
                None
            }),
            self.wf() && level == 1 ==> r == Some(&self.stack@.last()),
    {
        if level >= 1 && level <= self.stack.len() {
            Some(&self.stack[self.stack.len() - level])
        } else {
            None
        }
    }

    /// The node at `index` among those round the current one, from the inside out.
    pub fn outward_at(&self, index: usize) -> (r: Option<&Ancestor>)
        requires
            self.wf(),
        ensures
            r is Some == (index < self.outward().len()),
            r matches Some(a) ==> *a == self.outward()[index as int] && index < usize::MAX,
    {
        if index < self.stack.len() - 1 {
            Some(&self.stack[self.stack.len() - 1 - index])
        } else {
            None
        }
    }

    /// Walks from the inside out until `finder` answers.
    pub fn find_ancestor<'c, F, O>(&'c self, finder: F) -> (r: Option<O>) where
        F: Fn(&'c Ancestor) -> FinderRet<O>,

        requires
            forall|i: int|
                0 <= i < self.trail().len() ==> call_requires(finder, (#[trigger] self.trail()[i],)),
        ensures
            search_result(finder, self.trail(), r),
    {
        let n = self.stack.len();
        let ghost trail = self.trail();
        let mut i: usize = 0;
        while i < n
            invariant
                i <= n,
                n == self.stack@.len(),
                trail == self.trail(),
                trail.len() == n,
                forall|i: int| 0 <= i < trail.len() ==> call_requires(finder, (#[trigger] trail[i],)),
                went_on_to(finder, trail, i as int),
            decreases n - i,
        {
            let ancestor = &self.stack[n - 1 - i];
            proof {
                assert(trail[i as int] == ancestor);
            }
            match finder(ancestor) {
                FinderRet::Found(value) => {
                    proof {
                        assert(call_ensures(finder, (trail[i as int],), answer(Some(value))));
                    }
                    return Some(value);
                },
                FinderRet::Stop => {
                    proof {
                        assert(call_ensures(finder, (trail[i as int],), answer(None::<O>)));
                    }
                    return None;
                },
                FinderRet::Continue => {},
            }
            i += 1;
        }
        None
    }

    /// How deep the current node is: the program is at depth one.
    pub fn ancestors_depth(&self) -> (r: usize)
        ensures
            r == self.stack@.len(),
    {
        self.stack.len()
    }

    /// Goes into a node.
    pub fn push_stack(&mut self, ancestor: Ancestor)
        ensures
            final(self).stack@ == old(self).stack@.push(ancestor),
            final(self).wf(),
    {
        self.stack.push(ancestor);
    }

    /// Comes out of a node.
    pub fn pop_stack(&mut self)
        requires
            old(self).stack@.len() > 1,
        ensures
            final(self).stack@ == old(self).stack@.drop_last(),
            final(self).wf(),
    {
        self.stack.pop();
    }

    /// Goes on to another part of the same node.
    pub fn retag_stack(&mut self, ty: AncestorType)
        requires
            old(self).stack@.len() > 1,
        ensures
            final(self).stack@ == old(self).stack@.drop_last().push(
                (Ancestor { ty, node: old(self).stack@.last().node }),
            ),
            final(self).wf(),
    {
        let top = self.stack.pop();
        if let Some(Ancestor { ty: _, node }) = top {
            self.stack.push(Ancestor { ty, node });
        }
    }
}

/// A reference that a transform makes.
#[derive(Debug)]
pub struct MadeReference {
    pub name: String,
    /// The symbol that the name is bound to, where it is bound.
    pub symbol_id: Option<SymbolId>,
    /// The scope that the reference is made in.
    pub scope_id: ScopeId,
    pub is_read: bool,
    pub is_write: bool,
}

/// What a [`MadeReference`] holds.
pub ghost struct Made {
    pub name: Seq<char>,
    pub symbol_id: Option<SymbolId>,
    pub scope_id: ScopeId,
    pub is_read: bool,
    pub is_write: bool,
}

impl View for MadeReference {
    type V = Made;

    open spec fn view(&self) -> Made {
        Made {
            name: self.name@,
            symbol_id: self.symbol_id,
            scope_id: self.scope_id,
            is_read: self.is_read,
            is_write: self.is_write,
        }
    }
}

/// The views of references.
pub open spec fn made_views(list: Seq<MadeReference>) -> Seq<Made> {
    list.map_values(|r: MadeReference| r@)
}

/// The scopes and symbols, and the scope of the current node.
#[derive(Debug)]
pub struct TraverseScoping {
    pub scopes: ScopeTree,
    /// The symbols, each with the references to it that stand in the source.
    pub symbols: SymbolTable,
    /// The references that were made since, in order.
    pub made: Vec<MadeReference>,
    pub current_scope_id: ScopeId,
    /// The innermost scope to which a `var` of the current node belongs.
    pub current_hoist_scope_id: ScopeId,
}

impl TraverseScoping {
    /// The scopes can be walked.
    pub open spec fn wf(self) -> bool {
        self.scopes.wf()
    }

    /// The scoping at the program.
    pub fn new(scopes: ScopeTree, symbols: SymbolTable) -> (r: TraverseScoping)
        ensures
            r == (TraverseScoping {
                scopes,
                symbols,
                made: r.made,
                current_scope_id: 0,
                current_hoist_scope_id: 0,
            }),
            r.made@.len() == 0,
    {
        TraverseScoping {
            scopes,
            symbols,
            made: Vec::new(),
            current_scope_id: 0,
            current_hoist_scope_id: 0,
        }
    }

    /// The references that were made.
    pub open spec fn spec_made(self) -> Seq<Made> {
        made_views(self.made@)
    }

    /// Adds a reference to the name in the current scope.
    pub fn create_reference(
        &mut self,
        name: &str,
        symbol_id: Option<SymbolId>,
        is_read: bool,
        is_write: bool,
    )
        ensures
            *final(self) == (TraverseScoping { made: final(self).made, ..*old(self) }),
            final(self).spec_made() == old(self).spec_made().push(
                (Made {
                    name: name@,
                    symbol_id,
                    scope_id: old(self).current_scope_id,
                    is_read,
                    is_write,
                }),
            ),
    {
        let ghost before = self.spec_made();
        let scope_id = self.current_scope_id;
        self.made.push(
            MadeReference { name: name.to_string(), symbol_id, scope_id, is_read, is_write },
        );
        proof {
            assert(self.spec_made() =~= before.push(self.made@.last()@));
        }
    }

    /// Walks through the scopes round the current node, from the inside out, until `finder`
    /// answers.
    pub fn find_scope<F, O>(&self, finder: F) -> (r: Option<O>) where
        F: Fn(ScopeId) -> FinderRet<O>,

        requires
            self.wf(),
            forall|i: int|
                0 <= i < self.scopes.chain(self.current_scope_id).len() ==> call_requires(
                    finder,
                    (#[trigger] self.scopes.chain(self.current_scope_id)[i],),
                ),
        ensures
            search_result(finder, self.scopes.chain(self.current_scope_id), r),
    {
        let ghost whole = self.scopes.chain(self.current_scope_id);
        let mut scope_id = self.current_scope_id;
        let ghost mut k: int = 0;
        proof {
            assert(whole.skip(0) =~= whole);
        }
        loop
            invariant
                self.wf(),
                whole == self.scopes.chain(self.current_scope_id),
                0 <= k < whole.len(),
                self.scopes.chain(scope_id) == whole.skip(k),
                forall|i: int| 0 <= i < whole.len() ==> call_requires(finder, (#[trigger] whole[i],)),
                went_on_to(finder, whole, k),
            decreases scope_id,
        {
            proof {
                assert(self.scopes.chain(scope_id)[0] == scope_id);
                assert(whole.skip(k)[0] == whole[k]);
            }
            match finder(scope_id) {
                FinderRet::Found(value) => {
                    proof {
                        assert(call_ensures(finder, (whole[k],), answer(Some(value))));
                    }
                    return Some(value);
                },
                FinderRet::Stop => {
                    proof {
                        assert(call_ensures(finder, (whole[k],), answer(None::<O>)));
                    }
                    return None;
                },
                FinderRet::Continue => {},
            }
            match self.scopes.get_parent_id(scope_id) {
                Some(parent) => {
                    proof {
                        let rest = self.scopes.chain(parent);
                        assert(whole.skip(k) == seq![scope_id] + rest);
                        assert(rest.len() > 0);
                        assert(whole.skip(k).len() > 1);
                        assert(whole.skip(k + 1) =~= whole.skip(k).skip(1));
                        assert(whole.skip(k + 1) =~= rest);
                        k = k + 1;
                    }
                    scope_id = parent;
                },
                None => {
                    proof {
                        assert(whole.skip(k).len() == 1);
                        assert(went_on_to(finder, whole, k + 1));
                    }
                    return None;
                },
            }
        }
    }
}

/// The flags of the scopes in a list.
pub open spec fn flags_of(scopes: ScopeTree, list: Seq<ScopeId>) -> Seq<ScopeFlags> {
    list.map_values(|s: ScopeId| scopes.spec_flags(s))
}

impl TraverseScoping {
    /// Walks through the flags of the scopes round the current node, from the inside out, until
    /// `finder` answers.
    pub fn find_scope_by_flags<F, O>(&self, finder: F) -> (r: Option<O>) where
        F: Fn(ScopeFlags) -> FinderRet<O>,

        requires
            self.wf(),
            forall|flags: ScopeFlags| #[trigger] call_requires(finder, (flags,)),
        ensures
            search_result(
                finder,
                flags_of(self.scopes, self.scopes.chain(self.current_scope_id)),
                r,
            ),
    {
        let ghost whole = self.scopes.chain(self.current_scope_id);
        let ghost trail = flags_of(self.scopes, whole);
        let mut scope_id = self.current_scope_id;
        let ghost mut k: int = 0;
        proof {
            assert(whole.skip(0) =~= whole);
        }
        loop
            invariant
                self.wf(),
                whole == self.scopes.chain(self.current_scope_id),
                trail == flags_of(self.scopes, whole),
                0 <= k < whole.len(),
                self.scopes.chain(scope_id) == whole.skip(k),
                forall|flags: ScopeFlags| #[trigger] call_requires(finder, (flags,)),
                went_on_to(finder, trail, k),
            decreases scope_id,
        {
            proof {
                assert(self.scopes.chain(scope_id)[0] == scope_id);
                assert(whole.skip(k)[0] == whole[k]);
                assert(trail[k] == self.scopes.spec_flags(scope_id));
            }
            match finder(self.scopes.get_flags(scope_id)) {
                FinderRet::Found(value) => {
                    proof {
                        assert(call_ensures(finder, (trail[k],), answer(Some(value))));
                    }
                    return Some(value);
                },
                FinderRet::Stop => {
                    proof {
                        assert(call_ensures(finder, (trail[k],), answer(None::<O>)));
                    }
                    return None;
                },
                FinderRet::Continue => {},
            }
            match self.scopes.get_parent_id(scope_id) {
                Some(parent) => {
                    proof {
                        let rest = self.scopes.chain(parent);
                        assert(whole.skip(k) == seq![scope_id] + rest);
                        assert(rest.len() > 0);
                        assert(whole.skip(k).len() > 1);
                        assert(whole.skip(k + 1) =~= whole.skip(k).skip(1));
                        assert(whole.skip(k + 1) =~= rest);
                        k = k + 1;
                    }
                    scope_id = parent;
                },
                None => {
                    proof {
                        assert(whole.skip(k).len() == 1);
                        assert(went_on_to(finder, trail, k + 1));
                    }
                    return None;
                },
            }
        }
    }
}

/// Makes nodes.
#[derive(Debug, Clone, Copy)]
pub struct AstBuilder;

impl AstBuilder {
    /// A node of its own.
    pub fn alloc_node<T>(&self, node: T) -> (r: Box<T>)
        ensures
            *r == node,
    {
        Box::new(node)
    }
}

/// Traverse context.
///
/// Every function is there directly and on the part that it is about: the ancestry and the
/// scoping can be borrowed at the same time.
#[derive(Debug)]
pub struct TraverseCtx {
    pub ancestry: TraverseAncestry,
    pub scoping: TraverseScoping,
    pub ast: AstBuilder,
}

impl TraverseCtx {
    /// The parts are well-formed.
    pub open spec fn wf(self) -> bool {
        &&& self.ancestry.wf()
        &&& self.scoping.wf()
    }

    /// Create new traversal context.
    pub fn new(scopes: ScopeTree, symbols: SymbolTable) -> (r: TraverseCtx)
        ensures
            r.ancestry.stack@ == seq![
                (Ancestor { ty: AncestorType::Nothing, node: AncestorNode::Other }),
            ],
            r.scoping == (TraverseScoping {
                scopes,
                symbols,
                made: r.scoping.made,
                current_scope_id: 0,
                current_hoist_scope_id: 0,
            }),
            r.scoping.made@.len() == 0,
            scopes.wf() ==> r.wf(),
    {
        TraverseCtx {
            ancestry: TraverseAncestry::new(),
            scoping: TraverseScoping::new(scopes, symbols),
            ast: AstBuilder,
        }
    }

    /// A node of its own.
    pub fn alloc_node<T>(&self, node: T) -> (r: Box<T>)
        ensures
            *r == node,
    {
        self.ast.alloc_node(node)
    }

    /// The node round the current one.
    pub fn parent(&self) -> (r: &Ancestor)
        requires
            self.wf(),
        ensures
            *r == self.ancestry.stack@.last(),
    {
        self.ancestry.parent()
    }

    /// The node `level` levels above. `ancestor(1).unwrap()` is `parent()`.
    pub fn ancestor(&self, level: usize) -> (r: Option<&Ancestor>)
        ensures
            r == (if 1 <= level <= self.ancestry.stack@.len() {
                Some(&self.ancestry.stack@[self.ancestry.stack@.len() - level])
            } else {
                None
            }),
            self.wf() && level == 1 ==> r == Some(&self.ancestry.stack@.last()),
    {
        self.ancestry.ancestor(level)
    }

    /// Walks up the trail of ancestors until `finder` answers.
    pub fn find_ancestor<'c, F, O>(&'c self, finder: F) -> (r: Option<O>) where
        F: Fn(&'c Ancestor) -> FinderRet<O>,

        requires
            forall|i: int|
                0 <= i < self.ancestry.trail().len() ==> call_requires(
                    finder,
                    (#[trigger] self.ancestry.trail()[i],),
                ),
        ensures
            search_result(finder, self.ancestry.trail(), r),
    {
        self.ancestry.find_ancestor(finder)
    }

    /// The depth in the tree. The count takes in the current node: the program is at depth one.
    pub fn ancestors_depth(&self) -> (r: usize)
        ensures
            r == self.ancestry.stack@.len(),
    {
        self.ancestry.ancestors_depth()
    }

    /// The scope of the current node.
    pub fn current_scope_id(&self) -> (r: ScopeId)
        ensures
            r == self.scoping.current_scope_id,
    {
        self.scoping.current_scope_id
    }

    /// The scopes.
    pub fn scopes(&self) -> (r: &ScopeTree)
        ensures
            *r == self.scoping.scopes,
    {
        &self.scoping.scopes
    }

    /// The scopes, to change them.
    pub fn scopes_mut(&mut self) -> (r: &mut ScopeTree)
        ensures
            *r == old(self).scoping.scopes,
            *final(self) == (TraverseCtx {
                scoping: TraverseScoping { scopes: *final(r), ..old(self).scoping },
                ..*old(self)
            }),
    {
        &mut self.scoping.scopes
    }

    /// The symbols.
    pub fn symbols(&self) -> (r: &SymbolTable)
        ensures
            *r == self.scoping.symbols,
    {
        &self.scoping.symbols
    }

    /// The symbols, to change them.
    pub fn symbols_mut(&mut self) -> (r: &mut SymbolTable)
        ensures
            *r == old(self).scoping.symbols,
            *final(self) == (TraverseCtx {
                scoping: TraverseScoping { symbols: *final(r), ..old(self).scoping },
                ..*old(self)
            }),
    {
        &mut self.scoping.symbols
    }

    /// Walks up the trail of scopes until `finder` answers.
    pub fn find_scope<F, O>(&self, finder: F) -> (r: Option<O>) where
        F: Fn(ScopeId) -> FinderRet<O>,

        requires
            self.wf(),
            forall|i: int|
                0 <= i < self.scoping.scopes.chain(self.scoping.current_scope_id).len()
                    ==> call_requires(
                    finder,
                    (#[trigger] self.scoping.scopes.chain(self.scoping.current_scope_id)[i],),
                ),
        ensures
            search_result(
                finder,
                self.scoping.scopes.chain(self.scoping.current_scope_id),
                r,
            ),
    {
        self.scoping.find_scope(finder)
    }

    /// Walks up the flags on the trail of scopes until `finder` answers.
    pub fn find_scope_by_flags<F, O>(&self, finder: F) -> (r: Option<O>) where
        F: Fn(ScopeFlags) -> FinderRet<O>,

        requires
            self.wf(),
            forall|flags: ScopeFlags| #[trigger] call_requires(finder, (flags,)),
        ensures
            search_result(
                finder,
                flags_of(
                    self.scoping.scopes,
                    self.scoping.scopes.chain(self.scoping.current_scope_id),
                ),
                r,
            ),
    {
        self.scoping.find_scope_by_flags(finder)
    }

    /// Goes into a node.
    pub fn push_stack(&mut self, ancestor: Ancestor)
        ensures
            final(self).ancestry.stack@ == old(self).ancestry.stack@.push(ancestor),
            final(self).scoping == old(self).scoping,
    {
        self.ancestry.push_stack(ancestor);
    }

    /// Comes out of a node.
    pub fn pop_stack(&mut self)
        requires
            old(self).ancestry.stack@.len() > 1,
        ensures
            final(self).ancestry.stack@ == old(self).ancestry.stack@.drop_last(),
            final(self).scoping == old(self).scoping,
    {
        self.ancestry.pop_stack();
    }

    /// Goes on to another part of the same node.
    pub fn retag_stack(&mut self, ty: AncestorType)
        requires
            old(self).ancestry.stack@.len() > 1,
        ensures
            final(self).ancestry.stack@ == old(self).ancestry.stack@.drop_last().push(
                (Ancestor { ty, node: old(self).ancestry.stack@.last().node }),
            ),
            final(self).scoping == old(self).scoping,
    {
        self.ancestry.retag_stack(ty);
    }

    /// Goes into another scope.
    pub fn set_current_scope_id(&mut self, scope_id: ScopeId)
        ensures
            *final(self) == (TraverseCtx {
                scoping: TraverseScoping { current_scope_id: scope_id, ..old(self).scoping },
                ..*old(self)
            }),
    {
        self.scoping.current_scope_id = scope_id;
    }
}

/// Going into a node and coming out of it restores the ancestry, whatever parts of the node were
/// passed in between; while inside, the node is the parent, and one deeper.
pub proof fn law_push_pop(stack: Seq<Ancestor>, ancestor: Ancestor, ty: AncestorType)
    ensures
        stack.push(ancestor).drop_last() == stack,
        stack.push(ancestor).drop_last().push((Ancestor { ty, node: ancestor.node })).drop_last()
            == stack,
        stack.push(ancestor).last() == ancestor,
        stack.push(ancestor).len() == stack.len() + 1,
{
    assert(stack.push(ancestor).drop_last() =~= stack);
    assert(stack.push((Ancestor { ty, node: ancestor.node })).drop_last() =~= stack);
}

/// A search that nothing stops looks at every place, and finds nothing only if nothing is found
/// at any.
pub proof fn law_search_is_exhaustive<A, F: Fn(A) -> FinderRet<O>, O>(
    finder: F,
    trail: Seq<A>,
    r: Option<O>,
)
    requires
        search_result(finder, trail, r),
        forall|a: A| !#[trigger] call_ensures(finder, (a,), FinderRet::<O>::Stop),
    ensures
        r is None ==> forall|i: int|
            0 <= i < trail.len() ==> #[trigger] call_ensures(
                finder,
                (trail[i],),
                FinderRet::<O>::Continue,
            ),
{
    let k = choose|k: int|
        #![trigger went_on_to(finder, trail, k)]
        0 <= k <= trail.len() && went_on_to(finder, trail, k) && (if k == trail.len() {
            r is None
        } else {
            call_ensures(finder, (trail[k],), answer(r))
        });
    if r is None && k < trail.len() {
        assert(!call_ensures(finder, (trail[k],), FinderRet::<O>::Stop));
    }
}

/// The nodes round the current one are those that were gone into and not left, the last one first;
/// the entry for what is round the program is not among them.
pub proof fn law_the_last_node_is_the_innermost(ancestry: TraverseAncestry, i: int)
    requires
        ancestry.wf(),
    ensures
        ancestry.outward().len() == ancestry.stack@.len() - 1,
        ancestry.stack@.len() > 1 ==> ancestry.outward()[0] == ancestry.stack@.last(),
        0 <= i < ancestry.outward().len() - 1 ==> ancestry.outward()[i]
            == ancestry.stack@[ancestry.stack@.len() - 1 - i] && ancestry.outward()[i + 1]
            == ancestry.stack@[ancestry.stack@.len() - 2 - i],
        ancestry.trail().len() == ancestry.stack@.len(),
        0 <= i < ancestry.trail().len() ==> *ancestry.trail()[i]
            == ancestry.stack@[ancestry.stack@.len() - 1 - i],
{
}

/// A function on the right of an assignment is known by the variable, or by the member, that it is
/// assigned to.
pub proof fn law_names_of_targets(target: AssignmentTarget)
    ensures
        match target {
            AssignmentTarget::Identifier(ident) => spec_assignment_target_name(target) == Some(
                ident.name@,
            ),
            AssignmentTarget::StaticMember(m) => spec_assignment_target_name(target) == Some(
                m.property@,
            ),
            AssignmentTarget::ComputedMember(m) => match m.static_property_name {
                Some(name) => spec_assignment_target_name(target) == Some(name@),
                None => spec_assignment_target_name(target) is None,
            },
            _ => spec_assignment_target_name(target) is None,
        },
{
}

/// Of parameters, those that are one identifier each are kept, in order.
pub proof fn law_parameters_that_are_names(
    first: Seq<BindingPattern>,
    rest: Seq<BindingPattern>,
    id: BindingIdentifier,
    other: BindingPattern,
)
    ensures
        identifier_params(first + rest) == identifier_params(first) + identifier_params(rest),
        identifier_params(seq![BindingPattern::Identifier(id)]) == seq![
            (Bound { name: id.name@, symbol_id: id.symbol_id }),
        ],
        other is Object || other is Array ==> identifier_params(seq![other]).len() == 0,
    decreases rest.len(),
{
    let one = seq![BindingPattern::Identifier(id)];
    assert(one.drop_last() =~= Seq::empty());
    assert(seq![other].drop_last() =~= Seq::empty());
    assert(identifier_params(Seq::empty()) =~= Seq::<Bound>::empty());
    assert(identifier_params(one) =~= seq![(Bound { name: id.name@, symbol_id: id.symbol_id })]);
    if rest.len() == 0 {
        assert(first + rest =~= first);
        assert(identifier_params(first) + identifier_params(rest) =~= identifier_params(first));
    } else {
        law_parameters_that_are_names(first, rest.drop_last(), id, other);
        assert((first + rest).drop_last() =~= first + rest.drop_last());
        assert((first + rest).last() == rest.last());
        let a = identifier_params(first);
        let b = identifier_params(rest.drop_last());
        if let Some(ident) = rest.last().spec_binding_identifier() {
            assert((a + b).push(spec_bound(ident)) =~= a + b.push(spec_bound(ident)));
        }
    }
}

} // verus!
