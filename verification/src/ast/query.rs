//! Questions about single nodes.

use super::{
    Argument, AssignmentTarget, BindingIdentifier, BindingPattern, Expression, PropertyKey, Span,
    WrappedExpression, Wrapper,
};
use vstd::prelude::*;

verus! {

impl Expression {
    /// Where the expression stands in the source.
    pub open spec fn spec_span(self) -> Span
        decreases self,
    {
        match self {
            Expression::Identifier(e) => e.span,
            Expression::This(span) => span,
            Expression::StringLiteral(e) => e.span,
            Expression::NumericLiteral(e) => e.span,
            Expression::BooleanLiteral(e) => e.span,
            Expression::TemplateLiteral(e) => e.span,
            Expression::MetaProperty(e) => e.span,
            Expression::StaticMember(e) => e.span,
            Expression::ComputedMember(e) => e.span,
            Expression::PrivateField(e) => e.span,
            Expression::Call(e) => e.span,
            Expression::Function(e) => e.span,
            Expression::Arrow(e) => e.span,
            Expression::Class(e) => e.span,
            Expression::Assignment(e) => e.span,
            Expression::Logical(e) => e.span,
            Expression::Conditional(e) => e.span,
            Expression::Await(e) => e.span,
            Expression::Yield(e) => e.span,
            Expression::Object(e) => e.span,
            Expression::Array(e) => e.span,
            Expression::Wrapped(e) => e.span,
            Expression::Jsx(e) => e.span,
            Expression::Shared(e) => e.spec_span(),
            Expression::Other(e) => e.span,
        }
    }

    /// Where the expression stands in the source.
    pub fn span(&self) -> (r: Span)
        ensures
            r == self.spec_span(),
        decreases self,
    {
        match self {
            Expression::Identifier(e) => e.span,
            Expression::This(span) => *span,
            Expression::StringLiteral(e) => e.span,
            Expression::NumericLiteral(e) => e.span,
            Expression::BooleanLiteral(e) => e.span,
            Expression::TemplateLiteral(e) => e.span,
            Expression::MetaProperty(e) => e.span,
            Expression::StaticMember(e) => e.span,
            Expression::ComputedMember(e) => e.span,
            Expression::PrivateField(e) => e.span,
            Expression::Call(e) => e.span,
            Expression::Function(e) => e.span,
            Expression::Arrow(e) => e.span,
            Expression::Class(e) => e.span,
            Expression::Assignment(e) => e.span,
            Expression::Logical(e) => e.span,
            Expression::Conditional(e) => e.span,
            Expression::Await(e) => e.span,
            Expression::Yield(e) => e.span,
            Expression::Object(e) => e.span,
            Expression::Array(e) => e.span,
            Expression::Wrapped(e) => e.span,
            Expression::Jsx(e) => e.span,
            Expression::Shared(e) => e.span(),
            Expression::Other(e) => e.span,
        }
    }

    /// The expression inside any parentheses.
    pub open spec fn spec_without_parentheses(self) -> Expression
        decreases self,
    {
        match self {
            Expression::Wrapped(w) if w.wrapper == Wrapper::Parenthesized =>
                w.expression.spec_without_parentheses(),
            _ => self,
        }
    }

    /// The expression inside any parentheses.
    pub fn without_parentheses(&self) -> (r: &Expression)
        ensures
            *r == self.spec_without_parentheses(),
        decreases self,
    {
        match self {
            Expression::Wrapped(w) if w.wrapper == Wrapper::Parenthesized =>
                w.expression.without_parentheses(),
            _ => self,
        }
    }

    /// The expression inside any parentheses and type annotations.
    pub open spec fn spec_inner_expression(self) -> Expression
        decreases self,
    {
        match self {
            Expression::Wrapped(w) => w.expression.spec_inner_expression(),
            _ => self,
        }
    }

    /// The expression inside any parentheses and type annotations.
    pub fn get_inner_expression(&self) -> (r: &Expression)
        ensures
            *r == self.spec_inner_expression(),
        decreases self,
    {
        match self {
            Expression::Wrapped(w) => w.expression.get_inner_expression(),
            _ => self,
        }
    }

    /// Whether the expression is `this`, in parentheses or not.
    pub open spec fn is_this(self) -> bool {
        self.spec_without_parentheses() is This
    }

    /// Whether the expression is `this`, in parentheses or not.
    pub fn denotes_this(&self) -> (r: bool)
        ensures
            r == self.is_this(),
    {
        match self.without_parentheses() {
            Expression::This(_) => true,
            _ => false,
        }
    }
}

impl Argument {
    /// Where the argument stands in the source.
    pub open spec fn spec_span(self) -> Span {
        match self {
            Argument::Spread(e) => e.span,
            Argument::Expression(e) => e.spec_span(),
        }
    }

    /// Where the argument stands in the source.
    pub fn span(&self) -> (r: Span)
        ensures
            r == self.spec_span(),
    {
        match self {
            Argument::Spread(e) => e.span,
            Argument::Expression(e) => e.span(),
        }
    }
}

impl AssignmentTarget {
    /// Where the target stands in the source.
    pub open spec fn spec_span(self) -> Span {
        match self {
            AssignmentTarget::Identifier(t) => t.span,
            AssignmentTarget::StaticMember(t) => t.span,
            AssignmentTarget::ComputedMember(t) => t.span,
            AssignmentTarget::PrivateField(t) => t.span,
            AssignmentTarget::Wrapped(t) => t.span,
            AssignmentTarget::Array(t) => t.span,
            AssignmentTarget::Object(t) => t.span,
        }
    }

    /// Where the target stands in the source.
    pub fn span(&self) -> (r: Span)
        ensures
            r == self.spec_span(),
    {
        match self {
            AssignmentTarget::Identifier(t) => t.span,
            AssignmentTarget::StaticMember(t) => t.span,
            AssignmentTarget::ComputedMember(t) => t.span,
            AssignmentTarget::PrivateField(t) => t.span,
            AssignmentTarget::Wrapped(t) => t.span,
            AssignmentTarget::Array(t) => t.span,
            AssignmentTarget::Object(t) => t.span,
        }
    }
}

impl BindingPattern {
    /// The one identifier that the pattern binds, where it is one identifier, with a default or
    /// without.
    pub open spec fn spec_binding_identifier(self) -> Option<BindingIdentifier>
        decreases self,
    {
        match self {
            BindingPattern::Identifier(id) => Some(id),
            BindingPattern::Assignment(p) => p.left.spec_binding_identifier(),
            _ => None,
        }
    }

    /// The one identifier that the pattern binds, where it is one identifier, with a default or
    /// without.
    pub fn get_binding_identifier(&self) -> (r: Option<&BindingIdentifier>)
        ensures
            r is Some == self.spec_binding_identifier() is Some,
            r matches Some(id) ==> self.spec_binding_identifier() == Some(*id),
        decreases self,
    {
        match self {
            BindingPattern::Identifier(id) => Some(id),
            BindingPattern::Assignment(p) => p.left.get_binding_identifier(),
            _ => None,
        }
    }
}

impl PropertyKey {
    /// The name of the property, where the text tells it, and it is not private.
    pub open spec fn spec_static_name(self) -> Option<Seq<char>> {
        match self {
            PropertyKey::StaticIdentifier(name) => Some(name@),
            PropertyKey::PrivateIdentifier(_) => None,
            PropertyKey::Expression(key) => crate::text::opt_view(key.static_name),
        }
    }

    /// The name of the property, where the text tells it.
    pub open spec fn spec_name(self) -> Option<Seq<char>> {
        match self {
            PropertyKey::PrivateIdentifier(name) => Some(name@),
            _ => self.spec_static_name(),
        }
    }

    /// The name of the property, where the text tells it, and it is not private.
    pub fn static_name(&self) -> (r: Option<&str>)
        ensures
            self.spec_static_name() == (match r {
                Some(s) => Some(s@),
                None => None,
            }),
    {
        match self {
            PropertyKey::StaticIdentifier(name) => Some(name.as_str()),
            PropertyKey::PrivateIdentifier(_) => None,
            PropertyKey::Expression(key) => match &key.static_name {
                Some(name) => Some(name.as_str()),
                None => None,
            },
        }
    }

    /// The name of the property, where the text tells it.
    pub fn name(&self) -> (r: Option<&str>)
        ensures
            self.spec_name() == (match r {
                Some(s) => Some(s@),
                None => None,
            }),
    {
        match self {
            PropertyKey::PrivateIdentifier(name) => Some(name.as_str()),
            _ => self.static_name(),
        }
    }

    /// Whether the key is a private name.
    pub fn is_private_identifier(&self) -> (r: bool)
        ensures
            r == (self is PrivateIdentifier),
    {
        match self {
            PropertyKey::PrivateIdentifier(_) => true,
            _ => false,
        }
    }
}

/// Parentheses change nothing of what stands inside them, and neither do annotations where these
/// are left out too. What is left has none.
pub proof fn law_parentheses_change_nothing(w: WrappedExpression, expr: Expression)
    ensures
        w.wrapper == Wrapper::Parenthesized ==> Expression::Wrapped(
            Box::new(w),
        ).spec_without_parentheses() == w.expression.spec_without_parentheses(),
        w.wrapper == Wrapper::Parenthesized ==> Expression::Wrapped(Box::new(w)).is_this()
            == w.expression.is_this(),
        w.wrapper != Wrapper::Parenthesized ==> !Expression::Wrapped(Box::new(w)).is_this(),
        Expression::Wrapped(Box::new(w)).spec_inner_expression()
            == w.expression.spec_inner_expression(),
        !(expr is Wrapped) ==> expr.spec_without_parentheses() == expr
            && expr.spec_inner_expression() == expr && expr.is_this() == (expr is This),
        !(expr.spec_inner_expression() is Wrapped),
{
    lemma_inner(expr);
}

proof fn lemma_inner(expr: Expression)
    ensures
        !(expr.spec_inner_expression() is Wrapped),
    decreases expr,
{
    if let Expression::Wrapped(w) = expr {
        lemma_inner(w.expression);
    }
}

/// A pattern binds one identifier exactly if it is one, or one with a default.
pub proof fn law_patterns_that_bind_one_name(pattern: BindingPattern)
    ensures
        match pattern {
            BindingPattern::Identifier(id) => pattern.spec_binding_identifier() == Some(id),
            BindingPattern::Assignment(p) => pattern.spec_binding_identifier()
                == p.left.spec_binding_identifier(),
            BindingPattern::Object(_) => pattern.spec_binding_identifier() is None,
            BindingPattern::Array(_) => pattern.spec_binding_identifier() is None,
        },
{
}

/// A key has the name that is written, or that its expression is known to give; a private name is
/// one, but no static one.
pub proof fn law_names_of_keys(key: PropertyKey)
    ensures
        match key {
            PropertyKey::StaticIdentifier(name) => key.spec_static_name() == Some(name@)
                && key.spec_name() == Some(name@),
            PropertyKey::PrivateIdentifier(name) => key.spec_static_name() is None
                && key.spec_name() == Some(name@),
            PropertyKey::Expression(k) => key.spec_name() == key.spec_static_name() && (
            match k.static_name {
                Some(name) => key.spec_static_name() == Some(name@),
                None => key.spec_static_name() is None,
            }),
        },
{
}

} // verus!
