//! A rule on the order in which the members of classes, interfaces and type literals come.

use self::checks::{member_reports, validate_members_order};
use self::config::{
    MemberOrderingOptions, Normalized, Order, OrderConfig, default_groups, is_default_order,
    normalized,
};
use self::members::{
    Member, class_member, class_members, signature_member, signature_members,
};
use crate::ast::{Class, ClassElement, ClassType, Signature};
use crate::lint::{AstKind, Diagnostic, LintContext, Report, reports};
use crate::semantic::NodeId;
use vstd::prelude::*;

pub mod checks;
pub mod collation;
pub mod config;
pub mod laws;
pub mod members;
pub mod names;
pub mod outcomes;

verus! {

/// The rule, with its options.
#[derive(Debug, Clone)]
pub struct MemberOrdering(pub Box<MemberOrderingOptions>);

impl Default for MemberOrdering {
    fn default() -> (r: MemberOrdering)
        ensures
            r.0.classes is None,
            r.0.class_expressions is None,
            r.0.interfaces is None,
            r.0.type_literals is None,
            is_default_order(r.0.default),
            normalized(r.0.default) == Some(
                Normalized {
                    member_types: Some(default_groups()),
                    optionality_order: None,
                    order: Order::AsWritten,
                },
            ),
    {
        MemberOrdering(Box::new(MemberOrderingOptions::default()))
    }
}

/// An order of its own, or the one for all constructs.
pub open spec fn own_or(own: Option<OrderConfig>, default: OrderConfig) -> OrderConfig {
    match own {
        Some(config) => config,
        None => default,
    }
}

/// An order of its own, or the one for all constructs.
fn choose_config<'a>(own: &'a Option<OrderConfig>, default: &'a OrderConfig) -> (r: &'a OrderConfig)
    ensures
        *r == own_or(*own, *default),
{
    match own {
        Some(config) => config,
        None => default,
    }
}

/// The members of a class.
pub open spec fn members_of_class(class: Class) -> Seq<Member> {
    class.body@.map_values(|e: ClassElement| class_member(e))
}

/// The members of an interface or a type literal.
pub open spec fn members_of_signatures(signatures: Seq<Signature>) -> Seq<Member> {
    signatures.map_values(|s: Signature| signature_member(s))
}

impl MemberOrdering {
    /// The reports on a node.
    pub open spec fn spec_run(self, kind: AstKind) -> Seq<Report> {
        let options = *self.0;
        match kind {
            AstKind::Class(class) => member_reports(
                members_of_class(*class),
                own_or(
                    match class.class_type {
                        ClassType::ClassDeclaration => options.classes,
                        ClassType::ClassExpression => options.class_expressions,
                    },
                    options.default,
                ),
            ),
            AstKind::InterfaceDeclaration(signatures) => member_reports(
                members_of_signatures(signatures@),
                own_or(options.interfaces, options.default),
            ),
            AstKind::TypeLiteral(signatures) => member_reports(
                members_of_signatures(signatures@),
                own_or(options.type_literals, options.default),
            ),
            _ => Seq::empty(),
        }
    }

    /// Whether the rule is for a source: it is for TypeScript alone.
    pub fn should_run(&self, is_typescript: bool) -> (r: bool)
        ensures
            r == is_typescript,
    {
        is_typescript
    }

    /// Runs the rule on a node.
    pub fn run(&self, node: NodeId, ctx: &LintContext) -> (r: Vec<Diagnostic>)
        ensures
            reports(r@) == self.spec_run(ctx.spec_kind(node)),
    {
        let options = &*self.0;
        match ctx.kind(node) {
            AstKind::Class(class) => {
                let config = match class.class_type {
                    ClassType::ClassDeclaration => choose_config(
                        &options.classes,
                        &options.default,
                    ),
                    ClassType::ClassExpression => choose_config(
                        &options.class_expressions,
                        &options.default,
                    ),
                };
                let members = class_members(class);
                validate_members_order(members.as_slice(), config)
            },
            AstKind::InterfaceDeclaration(signatures) => {
                let config = choose_config(&options.interfaces, &options.default);
                let members = signature_members(signatures);
                validate_members_order(members.as_slice(), config)
            },
            AstKind::TypeLiteral(signatures) => {
                let config = choose_config(&options.type_literals, &options.default);
                let members = signature_members(signatures);
                validate_members_order(members.as_slice(), config)
            },
            _ => {
                let none: Vec<Diagnostic> = Vec::new();
                proof {
                    assert(reports(none@) =~= Seq::empty());
                }
                none
            },
        }
    }
}

} // verus!
