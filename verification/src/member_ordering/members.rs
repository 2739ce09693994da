//! What the rule looks at of each member.

use super::names::{can_be_decorated, dash, dashed, kind_can_be_decorated, push_name};
use crate::ast::{
    Accessibility, AccessorProperty, Class, ClassElement, Expression, IndexSignature,
    MethodDefinition, MethodDefinitionKind, MethodSignatureKind, PropertyDefinition, PropertyKey,
    Signature, Span,
};
use crate::text::{opt_view, str_eq, views};
use vstd::prelude::*;

verus! {

/// A member of a class, an interface or a type literal.
#[derive(Debug)]
pub struct MemberInfo<'a> {
    pub span: Span,
    pub name: Option<&'a str>,
    pub optional: bool,
    /// The types that the member is of, the narrowest first.
    pub candidates: Vec<String>,
    /// Whether the order of types leaves the member out.
    pub ignored_for_rank: bool,
}

/// What a [`MemberInfo`] holds.
#[verifier::ext_equal]
pub ghost struct Member {
    pub span: Span,
    pub name: Option<Seq<char>>,
    pub optional: bool,
    pub candidates: Seq<Seq<char>>,
    pub ignored_for_rank: bool,
}

/// The text of an optional name.
pub open spec fn name_view(name: Option<&str>) -> Option<Seq<char>> {
    match name {
        Some(s) => Some(s@),
        None => None,
    }
}

impl<'a> View for MemberInfo<'a> {
    type V = Member;

    open spec fn view(&self) -> Member {
        Member {
            span: self.span,
            name: name_view(self.name),
            optional: self.optional,
            candidates: views(self.candidates@),
            ignored_for_rank: self.ignored_for_rank,
        }
    }
}

/// What members hold.
pub open spec fn member_views(list: Seq<MemberInfo>) -> Seq<Member> {
    list.map_values(|m: MemberInfo| m@)
}

/// How far a member can be seen, in a word.
pub open spec fn accessibility_word(
    accessibility: Option<Accessibility>,
    private_identifier: bool,
) -> Seq<char> {
    if private_identifier {
        "#private"@
    } else {
        match accessibility {
            Some(Accessibility::Private) => "private"@,
            Some(Accessibility::Protected) => "protected"@,
            _ => "public"@,
        }
    }
}

/// How far a member can be seen, in a word.
pub fn accessibility_name(accessibility: Option<Accessibility>, private_identifier: bool) -> (r:
    &'static str)
    ensures
        r@ == accessibility_word(accessibility, private_identifier),
{
    if private_identifier {
        return "#private";
    }
    match accessibility {
        Some(Accessibility::Private) => "private",
        Some(Accessibility::Protected) => "protected",
        _ => "public",
    }
}

/// What a member belongs to, in a word.
pub open spec fn scope_word(is_static: bool, is_abstract: bool) -> Seq<char> {
    if is_static {
        "static"@
    } else if is_abstract {
        "abstract"@
    } else {
        "instance"@
    }
}

/// A qualifier with a kind, and with the plain kind after it where the kind is that of readonly
/// fields.
pub open spec fn with_field(qualifier: Seq<char>, kind: Seq<char>) -> Seq<Seq<char>> {
    if kind == "readonly-field"@ {
        seq![dashed(qualifier, kind), dashed(qualifier, "field"@)]
    } else {
        seq![dashed(qualifier, kind)]
    }
}

/// Two qualifiers with a kind.
pub open spec fn with_fields(first: Seq<char>, second: Seq<char>, kind: Seq<char>) -> Seq<
    Seq<char>,
> {
    if kind == "readonly-field"@ {
        seq![
            dashed(first, kind),
            dashed(second, kind),
            dashed(first, "field"@),
            dashed(second, "field"@),
        ]
    } else {
        seq![dashed(first, kind), dashed(second, kind)]
    }
}

/// The kinds that stand alone.
pub open spec fn stands_alone(kind: Seq<char>) -> bool {
    kind == "readonly-signature"@ || kind == "signature"@ || kind == "static-initialization"@
}

/// The types of a member that come from its decorators.
pub open spec fn decorated_types(kind: Seq<char>, access: Seq<char>, decorated: bool) -> Seq<
    Seq<char>,
> {
    if decorated && can_be_decorated(kind) {
        with_fields(dashed(access, "decorated"@), "decorated"@, kind)
    } else {
        Seq::empty()
    }
}

/// The types of a member that say what it belongs to.
pub open spec fn scoped_types(kind: Seq<char>, access: Seq<char>, scope: Seq<char>) -> Seq<
    Seq<char>,
> {
    if !stands_alone(kind) && kind != "constructor"@ {
        with_fields(dashed(access, scope), scope, kind)
    } else {
        Seq::empty()
    }
}

/// The types of a member that only say how far it can be seen.
pub open spec fn accessible_types(kind: Seq<char>, access: Seq<char>) -> Seq<Seq<char>> {
    if stands_alone(kind) {
        Seq::empty()
    } else {
        with_field(access, kind)
    }
}

/// The types of a member that only say its kind.
pub open spec fn plain_types(kind: Seq<char>) -> Seq<Seq<char>> {
    if kind == "readonly-signature"@ {
        seq![kind, "signature"@]
    } else if kind == "readonly-field"@ {
        seq![kind, "field"@]
    } else {
        seq![kind]
    }
}

/// The types that a member is of, the narrowest first.
pub open spec fn types_of(
    kind: Seq<char>,
    accessibility: Option<Accessibility>,
    private_identifier: bool,
    is_static: bool,
    is_abstract: bool,
    decorated: bool,
) -> Seq<Seq<char>> {
    let access = accessibility_word(accessibility, private_identifier);
    decorated_types(kind, access, decorated) + scoped_types(
        kind,
        access,
        scope_word(is_static, is_abstract),
    ) + accessible_types(kind, access) + plain_types(kind)
}

/// Adds two qualifiers with a kind.
fn push_with_fields(list: &mut Vec<String>, first: &str, second: &str, kind: &str)
    ensures
        views(final(list)@) == views(old(list)@) + with_fields(first@, second@, kind@),
{
    let ghost start = views(list@);
    push_name(list, dash(first, kind));
    push_name(list, dash(second, kind));
    if str_eq(kind, "readonly-field") {
        push_name(list, dash(first, "field"));
        push_name(list, dash(second, "field"));
    }
    proof {
        assert(views(list@) =~= start + with_fields(first@, second@, kind@));
    }
}

/// The types that a member is of, the narrowest first.
pub fn member_candidates(
    kind: &str,
    accessibility: Option<Accessibility>,
    private_identifier: bool,
    is_static: bool,
    is_abstract: bool,
    decorated: bool,
) -> (r: Vec<String>)
    ensures
        views(r@) == types_of(
            kind@,
            accessibility,
            private_identifier,
            is_static,
            is_abstract,
            decorated,
        ),
{
    let access = accessibility_name(accessibility, private_identifier);
    let scope = if is_static {
        "static"
    } else if is_abstract {
        "abstract"
    } else {
        "instance"
    };
    let mut candidates: Vec<String> = Vec::new();
    let ghost none = views(candidates@);
    proof {
        assert(none =~= Seq::empty());
    }
    if decorated && kind_can_be_decorated(kind) {
        let first = dash(access, "decorated");
        push_with_fields(&mut candidates, first.as_str(), "decorated", kind);
    }
    let ghost first_types = decorated_types(kind@, access@, decorated);
    let ghost second_types = scoped_types(kind@, access@, scope@);
    let ghost third_types = accessible_types(kind@, access@);
    proof {
        assert(views(candidates@) =~= first_types);
    }
    let alone = str_eq(kind, "readonly-signature") || str_eq(kind, "signature") || str_eq(
        kind,
        "static-initialization",
    );
    if !alone {
        if !str_eq(kind, "constructor") {
            let first = dash(access, scope);
            push_with_fields(&mut candidates, first.as_str(), scope, kind);
        }
        proof {
            assert(views(candidates@) =~= first_types + second_types);
        }
        push_name(&mut candidates, dash(access, kind));
        if str_eq(kind, "readonly-field") {
            push_name(&mut candidates, dash(access, "field"));
        }
    }
    proof {
        assert(views(candidates@) =~= first_types + second_types + third_types);
    }
    push_name(&mut candidates, kind.to_string());
    if str_eq(kind, "readonly-signature") {
        push_name(&mut candidates, "signature".to_string());
    } else if str_eq(kind, "readonly-field") {
        push_name(&mut candidates, "field".to_string());
    }
    proof {
        assert(views(candidates@) =~= first_types + second_types + third_types + plain_types(kind@));
    }
    candidates
}

/// The kind of a method.
pub open spec fn method_kind(kind: MethodDefinitionKind) -> Seq<char> {
    match kind {
        MethodDefinitionKind::Constructor => "constructor"@,
        MethodDefinitionKind::Method => "method"@,
        MethodDefinitionKind::Getter => "get"@,
        MethodDefinitionKind::Setter => "set"@,
    }
}

/// A method as a member.
pub open spec fn method_member(method: MethodDefinition) -> Member {
    Member {
        span: method.span,
        name: if method.kind == MethodDefinitionKind::Constructor {
            Some("constructor"@)
        } else {
            method.key.spec_name()
        },
        optional: method.optional,
        candidates: types_of(
            method_kind(method.kind),
            method.accessibility,
            method.key is PrivateIdentifier,
            method.is_static,
            method.is_abstract,
            method.decorators@.len() > 0,
        ),
        ignored_for_rank: method.value.body is None,
    }
}

/// A method as a member.
fn method_info(method: &MethodDefinition) -> (r: MemberInfo<'_>)
    ensures
        r@ == method_member(*method),
{
    let kind = match method.kind {
        MethodDefinitionKind::Constructor => "constructor",
        MethodDefinitionKind::Method => "method",
        MethodDefinitionKind::Getter => "get",
        MethodDefinitionKind::Setter => "set",
    };
    let name = match method.kind {
        MethodDefinitionKind::Constructor => Some("constructor"),
        _ => member_name(&method.key),
    };
    MemberInfo {
        span: method.span,
        name,
        optional: method.optional,
        candidates: member_candidates(
            kind,
            method.accessibility,
            method.key.is_private_identifier(),
            method.is_static,
            method.is_abstract,
            method.decorators.len() > 0,
        ),
        ignored_for_rank: method.value.body.is_none(),
    }
}

/// The name of a member, where the text tells it.
fn member_name(key: &PropertyKey) -> (r: Option<&str>)
    ensures
        name_view(r) == key.spec_name(),
{
    key.name()
}

/// Whether an expression is a function.
pub open spec fn is_function(expression: Expression) -> bool {
    expression is Function || expression is Arrow
}

/// Whether an expression is a function.
fn is_function_expression(expression: &Expression) -> (r: bool)
    ensures
        r == is_function(*expression),
{
    match expression {
        Expression::Function(_) => true,
        Expression::Arrow(_) => true,
        _ => false,
    }
}

/// The kind of a property: a property that holds a function is a method.
pub open spec fn property_kind(property: PropertyDefinition) -> Seq<char> {
    if property.value matches Some(value) && is_function(value) {
        "method"@
    } else if property.readonly {
        "readonly-field"@
    } else {
        "field"@
    }
}

/// A property as a member.
pub open spec fn property_member(property: PropertyDefinition) -> Member {
    Member {
        span: property.span,
        name: property.key.spec_name(),
        optional: property.optional,
        candidates: types_of(
            property_kind(property),
            property.accessibility,
            property.key is PrivateIdentifier,
            property.is_static,
            property.is_abstract,
            property.decorators@.len() > 0,
        ),
        ignored_for_rank: false,
    }
}

/// A property as a member.
fn property_info(property: &PropertyDefinition) -> (r: MemberInfo<'_>)
    ensures
        r@ == property_member(*property),
{
    let holds_function = match &property.value {
        Some(value) => is_function_expression(value),
        None => false,
    };
    let kind = if holds_function {
        "method"
    } else if property.readonly {
        "readonly-field"
    } else {
        "field"
    };
    MemberInfo {
        span: property.span,
        name: member_name(&property.key),
        optional: property.optional,
        candidates: member_candidates(
            kind,
            property.accessibility,
            property.key.is_private_identifier(),
            property.is_static,
            property.is_abstract,
            property.decorators.len() > 0,
        ),
        ignored_for_rank: false,
    }
}

/// An accessor property as a member.
pub open spec fn accessor_member(accessor: AccessorProperty) -> Member {
    Member {
        span: accessor.span,
        name: accessor.key.spec_name(),
        optional: false,
        candidates: types_of(
            "accessor"@,
            accessor.accessibility,
            accessor.key is PrivateIdentifier,
            accessor.is_static,
            accessor.is_abstract,
            accessor.decorators@.len() > 0,
        ),
        ignored_for_rank: false,
    }
}

/// An accessor property as a member.
fn accessor_info(accessor: &AccessorProperty) -> (r: MemberInfo<'_>)
    ensures
        r@ == accessor_member(*accessor),
{
    MemberInfo {
        span: accessor.span,
        name: member_name(&accessor.key),
        optional: false,
        candidates: member_candidates(
            "accessor",
            accessor.accessibility,
            accessor.key.is_private_identifier(),
            accessor.is_static,
            accessor.is_abstract,
            accessor.decorators.len() > 0,
        ),
        ignored_for_rank: false,
    }
}

/// A member that is never optional and whose type is always looked at.
pub open spec fn plain_member(span: Span, name: Option<Seq<char>>, candidates: Seq<Seq<char>>) -> Member {
    Member { span, name, optional: false, candidates, ignored_for_rank: false }
}

/// An index signature as a member.
pub open spec fn index_signature_member(signature: IndexSignature) -> Member {
    plain_member(
        signature.span,
        opt_view(signature.parameter),
        if signature.readonly {
            seq!["readonly-signature"@, "signature"@]
        } else {
            seq!["signature"@]
        },
    )
}

/// One name.
fn one_name(name: &str) -> (r: Vec<String>)
    ensures
        views(r@) == seq![name@],
{
    let mut r: Vec<String> = Vec::new();
    r.push(name.to_string());
    proof {
        assert(views(r@) =~= seq![name@]);
    }
    r
}

/// A narrow name with a wider one after it, or the wider one alone.
fn narrowed(narrow: bool, name: &str, wider: &str) -> (r: Vec<String>)
    ensures
        views(r@) == (if narrow {
            seq![name@, wider@]
        } else {
            seq![wider@]
        }),
{
    if narrow {
        let mut r = one_name(name);
        push_name(&mut r, wider.to_string());
        proof {
            assert(views(r@) =~= seq![name@, wider@]);
        }
        r
    } else {
        one_name(wider)
    }
}

/// An index signature as a member.
fn index_signature_info(signature: &IndexSignature) -> (r: MemberInfo<'_>)
    ensures
        r@ == index_signature_member(*signature),
{
    let name = match &signature.parameter {
        Some(parameter) => Some(parameter.as_str()),
        None => None,
    };
    MemberInfo {
        span: signature.span,
        name,
        optional: false,
        candidates: narrowed(signature.readonly, "readonly-signature", "signature"),
        ignored_for_rank: false,
    }
}

/// An element of a class as a member.
pub open spec fn class_member(element: ClassElement) -> Member {
    match element {
        ClassElement::StaticBlock(block) => plain_member(
            block.span,
            Some("static block"@),
            seq!["static-initialization"@],
        ),
        ClassElement::MethodDefinition(method) => method_member(method),
        ClassElement::PropertyDefinition(property) => property_member(property),
        ClassElement::AccessorProperty(accessor) => accessor_member(accessor),
        ClassElement::IndexSignature(signature) => index_signature_member(signature),
    }
}

/// An element of a class as a member.
pub fn class_member_info(element: &ClassElement) -> (r: MemberInfo<'_>)
    ensures
        r@ == class_member(*element),
{
    match element {
        ClassElement::StaticBlock(block) => MemberInfo {
            span: block.span,
            name: Some("static block"),
            optional: false,
            candidates: one_name("static-initialization"),
            ignored_for_rank: false,
        },
        ClassElement::MethodDefinition(method) => method_info(method),
        ClassElement::PropertyDefinition(property) => property_info(property),
        ClassElement::AccessorProperty(accessor) => accessor_info(accessor),
        ClassElement::IndexSignature(signature) => index_signature_info(signature),
    }
}

/// A signature as a member.
pub open spec fn signature_member(signature: Signature) -> Member {
    match signature {
        Signature::Index(signature) => index_signature_member(signature),
        Signature::Property(property) => Member {
            span: property.span,
            name: property.key.spec_name(),
            optional: property.optional,
            candidates: if property.readonly {
                seq!["readonly-field"@, "field"@]
            } else {
                seq!["field"@]
            },
            ignored_for_rank: false,
        },
        Signature::Call(span) => plain_member(span, Some("call"@), seq!["call-signature"@]),
        Signature::Construct(span) => plain_member(span, Some("new"@), seq!["constructor"@]),
        Signature::Method(method) => Member {
            span: method.span,
            name: method.key.spec_name(),
            optional: method.optional,
            candidates: seq![
                match method.kind {
                    MethodSignatureKind::Method => "method"@,
                    MethodSignatureKind::Getter => "get"@,
                    MethodSignatureKind::Setter => "set"@,
                },
            ],
            ignored_for_rank: false,
        },
    }
}

/// A signature as a member.
pub fn signature_info(signature: &Signature) -> (r: MemberInfo<'_>)
    ensures
        r@ == signature_member(*signature),
{
    match signature {
        Signature::Index(signature) => index_signature_info(signature),
        Signature::Property(property) => MemberInfo {
            span: property.span,
            name: member_name(&property.key),
            optional: property.optional,
            candidates: narrowed(property.readonly, "readonly-field", "field"),
            ignored_for_rank: false,
        },
        Signature::Call(span) => MemberInfo {
            span: *span,
            name: Some("call"),
            optional: false,
            candidates: one_name("call-signature"),
            ignored_for_rank: false,
        },
        Signature::Construct(span) => MemberInfo {
            span: *span,
            name: Some("new"),
            optional: false,
            candidates: one_name("constructor"),
            ignored_for_rank: false,
        },
        Signature::Method(method) => {
            let kind = match method.kind {
                MethodSignatureKind::Method => "method",
                MethodSignatureKind::Getter => "get",
                MethodSignatureKind::Setter => "set",
            };
            MemberInfo {
                span: method.span,
                name: member_name(&method.key),
                optional: method.optional,
                candidates: one_name(kind),
                ignored_for_rank: false,
            }
        },
    }
}

/// The members of a class, in their order.
pub fn class_members(class: &Class) -> (r: Vec<MemberInfo<'_>>)
    ensures
        member_views(r@) == class.body@.map_values(|e: ClassElement| class_member(e)),
{
    let mut r: Vec<MemberInfo> = Vec::new();
    let mut i: usize = 0;
    while i < class.body.len()
        invariant
            i <= class.body@.len(),
            r@.len() == i,
            forall|k: int| 0 <= k < i ==> (#[trigger] r@[k])@ == class_member(class.body@[k]),
        decreases class.body@.len() - i,
    {
        r.push(class_member_info(&class.body[i]));
        i += 1;
    }
    proof {
        assert(member_views(r@) =~= class.body@.map_values(|e: ClassElement| class_member(e)));
    }
    r
}

/// The members of an interface or a type literal, in their order.
pub fn signature_members(signatures: &Vec<Signature>) -> (r: Vec<MemberInfo<'_>>)
    ensures
        member_views(r@) == signatures@.map_values(|s: Signature| signature_member(s)),
{
    let mut r: Vec<MemberInfo> = Vec::new();
    let mut i: usize = 0;
    while i < signatures.len()
        invariant
            i <= signatures@.len(),
            r@.len() == i,
            forall|k: int| 0 <= k < i ==> (#[trigger] r@[k])@ == signature_member(signatures@[k]),
        decreases signatures@.len() - i,
    {
        r.push(signature_info(&signatures[i]));
        i += 1;
    }
    proof {
        assert(member_views(r@) =~= signatures@.map_values(|s: Signature| signature_member(s)));
    }
    r
}

} // verus!
