//! The names of the functions that a refresh goes through.

use crate::ast::shape::{Shape, has_shape, make_member, make_meta, member};
use crate::ast::{Expression, ScopeId};
use crate::text::str_eq;
use crate::transform::{TransformCtx, naming_in};
use crate::traverse::Made;
use vstd::prelude::*;

verus! {

/// The place of the first dot from `from` on, or the end of the text.
pub open spec fn next_dot(text: Seq<char>, from: int) -> int
    decreases text.len() - from,
{
    if 0 <= from < text.len() && text[from] != '.' {
        next_dot(text, from + 1)
    } else {
        from
    }
}

/// The pieces between the dots of a text, from `from` on.
pub open spec fn pieces(text: Seq<char>, from: int) -> Seq<Seq<char>>
    decreases text.len() - from,
    when 0 <= from <= text.len()
    via pieces_decreases
{
    let dot = next_dot(text, from);
    if dot < text.len() {
        seq![text.subrange(from, dot)] + pieces(text, dot + 1)
    } else {
        seq![text.subrange(from, text.len() as int)]
    }
}

#[via_fn]
proof fn pieces_decreases(text: Seq<char>, from: int) {
    lemma_next_dot(text, from);
}

/// A dot comes no earlier than where the search starts, and no later than the end.
pub(crate) proof fn lemma_next_dot(text: Seq<char>, from: int)
    requires
        0 <= from <= text.len(),
    ensures
        from <= next_dot(text, from) <= text.len(),
    decreases text.len() - from,
{
    if from < text.len() && text[from] != '.' {
        lemma_next_dot(text, from + 1);
    }
}

/// How a function is named: by an identifier, by a member of one, or by `import.meta` and the
/// like.
#[derive(Debug)]
pub enum RefreshIdentifierResolver {
    Identifier(String),
    Member(String, String),
    /// `import.0` or `import.0.1`.
    Import(String, Option<String>),
}

impl RefreshIdentifierResolver {
    /// Whether this is how `input` names a function.
    pub open spec fn names(self, input: Seq<char>) -> bool {
        let parts = pieces(input, 0);
        if parts.len() == 1 {
            self matches RefreshIdentifierResolver::Identifier(name) && name@ == input
        } else if parts[0] == "import"@ {
            self matches RefreshIdentifierResolver::Import(property, rest) && property@ == parts[1]
                && crate::text::opt_view(rest) == (if parts.len() > 2 {
                Some(parts[2])
            } else {
                None
            })
        } else {
            self matches RefreshIdentifierResolver::Member(object, property) && object@ == parts[0]
                && property@ == parts[1]
        }
    }

    /// The expression that names the function.
    pub open spec fn shape(self) -> Shape {
        match self {
            RefreshIdentifierResolver::Identifier(name) => Shape::Name {
                name: name@,
                symbol_id: None,
            },
            RefreshIdentifierResolver::Member(object, property) => member(
                Shape::Name { name: object@, symbol_id: None },
                property@,
            ),
            RefreshIdentifierResolver::Import(property, None) => Shape::Meta {
                meta: "import"@,
                property: property@,
            },
            RefreshIdentifierResolver::Import(property, Some(rest)) => member(
                Shape::Meta { meta: "import"@, property: property@ },
                rest@,
            ),
        }
    }

    /// Reads the name of a function.
    pub fn parse(input: &str) -> (r: RefreshIdentifierResolver)
        ensures
            r.names(input@),
    {
        let n = input.unicode_len();
        let first_end = find_dot(input, 0);
        if first_end == n {
            return RefreshIdentifierResolver::Identifier(input.to_string());
        }
        let first_part = input.substring_char(0, first_end);
        let second_start = first_end + 1;
        let second_end = find_dot(input, second_start);
        let second_part = input.substring_char(second_start, second_end);
        proof {
            let rest = pieces(input@, second_start as int);
            assert(pieces(input@, 0) == seq![first_part@] + rest);
            assert(rest[0] == second_part@);
        }
        if str_eq(first_part, "import") {
            let mut property: Option<String> = None;
            if second_end < n {
                let third_start = second_end + 1;
                let third_end = find_dot(input, third_start);
                let third_part = input.substring_char(third_start, third_end);
                property = Some(third_part.to_string());
                proof {
                    let rest = pieces(input@, second_start as int);
                    let last = pieces(input@, third_start as int);
                    assert(rest == seq![second_part@] + last);
                    assert(last[0] == third_part@);
                    assert(pieces(input@, 0)[2] == third_part@);
                }
            } else {
                proof {
                    assert(pieces(input@, second_start as int).len() == 1);
                    assert(pieces(input@, 0).len() == 2);
                }
            }
            return RefreshIdentifierResolver::Import(second_part.to_string(), property);
        }
        RefreshIdentifierResolver::Member(first_part.to_string(), second_part.to_string())
    }

    /// The references of the expression, in a scope: the name that it starts with, bound to
    /// nothing, where it starts with one.
    pub open spec fn references_in(self, scope_id: ScopeId) -> Seq<Made> {
        match self {
            RefreshIdentifierResolver::Identifier(name) => seq![
                naming_in(scope_id, name@, None),
            ],
            RefreshIdentifierResolver::Member(object, _) => seq![
                naming_in(scope_id, object@, None),
            ],
            RefreshIdentifierResolver::Import(_, _) => Seq::empty(),
        }
    }

    /// The expression that names the function, with its references.
    pub fn to_expression(&self, ctx: &mut TransformCtx) -> (r: Expression)
        ensures
            has_shape(r, self.shape()),
            final(ctx).referred(
                *old(ctx),
                self.references_in(old(ctx).traverse.scoping.current_scope_id),
            ),
    {
        match self {
            RefreshIdentifierResolver::Identifier(name) => ctx.create_ident_expr(
                name.as_str(),
                None,
            ),
            RefreshIdentifierResolver::Member(object, property) => make_member(
                ctx.create_ident_expr(object.as_str(), None),
                property.as_str(),
            ),
            RefreshIdentifierResolver::Import(property, rest) => {
                let meta = make_meta("import", property.as_str());
                match rest {
                    Some(rest) => make_member(meta, rest.as_str()),
                    None => meta,
                }
            },
        }
    }
}

/// The place of the first dot from `from` on, or the end of the text.
fn find_dot(text: &str, from: usize) -> (r: usize)
    requires
        from <= text@.len(),
    ensures
        r == next_dot(text@, from as int),
        from <= r <= text@.len(),
{
    let n = text.unicode_len();
    let mut i = from;
    while i < n && text.get_char(i) != '.'
        invariant
            n == text@.len(),
            from <= i <= n,
            next_dot(text@, from as int) == next_dot(text@, i as int),
        decreases n - i,
    {
        i += 1;
    }
    i
}

} // verus!
