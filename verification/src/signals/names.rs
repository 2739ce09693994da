//! Names, comments and places in the source.

use crate::ast::{
    Argument, ArrowFunctionExpression, CallExpression, Expression, ObjectPropertyKind, Span,
    Statement,
};
use crate::ast::shape::make_return;
use crate::text::{is_upper, starts_with, str_eq, upper_at};
use vstd::prelude::*;
use vstd::utf8::encode_utf8;

verus! {

/// The name of a component: it starts with an upper-case letter of ASCII.
pub open spec fn is_component(name: Seq<char>) -> bool {
    name.len() > 0 && is_upper(name[0])
}

/// The name of a component.
pub fn is_component_name(name: &str) -> (r: bool)
    ensures
        r == is_component(name@),
{
    upper_at(name, 0, false)
}

/// The name of a hook: `use` and an upper-case letter of ASCII.
pub open spec fn is_custom_hook(name: Seq<char>) -> bool {
    "use"@.is_prefix_of(name) && name.len() > 3 && is_upper(name[3])
}

/// The name of a hook.
pub fn is_custom_hook_name(name: &str) -> (r: bool)
    ensures
        r == is_custom_hook(name@),
{
    starts_with(name, "use") && upper_at(name, 3, false)
}

/// A character of white space, as Unicode has it.
pub open spec fn is_white(c: char) -> bool {
    ||| '\u{9}' <= c <= '\u{d}'
    ||| c == ' '
    ||| c == '\u{85}'
    ||| c == '\u{a0}'
    ||| c == '\u{1680}'
    ||| '\u{2000}' <= c <= '\u{200a}'
    ||| c == '\u{2028}'
    ||| c == '\u{2029}'
    ||| c == '\u{202f}'
    ||| c == '\u{205f}'
    ||| c == '\u{3000}'
}

/// A character of white space, as Unicode has it.
pub fn is_white_space(c: char) -> (r: bool)
    ensures
        r == is_white(c),
{
    ('\u{9}' <= c && c <= '\u{d}') || c == ' ' || c == '\u{85}' || c == '\u{a0}' || c == '\u{1680}'
        || ('\u{2000}' <= c && c <= '\u{200a}') || c == '\u{2028}' || c == '\u{2029}' || c
        == '\u{202f}' || c == '\u{205f}' || c == '\u{3000}'
}

/// `word` stands at `i` in `text`, with white space or an end on either side.
pub open spec fn word_at(text: Seq<char>, word: Seq<char>, i: int) -> bool {
    &&& 0 <= i
    &&& i + word.len() <= text.len()
    &&& text.subrange(i, i + word.len()) == word
    &&& i == 0 || is_white(text[i - 1])
    &&& i + word.len() == text.len() || is_white(text[i + word.len()])
}

/// `word` is one of the words that white space sets apart in `text`.
pub open spec fn has_word(text: Seq<char>, word: Seq<char>) -> bool {
    &&& word.len() > 0
    &&& forall|k: int| 0 <= k < word.len() ==> !is_white(#[trigger] word[k])
    &&& exists|i: int| #[trigger] word_at(text, word, i)
}

/// Whether `directive` is one of the words of a comment.
pub fn has_comment_directive(comment: &str, directive: &str) -> (r: bool)
    ensures
        r == has_word(comment@, directive@),
{
    let n = comment.unicode_len();
    let m = directive.unicode_len();
    if m == 0 || m > n {
        proof {
            assert forall|i: int| !#[trigger] word_at(comment@, directive@, i) || m == 0 by {}
        }
        return false;
    }
    let mut k: usize = 0;
    while k < m
        invariant
            k <= m,
            m == directive@.len(),
            forall|j: int| 0 <= j < k ==> !is_white(#[trigger] directive@[j]),
        decreases m - k,
    {
        if is_white_space(directive.get_char(k)) {
            return false;
        }
        k += 1;
    }
    let mut i: usize = 0;
    while i <= n - m
        invariant
            m <= n,
            i <= n - m + 1,
            n == comment@.len(),
            m == directive@.len(),
            m > 0,
            forall|j: int| 0 <= j < i ==> !#[trigger] word_at(comment@, directive@, j),
            forall|k: int| 0 <= k < directive@.len() ==> !is_white(#[trigger] directive@[k]),
        decreases n - m + 1 - i,
    {
        let mut j: usize = 0;
        while j < m && comment.get_char(i + j) == directive.get_char(j)
            invariant
                m <= n,
                i <= n - m,
                j <= m,
                n == comment@.len(),
                m == directive@.len(),
                forall|k: int| 0 <= k < j ==> comment@[i + k] == directive@[k],
            decreases m - j,
        {
            j += 1;
        }
        if j == m && (i == 0 || is_white_space(comment.get_char(i - 1))) && (i + m == n
            || is_white_space(comment.get_char(i + m))) {
            proof {
                assert(comment@.subrange(i as int, i + m) =~= directive@);
                assert(word_at(comment@, directive@, i as int));
            }
            return true;
        }
        proof {
            if word_at(comment@, directive@, i as int) {
                let sub = comment@.subrange(i as int, i + m);
                assert(j < m ==> sub[j as int] == directive@[j as int]);
                assert(false);
            }
        }
        i += 1;
    }
    false
}

/// The number of line feeds in bytes.
pub open spec fn line_feeds(bytes: Seq<u8>) -> nat
    decreases bytes.len(),
{
    if bytes.len() == 0 {
        0
    } else {
        line_feeds(bytes.drop_last()) + if bytes.last() == 10u8 {
            1nat
        } else {
            0nat
        }
    }
}

/// The line of the source at which a span starts.
pub open spec fn line_of(text: Seq<char>, span: Span) -> nat {
    line_feeds(encode_utf8(text).take(span.start as int)) + 1
}

/// The line of the source at which a span starts.
pub fn line_number_for_span(span: Span, source_text: &str) -> (r: Option<u32>)
    requires
        span.start <= encode_utf8(source_text@).len(),
        line_of(source_text@, span) <= u32::MAX,
    ensures
        r == Some(line_of(source_text@, span) as u32),
{
    let bytes = source_text.as_bytes();
    let end = span.start as usize;
    let mut count: u64 = 0;
    let mut i: usize = 0;
    while i < end
        invariant
            i <= end,
            end <= bytes@.len(),
            end <= u32::MAX,
            count <= i,
            count == line_feeds(bytes@.take(i as int)),
        decreases end - i,
    {
        proof {
            assert(bytes@.take(i + 1).drop_last() =~= bytes@.take(i as int));
        }
        if bytes[i] == 10 {
            count += 1;
        }
        i += 1;
    }
    Some((count + 1) as u32)
}

/// Whether the callee is one of the functions that make a signal.
pub open spec fn calls_signal(call: CallExpression) -> bool {
    call.callee.spec_inner_expression() matches Expression::Identifier(ident) && (ident.name@
        == "signal"@ || ident.name@ == "computed"@ || ident.name@ == "useSignal"@ || ident.name@
        == "useComputed"@)
}

/// Whether the callee is one of the functions that make a signal.
pub fn is_signal_call(call: &CallExpression) -> (r: bool)
    ensures
        r == calls_signal(*call),
{
    match call.callee.get_inner_expression() {
        Expression::Identifier(ident) => {
            let name = ident.name.as_str();
            str_eq(name, "signal") || str_eq(name, "computed") || str_eq(name, "useSignal")
                || str_eq(name, "useComputed")
        },
        _ => false,
    }
}

/// Whether a property has the name `name`.
pub open spec fn is_name_property(property: ObjectPropertyKind) -> bool {
    property matches ObjectPropertyKind::ObjectProperty(p) && p.key.spec_static_name() == Some(
        "name"@,
    )
}

/// Whether the second argument is an object that has a name.
pub open spec fn names_itself(call: CallExpression) -> bool {
    &&& call.arguments@.len() > 1
    &&& call.arguments@[1] matches Argument::Expression(Expression::Object(o)) && exists|i: int|
        0 <= i < o.properties@.len() && is_name_property(#[trigger] o.properties@[i])
}

/// Whether the second argument is an object that has a name.
pub fn has_name_in_options(call: &CallExpression) -> (r: bool)
    ensures
        r == names_itself(*call),
{
    if call.arguments.len() < 2 {
        return false;
    }
    match &call.arguments[1] {
        Argument::Expression(Expression::Object(o)) => {
            let properties = &o.properties;
            let mut i: usize = 0;
            while i < properties.len()
                invariant
                    i <= properties@.len(),
                    forall|j: int| 0 <= j < i ==> !is_name_property(#[trigger] properties@[j]),
                    call.arguments@.len() > 1,
                    call.arguments@[1] matches Argument::Expression(Expression::Object(x))
                        && x.properties == *properties,
                decreases properties@.len() - i,
            {
                if let ObjectPropertyKind::ObjectProperty(p) = &properties[i] {
                    if let Some(name) = p.key.static_name() {
                        if str_eq(name, "name") {
                            proof {
                                assert(is_name_property(properties@[i as int]));
                            }
                            return true;
                        }
                    }
                }
                proof {
                    assert(!is_name_property(properties@[i as int]));
                }
                i += 1;
            }
            false
        },
        _ => false,
    }
}

/// The one expression of an arrow function stands where it can be returned.
pub open spec fn arrow_wf(arrow: ArrowFunctionExpression) -> bool {
    arrow.expression ==> arrow.body.statements@.len() > 0
        && arrow.body.statements@.last() is Expression
}

/// `after` is `before` with a block for its body: an expression is returned.
pub open spec fn has_block_body(
    before: ArrowFunctionExpression,
    after: ArrowFunctionExpression,
) -> bool {
    if before.expression {
        &&& !after.expression
        &&& after.span == before.span
        &&& after.scope_id == before.scope_id
        &&& after.params == before.params
        &&& after.is_async == before.is_async
        &&& after.body.directives == before.body.directives
        &&& after.body.statements@.drop_last() == before.body.statements@.drop_last()
        &&& after.body.statements@.len() == before.body.statements@.len()
        &&& before.body.statements@.last() matches Statement::Expression(e)
        &&& after.body.statements@.last() matches Statement::Return(r)
        &&& r.span == Span::empty()
        &&& r.argument == Some(e.expression)
    } else {
        after == before
    }
}

/// Gives an arrow function a block for its body.
pub fn ensure_arrow_block_body(arrow: &mut ArrowFunctionExpression)
    requires
        arrow_wf(*old(arrow)),
    ensures
        has_block_body(*old(arrow), *final(arrow)),
{
    if !arrow.expression {
        return;
    }
    arrow.expression = false;
    let last = arrow.body.statements.pop();
    if let Some(Statement::Expression(statement)) = last {
        let ghost rest = arrow.body.statements@;
        arrow.body.statements.push(make_return(statement.expression));
        proof {
            assert(arrow.body.statements@.drop_last() =~= rest);
        }
    }
}

} // verus!
