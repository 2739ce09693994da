//! Which calls make elements in a program whose JSX was transformed before.

use super::alternatives::{
    Alternatives, after_place, after_places, after_properties, after_property, after_specifier,
    after_specifiers, alternatives_in,
};
use crate::ast::{
    BindingPattern, BindingProperty, CallExpression, Expression, ImportDeclarationSpecifier,
    ModuleExportName, Statement,
};
use crate::places::{
    has_statements, is_loaded_from, law_every_place_is_found, law_functions_that_make_elements,
    law_loaded_modules, makes_elements,
};
use crate::sites::{Place, Walk, sites_of, spec_jsx_methods, spec_required_source};
use vstd::prelude::*;

verus! {

/// A specifier imports one of the functions under a name.
pub open spec fn specifier_names(
    s: ImportDeclarationSpecifier,
    methods: Seq<Seq<char>>,
    name: Seq<char>,
) -> bool {
    s matches ImportDeclarationSpecifier::ImportSpecifier(s) && s.local.name@ == name && (
    s.imported matches ModuleExportName::IdentifierName(imported) && methods.contains(imported@))
}

/// A specifier imports the whole module under a name.
pub open spec fn specifier_holds(s: ImportDeclarationSpecifier, object: Seq<char>) -> bool {
    match s {
        ImportDeclarationSpecifier::ImportSpecifier(_) => false,
        ImportDeclarationSpecifier::ImportDefaultSpecifier(local) => local.name@ == object,
        ImportDeclarationSpecifier::ImportNamespaceSpecifier(local) => local.name@ == object,
    }
}

/// A property of a pattern takes one of the functions under a name.
pub open spec fn property_names(
    property: BindingProperty,
    methods: Seq<Seq<char>>,
    name: Seq<char>,
) -> bool {
    &&& property.key.spec_static_name() matches Some(taken) && methods.contains(taken)
    &&& property.value.spec_binding_identifier() matches Some(local) && local.name@ == name
}

/// A place gives a function that makes elements a name of its own.
pub open spec fn names_function(place: Place, name: Seq<char>) -> bool {
    match place {
        Place::Import(i) => i.specifiers matches Some(specifiers) && exists|k: int|
            0 <= k < specifiers@.len() && (
            #[trigger] specifiers@[k] matches ImportDeclarationSpecifier::ImportSpecifier(s)
                && s.local.name@ == name && (s.imported matches ModuleExportName::IdentifierName(x)
                && makes_elements(i.source@, x@))),
        Place::Required(d) => d.id matches BindingPattern::Object(pattern) && exists|
            source: Seq<char>,
            k: int,
        |
            #![trigger is_loaded_from(d, source), pattern.properties@[k]]
            is_loaded_from(d, source) && 0 <= k < pattern.properties@.len() && (
            pattern.properties@[k].key.spec_static_name() matches Some(taken) && makes_elements(
                source,
                taken,
            )) && (pattern.properties@[k].value.spec_binding_identifier() matches Some(local)
                && local.name@ == name),
        _ => false,
    }
}

/// A place gives a module a name, under which it has a function that makes elements.
pub open spec fn holds_function(place: Place, object: Seq<char>, method: Seq<char>) -> bool {
    match place {
        Place::Import(i) => makes_elements(i.source@, method) && (
        i.specifiers matches Some(specifiers) && exists|k: int|
            0 <= k < specifiers@.len() && specifier_holds(#[trigger] specifiers@[k], object)),
        Place::Required(d) => d.id matches BindingPattern::Identifier(ident) && ident.name@
            == object && exists|source: Seq<char>| #[trigger]
            is_loaded_from(d, source) && makes_elements(source, method),
        _ => false,
    }
}

proof fn lemma_specifiers(
    a: Alternatives,
    methods: Seq<Seq<char>>,
    list: Seq<ImportDeclarationSpecifier>,
    name: Seq<char>,
    method: Seq<char>,
)
    ensures
        ({
            let b = after_specifiers(a, methods, list);
            &&& b.identifiers.contains(name) <==> a.identifiers.contains(name) || exists|k: int|
                0 <= k < list.len() && specifier_names(#[trigger] list[k], methods, name)
            &&& b.methods(name).contains(method) <==> a.methods(name).contains(method) || (
            methods.contains(method) && exists|k: int|
                0 <= k < list.len() && specifier_holds(#[trigger] list[k], name))
        }),
    decreases list.len(),
{
    if list.len() > 0 {
        let rest = list.drop_last();
        let last = list.last();
        lemma_specifiers(a, methods, rest, name, method);
        let b = after_specifiers(a, methods, rest);
        let c = after_specifier(b, methods, last);
        assert(forall|k: int| 0 <= k < rest.len() ==> #[trigger] rest[k] == list[k]);
        assert(list[list.len() - 1] == last);
        assert(c.identifiers.contains(name) <==> b.identifiers.contains(name) || specifier_names(
            last,
            methods,
            name,
        ));
        assert(c.methods(name).contains(method) <==> b.methods(name).contains(method) || (
        methods.contains(method) && specifier_holds(last, name)));
        if exists|k: int|
            0 <= k < rest.len() && specifier_names(#[trigger] rest[k], methods, name) {
            let k = choose|k: int|
                0 <= k < rest.len() && specifier_names(#[trigger] rest[k], methods, name);
            assert(specifier_names(list[k], methods, name));
        }
        if exists|k: int| 0 <= k < rest.len() && specifier_holds(#[trigger] rest[k], name) {
            let k = choose|k: int|
                0 <= k < rest.len() && specifier_holds(#[trigger] rest[k], name);
            assert(specifier_holds(list[k], name));
        }
        assert forall|k: int|
            0 <= k < list.len() && specifier_names(
                #[trigger] list[k],
                methods,
                name,
            ) implies c.identifiers.contains(name) by {
            if k < rest.len() {
                assert(specifier_names(rest[k], methods, name));
            }
        }
        assert forall|k: int|
            0 <= k < list.len() && specifier_holds(#[trigger] list[k], name) && methods.contains(
                method,
            ) implies c.methods(name).contains(method) by {
            if k < rest.len() {
                assert(specifier_holds(rest[k], name));
            }
        }
    }
}

proof fn lemma_properties(
    a: Alternatives,
    methods: Seq<Seq<char>>,
    list: Seq<BindingProperty>,
    name: Seq<char>,
)
    ensures
        ({
            let b = after_properties(a, methods, list);
            &&& b.identifiers.contains(name) <==> a.identifiers.contains(name) || exists|k: int|
                0 <= k < list.len() && property_names(#[trigger] list[k], methods, name)
            &&& b.objects == a.objects
        }),
    decreases list.len(),
{
    if list.len() > 0 {
        let rest = list.drop_last();
        let last = list.last();
        lemma_properties(a, methods, rest, name);
        let b = after_properties(a, methods, rest);
        let c = after_property(b, methods, last);
        assert(forall|k: int| 0 <= k < rest.len() ==> #[trigger] rest[k] == list[k]);
        assert(list[list.len() - 1] == last);
        assert(c.identifiers.contains(name) <==> b.identifiers.contains(name) || property_names(
            last,
            methods,
            name,
        ));
        if exists|k: int| 0 <= k < rest.len() && property_names(#[trigger] rest[k], methods, name) {
            let k = choose|k: int|
                0 <= k < rest.len() && property_names(#[trigger] rest[k], methods, name);
            assert(property_names(list[k], methods, name));
        }
        assert forall|k: int|
            0 <= k < list.len() && property_names(
                #[trigger] list[k],
                methods,
                name,
            ) implies c.identifiers.contains(name) by {
            if k < rest.len() {
                assert(property_names(rest[k], methods, name));
            }
        }
    }
}

proof fn lemma_place(a: Alternatives, place: Place, name: Seq<char>, method: Seq<char>)
    ensures
        ({
            let b = after_place(a, place);
            &&& b.identifiers.contains(name) <==> a.identifiers.contains(name) || names_function(
                place,
                name,
            )
            &&& b.methods(name).contains(method) <==> a.methods(name).contains(method)
                || holds_function(place, name, method)
        }),
{
    let b = after_place(a, place);
    match place {
        Place::Import(i) => {
            law_functions_that_make_elements(i.source@, method);
            assert forall|x: Seq<char>| #[trigger] makes_elements(i.source@, x) == (
            spec_jsx_methods(i.source@) matches Some(methods) && methods.contains(x)) by {
                law_functions_that_make_elements(i.source@, x);
            }
            if let (Some(methods), Some(specifiers)) = (spec_jsx_methods(i.source@), i.specifiers) {
                lemma_specifiers(a, methods, specifiers@, name, method);
                assert forall|k: int| 0 <= k < specifiers@.len() implies specifier_names(
                    #[trigger] specifiers@[k],
                    methods,
                    name,
                ) == (specifiers@[k] matches ImportDeclarationSpecifier::ImportSpecifier(s)
                    && s.local.name@ == name && (
                s.imported matches ModuleExportName::IdentifierName(x) && makes_elements(
                    i.source@,
                    x@,
                ))) by {}
            }
        },
        Place::Required(d) => {
            assert forall|source: Seq<char>| #[trigger] is_loaded_from(d, source)
                == (spec_required_source(d) == Some(source)) by {
                law_loaded_modules(d, source);
            }
            if let Some(source) = spec_required_source(d) {
                assert(is_loaded_from(d, source));
                law_functions_that_make_elements(source, method);
                assert forall|x: Seq<char>| #[trigger] makes_elements(source, x) == (
                spec_jsx_methods(source) matches Some(methods) && methods.contains(x)) by {
                    law_functions_that_make_elements(source, x);
                }
                if let (Some(methods), BindingPattern::Object(pattern)) = (
                    spec_jsx_methods(source),
                    d.id,
                ) {
                    lemma_properties(a, methods, pattern.properties@, name);
                    assert forall|k: int| 0 <= k < pattern.properties@.len() implies property_names(
                        #[trigger] pattern.properties@[k],
                        methods,
                        name,
                    ) == ((pattern.properties@[k].key.spec_static_name() matches Some(taken)
                        && makes_elements(source, taken)) && (
                    pattern.properties@[k].value.spec_binding_identifier() matches Some(local)
                        && local.name@ == name)) by {}
                }
            }
        },
        _ => {},
    }
}

proof fn lemma_places(a: Alternatives, list: Seq<Place>, name: Seq<char>, method: Seq<char>)
    ensures
        ({
            let b = after_places(a, list);
            &&& b.identifiers.contains(name) <==> a.identifiers.contains(name) || exists|
                place: Place,
            | #[trigger] list.contains(place) && names_function(place, name)
            &&& b.methods(name).contains(method) <==> a.methods(name).contains(method) || exists|
                place: Place,
            | #[trigger] list.contains(place) && holds_function(place, name, method)
        }),
    decreases list.len(),
{
    if list.len() > 0 {
        let rest = list.drop_last();
        let last = list.last();
        lemma_places(a, rest, name, method);
        lemma_place(after_places(a, rest), last, name, method);
        assert forall|place: Place| #[trigger] list.contains(place) <==> rest.contains(place)
            || place == last by {
            if rest.contains(place) {
                let i = choose|i: int| 0 <= i < rest.len() && rest[i] == place;
                assert(list[i] == place);
            }
            if list.contains(place) && place != last {
                let i = choose|i: int| 0 <= i < list.len() && list[i] == place;
                assert(rest[i] == place);
            }
            assert(list[list.len() - 1] == last);
        }
        assert(list.contains(last));
        if exists|place: Place| #[trigger] rest.contains(place) && names_function(place, name) {
            let place = choose|place: Place| #[trigger]
                rest.contains(place) && names_function(place, name);
            assert(list.contains(place));
        }
        if exists|place: Place| #[trigger]
            rest.contains(place) && holds_function(place, name, method) {
            let place = choose|place: Place| #[trigger]
                rest.contains(place) && holds_function(place, name, method);
            assert(list.contains(place));
        }
    }
}

/// A name stands for a function that makes elements exactly if some import, or some variable that
/// `require` loads, however deep in the program, gives one of these functions that name; and an
/// object has such a function exactly if one of them gives a module that has it that name.
pub proof fn law_functions_that_make_elements_are_found(
    body: Seq<Statement>,
    name: Seq<char>,
    method: Seq<char>,
)
    ensures
        ({
            let found = alternatives_in(body);
            let w = Walk { attributes: true, only_required: true };
            &&& found.identifiers.contains(name) <==> exists|place: Place| #[trigger]
                has_statements(w, body, place) && names_function(place, name)
            &&& found.methods(name).contains(method) <==> exists|place: Place| #[trigger]
                has_statements(w, body, place) && holds_function(place, name, method)
        }),
{
    let w = Walk { attributes: true, only_required: true };
    let list = sites_of(w, body);
    lemma_places(Alternatives::none(), list, name, method);
    assert forall|place: Place| #[trigger] list.contains(place) == has_statements(
        w,
        body,
        place,
    ) by {
        law_every_place_is_found(w, body, place);
    }
    assert forall|place: Place| #[trigger] has_statements(w, body, place) == list.contains(
        place,
    ) by {
        law_every_place_is_found(w, body, place);
    }
}

/// A call makes an element exactly if it calls such a function by its name, or as a member of an
/// object that has it, in either notation.
pub proof fn law_calls_that_make_elements(a: Alternatives, call: CallExpression)
    ensures
        a.made_by(call) <==> match call.callee {
            Expression::Identifier(ident) => a.identifiers.contains(ident.name@),
            Expression::StaticMember(m) => m.object matches Expression::Identifier(object)
                && a.objects.contains_key(object.name@) && a.objects[object.name@].contains(
                m.property@,
            ),
            Expression::ComputedMember(m) => (m.object matches Expression::Identifier(object) && (
            m.static_property_name matches Some(property) && a.objects.contains_key(object.name@)
                && a.objects[object.name@].contains(property@))),
            _ => false,
        },
{
}

} // verus!
