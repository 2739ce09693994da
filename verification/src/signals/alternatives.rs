//! The functions that make elements in a program whose JSX was transformed before.

use crate::ast::{
    BindingPattern, BindingProperty, CallExpression, Expression, ImportDeclaration,
    ImportDeclarationSpecifier, ModuleExportName, Program, Statement, VariableDeclarator,
};
use crate::fx::{
    lemma_empty_strings, string_map, string_map_get, string_map_insert, string_map_remove,
    string_set, string_set_contains, string_set_insert,
};
use crate::sites::{
    Place, Site, Walk, collect_sites, jsx_methods, places, required_source, sites_of,
    spec_jsx_methods, spec_required_source,
};
use crate::text::{str_eq, texts};
use rustc_hash::{FxHashMap, FxHashSet};
use vstd::prelude::*;

verus! {

broadcast use vstd::std_specs::hash::group_hash_axioms;

/// What makes elements: functions under a name of their own, and functions of objects.
#[verifier::ext_equal]
pub ghost struct Alternatives {
    pub identifiers: Set<Seq<char>>,
    pub objects: Map<Seq<char>, Set<Seq<char>>>,
}

impl Alternatives {
    pub open spec fn none() -> Alternatives {
        Alternatives { identifiers: Set::empty(), objects: Map::empty() }
    }

    /// With one more function.
    pub open spec fn with_identifier(self, name: Seq<char>) -> Alternatives {
        Alternatives { identifiers: self.identifiers.insert(name), ..self }
    }

    /// The functions of an object.
    pub open spec fn methods(self, object: Seq<char>) -> Set<Seq<char>> {
        if self.objects.contains_key(object) {
            self.objects[object]
        } else {
            Set::empty()
        }
    }

    /// With more functions of an object.
    pub open spec fn with_methods(self, object: Seq<char>, methods: Seq<Seq<char>>) -> Alternatives {
        Alternatives {
            objects: self.objects.insert(object, self.methods(object).union(methods.to_set())),
            ..self
        }
    }

    /// Whether a call makes an element.
    pub open spec fn made_by(self, call: CallExpression) -> bool {
        match call.callee {
            Expression::Identifier(ident) => self.identifiers.contains(ident.name@),
            Expression::StaticMember(member) => match member.object {
                Expression::Identifier(object) => self.methods(object.name@).contains(
                    member.property@,
                ),
                _ => false,
            },
            Expression::ComputedMember(member) => match member.object {
                Expression::Identifier(object) => match member.static_property_name {
                    Some(property) => self.methods(object.name@).contains(property@),
                    None => false,
                },
                _ => false,
            },
            _ => false,
        }
    }
}

/// After a specifier of an import from a module with these functions.
pub open spec fn after_specifier(
    a: Alternatives,
    methods: Seq<Seq<char>>,
    specifier: ImportDeclarationSpecifier,
) -> Alternatives {
    match specifier {
        ImportDeclarationSpecifier::ImportSpecifier(s) => match s.imported {
            ModuleExportName::IdentifierName(imported) => if methods.contains(imported@) {
                a.with_identifier(s.local.name@)
            } else {
                a
            },
            ModuleExportName::StringLiteral(_) => a,
        },
        ImportDeclarationSpecifier::ImportDefaultSpecifier(local) => a.with_methods(
            local.name@,
            methods,
        ),
        ImportDeclarationSpecifier::ImportNamespaceSpecifier(local) => a.with_methods(
            local.name@,
            methods,
        ),
    }
}

/// After the specifiers of an import from a module with these functions.
pub open spec fn after_specifiers(
    a: Alternatives,
    methods: Seq<Seq<char>>,
    specifiers: Seq<ImportDeclarationSpecifier>,
) -> Alternatives
    decreases specifiers.len(),
{
    if specifiers.len() == 0 {
        a
    } else {
        after_specifier(
            after_specifiers(a, methods, specifiers.drop_last()),
            methods,
            specifiers.last(),
        )
    }
}

/// After a property of a pattern that takes a module with these functions apart.
pub open spec fn after_property(
    a: Alternatives,
    methods: Seq<Seq<char>>,
    property: BindingProperty,
) -> Alternatives {
    match property.key.spec_static_name() {
        Some(imported) => if methods.contains(imported) {
            match property.value.spec_binding_identifier() {
                Some(local) => a.with_identifier(local.name@),
                None => a,
            }
        } else {
            a
        },
        None => a,
    }
}

/// After the properties of a pattern that takes a module with these functions apart.
pub open spec fn after_properties(
    a: Alternatives,
    methods: Seq<Seq<char>>,
    properties: Seq<BindingProperty>,
) -> Alternatives
    decreases properties.len(),
{
    if properties.len() == 0 {
        a
    } else {
        after_property(
            after_properties(a, methods, properties.drop_last()),
            methods,
            properties.last(),
        )
    }
}

/// After a place of the program.
pub open spec fn after_place(a: Alternatives, place: Place) -> Alternatives {
    match place {
        Place::Import(i) => match (spec_jsx_methods(i.source@), i.specifiers) {
            (Some(methods), Some(specifiers)) => after_specifiers(a, methods, specifiers@),
            _ => a,
        },
        Place::Required(d) => match spec_required_source(d) {
            Some(source) => match spec_jsx_methods(source) {
                Some(methods) => match d.id {
                    BindingPattern::Identifier(ident) => a.with_methods(ident.name@, methods),
                    BindingPattern::Object(pattern) => after_properties(
                        a,
                        methods,
                        pattern.properties@,
                    ),
                    _ => a,
                },
                None => a,
            },
            None => a,
        },
        _ => a,
    }
}

/// After places of the program.
pub open spec fn after_places(a: Alternatives, list: Seq<Place>) -> Alternatives
    decreases list.len(),
{
    if list.len() == 0 {
        a
    } else {
        after_place(after_places(a, list.drop_last()), list.last())
    }
}

/// The functions that make elements in a program.
pub open spec fn alternatives_in(body: Seq<Statement>) -> Alternatives {
    after_places(
        Alternatives::none(),
        sites_of(Walk { attributes: true, only_required: true }, body),
    )
}

/// The functions of objects in a map.
pub open spec fn object_methods(m: Map<String, FxHashSet<String>>) -> Map<
    Seq<char>,
    Set<Seq<char>>,
> {
    Map::new(
        |k: Seq<char>| string_map(m).contains_key(k),
        |k: Seq<char>| string_set(string_map(m)[k]@),
    )
}

/// The functions that make elements, as they are found.
#[derive(Debug)]
pub struct JSXAlternativeCollector {
    pub jsx_identifiers: FxHashSet<String>,
    pub jsx_objects: FxHashMap<String, FxHashSet<String>>,
}

impl View for JSXAlternativeCollector {
    type V = Alternatives;

    open spec fn view(&self) -> Alternatives {
        Alternatives {
            identifiers: string_set(self.jsx_identifiers@),
            objects: object_methods(self.jsx_objects@),
        }
    }
}

/// Whether a text is among texts.
fn among(list: &Vec<&'static str>, text: &str) -> (r: bool)
    ensures
        r == texts(list@).contains(text@),
{
    let mut i: usize = 0;
    while i < list.len()
        invariant
            i <= list@.len(),
            forall|j: int| 0 <= j < i ==> (#[trigger] list@[j])@ != text@,
        decreases list@.len() - i,
    {
        if str_eq(list[i], text) {
            proof {
                assert(texts(list@)[i as int] == text@);
            }
            return true;
        }
        i += 1;
    }
    proof {
        if texts(list@).contains(text@) {
            let k = texts(list@).index_of(text@);
            assert(list@[k]@ == text@);
        }
    }
    false
}

impl JSXAlternativeCollector {
    /// Nothing is found yet.
    pub fn new() -> (r: JSXAlternativeCollector)
        ensures
            r@ == Alternatives::none(),
    {
        let r = JSXAlternativeCollector {
            jsx_identifiers: FxHashSet::default(),
            jsx_objects: FxHashMap::default(),
        };
        proof {
            lemma_empty_strings::<FxHashSet<String>>();
            assert(r@ =~= Alternatives::none());
        }
        r
    }

    /// Adds a function.
    fn add_identifier(&mut self, name: &String)
        ensures
            final(self)@ == old(self)@.with_identifier(name@),
    {
        string_set_insert(&mut self.jsx_identifiers, name.clone());
    }

    /// Adds functions of an object.
    pub fn add_object_methods(&mut self, object: &String, methods: &Vec<&'static str>)
        ensures
            final(self)@ == old(self)@.with_methods(object@, texts(methods@)),
    {
        let ghost before = *self;
        let mut entry: FxHashSet<String> = match string_map_remove(
            &mut self.jsx_objects,
            object.as_str(),
        ) {
            Some(entry) => entry,
            None => FxHashSet::default(),
        };
        proof {
            lemma_empty_strings::<FxHashSet<String>>();
            assert(string_set(entry@) == before@.methods(object@));
        }
        let ghost start = string_set(entry@);
        let mut i: usize = 0;
        proof {
            assert(start =~= start.union(texts(methods@).take(0).to_set()));
        }
        while i < methods.len()
            invariant
                i <= methods@.len(),
                string_set(entry@) == start.union(texts(methods@).take(i as int).to_set()),
            decreases methods@.len() - i,
        {
            string_set_insert(&mut entry, methods[i].to_string());
            proof {
                let all = texts(methods@);
                let a = all.take(i as int);
                let b = all.take(i + 1);
                assert(b =~= a.push(methods@[i as int]@));
                assert(b.to_set() =~= a.to_set().insert(methods@[i as int]@)) by {
                    assert forall|x: Seq<char>| b.to_set().contains(x) == a.to_set().insert(
                        methods@[i as int]@,
                    ).contains(x) by {
                        if a.contains(x) {
                            let k = a.index_of(x);
                            assert(b[k] == x);
                        }
                        if x == methods@[i as int]@ {
                            assert(b[i as int] == x);
                        }
                        if b.contains(x) {
                            let k = b.index_of(x);
                            if k < i {
                                assert(a[k] == x);
                            }
                        }
                    }
                }
                assert(start.union(b.to_set()) =~= start.union(a.to_set()).insert(
                    methods@[i as int]@,
                ));
            }
            i += 1;
        }
        proof {
            assert(texts(methods@).take(methods@.len() as int) =~= texts(methods@));
        }
        string_map_insert(&mut self.jsx_objects, object.clone(), entry);
        proof {
            assert(self@.objects =~= before@.with_methods(object@, texts(methods@)).objects);
        }
    }

    /// An import.
    pub fn visit_import_declaration(&mut self, declaration: &ImportDeclaration)
        ensures
            final(self)@ == after_place(old(self)@, Place::Import(*declaration)),
    {
        let Some(methods) = jsx_methods(declaration.source.as_str()) else {
            return;
        };
        let Some(specifiers) = &declaration.specifiers else {
            return;
        };
        let ghost start = self@;
        let ghost names = texts(methods@);
        let mut i: usize = 0;
        while i < specifiers.len()
            invariant
                i <= specifiers@.len(),
                names == texts(methods@),
                self@ == after_specifiers(start, names, specifiers@.take(i as int)),
            decreases specifiers@.len() - i,
        {
            proof {
                assert(specifiers@.take(i + 1).drop_last() =~= specifiers@.take(i as int));
            }
            match &specifiers[i] {
                ImportDeclarationSpecifier::ImportSpecifier(specifier) => {
                    if let ModuleExportName::IdentifierName(imported) = &specifier.imported {
                        if among(&methods, imported.as_str()) {
                            self.add_identifier(&specifier.local.name);
                        }
                    }
                },
                ImportDeclarationSpecifier::ImportDefaultSpecifier(local) => {
                    self.add_object_methods(&local.name, &methods);
                },
                ImportDeclarationSpecifier::ImportNamespaceSpecifier(local) => {
                    self.add_object_methods(&local.name, &methods);
                },
            }
            i += 1;
        }
        proof {
            assert(specifiers@.take(specifiers@.len() as int) =~= specifiers@);
        }
    }

    /// A variable that a call of `require` loads.
    pub fn visit_variable_declarator(&mut self, declarator: &VariableDeclarator)
        ensures
            final(self)@ == after_place(old(self)@, Place::Required(*declarator)),
    {
        let Some(source) = required_source(declarator) else {
            return;
        };
        let Some(methods) = jsx_methods(source) else {
            return;
        };
        match &declarator.id {
            BindingPattern::Identifier(identifier) => {
                self.add_object_methods(&identifier.name, &methods);
            },
            BindingPattern::Object(pattern) => {
                let properties = &pattern.properties;
                let ghost start = self@;
                let ghost names = texts(methods@);
                let mut i: usize = 0;
                while i < properties.len()
                    invariant
                        i <= properties@.len(),
                        names == texts(methods@),
                        self@ == after_properties(start, names, properties@.take(i as int)),
                    decreases properties@.len() - i,
                {
                    proof {
                        assert(properties@.take(i + 1).drop_last() =~= properties@.take(i as int));
                    }
                    if let Some(imported) = properties[i].key.static_name() {
                        if among(&methods, imported) {
                            if let Some(local) = properties[i].value.get_binding_identifier() {
                                self.add_identifier(&local.name);
                            }
                        }
                    }
                    i += 1;
                }
                proof {
                    assert(properties@.take(properties@.len() as int) =~= properties@);
                }
            },
            _ => {},
        }
    }

    /// The functions that make elements in a program.
    pub fn collect(program: &Program) -> (r: JSXAlternativeCollector)
        ensures
            r@ == alternatives_in(program.body@),
    {
        let walk = Walk { attributes: true, only_required: true };
        let sites = collect_sites(walk, &program.body);
        let ghost all = places(sites@);
        let mut collector = JSXAlternativeCollector::new();
        let mut i: usize = 0;
        while i < sites.len()
            invariant
                i <= sites@.len(),
                all == places(sites@),
                collector@ == after_places(Alternatives::none(), all.take(i as int)),
            decreases sites@.len() - i,
        {
            proof {
                assert(all.take(i + 1).drop_last() =~= all.take(i as int));
                assert(all.take(i + 1).last() == sites@[i as int]@);
            }
            match sites[i] {
                Site::Import(declaration) => collector.visit_import_declaration(declaration),
                Site::Required(declarator) => collector.visit_variable_declarator(declarator),
                _ => {},
            }
            i += 1;
        }
        proof {
            assert(all.take(all.len() as int) =~= all);
        }
        collector
    }

    /// Whether a call makes an element.
    pub fn is_jsx_alternative_call(&self, call: &CallExpression) -> (r: bool)
        ensures
            r == self@.made_by(*call),
    {
        match &call.callee {
            Expression::Identifier(ident) => string_set_contains(
                &self.jsx_identifiers,
                ident.name.as_str(),
            ),
            Expression::StaticMember(member) => match &member.object {
                Expression::Identifier(object) => self.has_method(
                    object.name.as_str(),
                    member.property.as_str(),
                ),
                _ => false,
            },
            Expression::ComputedMember(member) => match &member.object {
                Expression::Identifier(object) => match &member.static_property_name {
                    Some(property) => self.has_method(object.name.as_str(), property.as_str()),
                    None => false,
                },
                _ => false,
            },
            _ => false,
        }
    }

    /// Whether an object has the function.
    fn has_method(&self, object: &str, method: &str) -> (r: bool)
        ensures
            r == self@.methods(object@).contains(method@),
    {
        match string_map_get(&self.jsx_objects, object) {
            Some(methods) => string_set_contains(methods, method),
            None => false,
        }
    }
}

} // verus!
