//! The rules and the transforms on whole programs, which a small parser reads.

use oxc_passes::ast::{
    Accessibility, AccessorProperty, Argument, ArrayExpression, ArrowFunctionExpression,
    AssignmentExpression, AssignmentOperator, AssignmentTarget, AssignmentTargetProperty,
    AssignmentTargetPropertyIdentifier, AwaitExpression, BindingIdentifier, BindingPattern,
    BindingProperty, BlockStatement, BooleanLiteral, CallExpression, CatchClause, Class,
    ClassElement, ClassType, Comment, ComputedMemberExpression, ConditionalExpression, Declaration,
    ExportDefaultDeclaration, ExportDefaultDeclarationKind, ExportNamedDeclaration, Expression,
    ExpressionStatement, ForEachStatement, ForStatementLeft, FormalParameters, Function,
    FunctionBody, FunctionType, IdentifierReference, IfStatement, ImportDeclaration,
    ImportDeclarationSpecifier, ImportSpecifier, IndexSignature, JsxElement, LogicalExpression,
    LogicalOperator, MethodDefinition, MethodDefinitionKind, MethodSignature, MethodSignatureKind,
    ModuleExportName, NumericLiteral, ObjectAssignmentTarget, ObjectExpression, ObjectPattern,
    ObjectProperty, ObjectPropertyKind, OtherExpression, OtherForm, OtherStatement,
    PrivateFieldExpression, Program, PropertyDefinition, PropertyKey, PropertySignature,
    ReturnStatement, Signature, Span, SpreadElement, Statement, StaticBlock,
    StaticMemberExpression, StringLiteral, TryStatement, VariableDeclaration,
    VariableDeclarationKind, VariableDeclarator, WhileStatement, WrappedExpression, Wrapper,
    YieldExpression,
};
use oxc_passes::consistent_this::{ConfigValue, ConsistentThis};
use oxc_passes::lint::{AstKind, AstNode, Diagnostic, LintContext};
use oxc_passes::member_ordering::MemberOrdering;
use oxc_passes::member_ordering::config::{
    MemberOrderingOptions, MemberTypeGroup, MemberTypeName, MemberTypesOption, Never,
    OptionalityOrder, Order, OrderConfig, SortedOrderConfig,
};
use oxc_passes::prefresh::hash::hash_base36;
use oxc_passes::prefresh::{Prefresh, PrefreshOptions};
use oxc_passes::require_atomic_updates::{ConfigElement0, RequireAtomicUpdates};
use oxc_passes::semantic::{
    Reference, Scope, ScopeFlags, ScopeTree, Scoping, Symbol, SymbolFlags, SymbolTable,
};
use oxc_passes::signals::{
    ReactSignals, ReactSignalsExperimentalOptions, ReactSignalsMode, ReactSignalsOptions,
};
use oxc_passes::transform::{TransformCtx, TransformState};
use oxc_passes::traverse::{Ancestor, AncestorNode, AncestorType, PlaceFacts, TraverseCtx};

// ---------------------------------------------------------------------------------------------
// Reading programs
// ---------------------------------------------------------------------------------------------

#[derive(Debug, Clone, Copy, PartialEq, Eq)]
enum Kind {
    Word,
    Private,
    Number,
    Text,
    Mark,
    End,
}

#[derive(Debug, Clone)]
struct Token {
    kind: Kind,
    text: String,
    start: u32,
    end: u32,
    after_line_break: bool,
}

fn tokens(source: &str) -> (Vec<Token>, Vec<Comment>) {
    let marks = [
        "...", "===", "!==", "=>", "==", "!=", "+=", "-=", "&&", "||", "??", "<=", ">=",
    ];
    let bytes = source.as_bytes();
    let mut list = Vec::new();
    let mut comments: Vec<Comment> = Vec::new();
    let mut at = 0;
    let mut line_break = false;
    loop {
        while at < bytes.len() && bytes[at].is_ascii_whitespace() {
            line_break = line_break || bytes[at] == b'\n';
            at += 1;
        }
        if source[at..].starts_with("/*") {
            let end = at + source[at..].find("*/").unwrap();
            comments.push(Comment {
                is_leading: true,
                attached_to: u32::MAX,
                content: Span { start: at as u32 + 2, end: end as u32 },
            });
            at = end + 2;
            continue;
        }
        for comment in comments.iter_mut() {
            if comment.attached_to == u32::MAX {
                comment.attached_to = at as u32;
            }
        }
        let start = at;
        let (kind, text) = if at == bytes.len() {
            (Kind::End, String::new())
        } else if bytes[at].is_ascii_alphabetic() || bytes[at] == b'_' || bytes[at] == b'$' {
            while at < bytes.len()
                && (bytes[at].is_ascii_alphanumeric() || bytes[at] == b'_' || bytes[at] == b'$')
            {
                at += 1;
            }
            (Kind::Word, source[start..at].to_string())
        } else if bytes[at] == b'#' {
            at += 1;
            while at < bytes.len() && bytes[at].is_ascii_alphanumeric() {
                at += 1;
            }
            (Kind::Private, source[start + 1..at].to_string())
        } else if bytes[at].is_ascii_digit() {
            while at < bytes.len() && bytes[at].is_ascii_digit() {
                at += 1;
            }
            (Kind::Number, source[start..at].to_string())
        } else if bytes[at] == b'\'' {
            at += 1;
            while bytes[at] != b'\'' {
                at += 1;
            }
            at += 1;
            (Kind::Text, source[start + 1..at - 1].to_string())
        } else {
            let mark = marks.iter().find(|mark| source[at..].starts_with(**mark));
            at += mark.map_or(1, |mark| mark.len());
            (Kind::Mark, source[start..at].to_string())
        };
        list.push(Token {
            kind,
            text,
            start: start as u32,
            end: at as u32,
            after_line_break: line_break,
        });
        line_break = false;
        if kind == Kind::End {
            return (list, comments);
        }
    }
}

/// Reads a program twice: first for what it declares, then with every name resolved.
struct Parser {
    source: String,
    tokens: Vec<Token>,
    at: usize,
    resolving: bool,
    scopes: Vec<Scope>,
    next_scope: usize,
    current: u32,
    symbols: Vec<(String, u32)>,
    unresolved: Vec<String>,
    interfaces: Vec<Vec<Signature>>,
    type_literals: Vec<Vec<Signature>>,
    next_address: u32,
}

struct Parsed {
    source: String,
    program: Program,
    scopes: Vec<Scope>,
    symbols: Vec<(String, u32)>,
    unresolved: Vec<String>,
    interfaces: Vec<Vec<Signature>>,
    type_literals: Vec<Vec<Signature>>,
}

fn parse(source: &str) -> Parsed {
    let (list, comments) = tokens(source);
    let mut parser = Parser {
        source: source.to_string(),
        tokens: list,
        at: 0,
        resolving: false,
        scopes: vec![Scope { parent_id: None, flags: ScopeFlags::block() }],
        next_scope: 1,
        current: 0,
        symbols: Vec::new(),
        unresolved: Vec::new(),
        interfaces: Vec::new(),
        type_literals: Vec::new(),
        next_address: 1,
    };
    parser.program();
    parser.at = 0;
    parser.resolving = true;
    parser.next_scope = 1;
    parser.next_address = 1;
    parser.interfaces.clear();
    parser.type_literals.clear();
    let body = parser.program();
    Parsed {
        source: parser.source,
        program: Program { comments, body },
        scopes: parser.scopes,
        symbols: parser.symbols,
        unresolved: parser.unresolved,
        interfaces: parser.interfaces,
        type_literals: parser.type_literals,
    }
}

impl Parser {
    fn token(&self) -> &Token {
        &self.tokens[self.at]
    }

    fn ahead(&self, n: usize) -> &Token {
        &self.tokens[(self.at + n).min(self.tokens.len() - 1)]
    }

    fn is(&self, text: &str) -> bool {
        let token = self.token();
        (token.kind == Kind::Word || token.kind == Kind::Mark) && token.text == text
    }

    fn is_ahead(&self, n: usize, text: &str) -> bool {
        let token = self.ahead(n);
        (token.kind == Kind::Word || token.kind == Kind::Mark) && token.text == text
    }

    fn start(&self) -> u32 {
        self.token().start
    }

    fn span_from(&self, start: u32) -> Span {
        Span { start, end: self.tokens[self.at - 1].end }
    }

    fn eat(&mut self, text: &str) -> bool {
        if self.is(text) {
            self.at += 1;
            true
        } else {
            false
        }
    }

    fn expect(&mut self, text: &str) {
        assert!(self.eat(text), "{text} expected at {:?} in {}", self.token(), self.source);
    }

    fn word(&mut self) -> String {
        assert_eq!(self.token().kind, Kind::Word, "in {}", self.source);
        self.at += 1;
        self.tokens[self.at - 1].text.clone()
    }

    fn end_statement(&mut self) {
        if !self.eat(";") {
            let token = self.token();
            assert!(
                token.kind == Kind::End || token.text == "}" || token.after_line_break,
                "end of statement expected at {token:?} in {}",
                self.source
            );
        }
    }

    fn address(&mut self) -> u32 {
        self.next_address += 1;
        self.next_address - 1
    }

    fn enter(&mut self, flags: ScopeFlags) -> (u32, u32) {
        let outer = self.current;
        let scope = self.next_scope;
        self.next_scope += 1;
        if !self.resolving {
            self.scopes.push(Scope { parent_id: Some(outer), flags });
        }
        self.current = scope as u32;
        (scope as u32, outer)
    }

    fn declared(&self, name: &str, scope: u32) -> Option<u32> {
        self.symbols.iter().position(|s| s.0 == name && s.1 == scope).map(|i| i as u32)
    }

    fn declare(&mut self, name: &str, scope: u32) -> u32 {
        if let Some(symbol) = self.declared(name, scope) {
            return symbol;
        }
        assert!(!self.resolving);
        self.symbols.push((name.to_string(), scope));
        self.symbols.len() as u32 - 1
    }

    fn hoist_scope(&self) -> u32 {
        let mut scope = self.current;
        while !self.scopes[scope as usize].flags.is_function {
            match self.scopes[scope as usize].parent_id {
                Some(parent) => scope = parent,
                None => return scope,
            }
        }
        scope
    }

    fn resolve(&mut self, name: &str) -> Option<u32> {
        let mut scope = Some(self.current);
        while let Some(id) = scope {
            if let Some(symbol) = self.declared(name, id) {
                return Some(symbol);
            }
            scope = self.scopes[id as usize].parent_id;
        }
        if self.resolving {
            self.unresolved.push(name.to_string());
        }
        None
    }

    fn reference(&mut self) -> IdentifierReference {
        let start = self.start();
        let name = self.word();
        IdentifierReference {
            span: self.span_from(start),
            symbol_id: self.resolve(&name),
            name,
            is_read: true,
            is_write: false,
        }
    }

    fn binding(&mut self, scope: u32) -> BindingIdentifier {
        let start = self.start();
        let name = self.word();
        let symbol_id = self.declare(&name, scope);
        BindingIdentifier { span: self.span_from(start), name, symbol_id }
    }

    fn pattern(&mut self, scope: u32) -> BindingPattern {
        if !self.is("{") {
            return BindingPattern::Identifier(self.binding(scope));
        }
        let start = self.start();
        self.expect("{");
        let mut properties = Vec::new();
        while !self.eat("}") {
            let name = self.token().text.clone();
            let value = BindingPattern::Identifier(self.binding(scope));
            properties.push(BindingProperty { key: PropertyKey::StaticIdentifier(name), value });
            self.eat(",");
        }
        let span = self.span_from(start);
        BindingPattern::Object(Box::new(ObjectPattern { span, properties, rest: None }))
    }

    fn annotation(&mut self) {
        if self.eat(":") {
            self.word();
        }
    }

    fn params(&mut self) -> FormalParameters {
        let scope = self.current;
        let mut items = Vec::new();
        let mut rest = None;
        self.expect("(");
        while !self.eat(")") {
            if self.eat("...") {
                rest = Some(self.pattern(scope));
            } else {
                items.push(self.pattern(scope));
                self.annotation();
            }
            self.eat(",");
        }
        FormalParameters { decorators: Vec::new(), items, rest }
    }

    fn program(&mut self) -> Vec<Statement> {
        let mut body = Vec::new();
        while self.token().kind != Kind::End {
            body.push(self.statement());
        }
        body
    }

    fn statements(&mut self) -> Vec<Statement> {
        self.expect("{");
        let mut body = Vec::new();
        while !self.eat("}") {
            body.push(self.statement());
        }
        body
    }

    fn block(&mut self) -> BlockStatement {
        let start = self.start();
        let (scope_id, outer) = self.enter(ScopeFlags::block());
        let body = self.statements();
        self.current = outer;
        BlockStatement { span: self.span_from(start), scope_id, body }
    }

    fn statement(&mut self) -> Statement {
        let start = self.start();
        if self.is("{") {
            return Statement::Block(self.block());
        }
        if self.eat(";") {
            let span = self.span_from(start);
            return Statement::Other(Box::new(OtherStatement { span, children: Vec::new() }));
        }
        if self.token().kind == Kind::Word {
            match self.token().text.as_str() {
                "import" => return Statement::Import(self.import()),
                "export" => return self.export(),
                "var" | "let" | "const" => {
                    let declaration = self.variables();
                    self.end_statement();
                    return Statement::Declaration(Declaration::Variable(declaration));
                }
                "function" => return Statement::Declaration(self.function_declaration()),
                "async" if self.is_ahead(1, "function") => {
                    return Statement::Declaration(self.function_declaration());
                }
                "class" => {
                    let class = self.class(ClassType::ClassDeclaration);
                    return Statement::Declaration(Declaration::Class(Box::new(class)));
                }
                "interface" => {
                    self.at += 1;
                    self.word();
                    let members = self.signatures();
                    self.interfaces.push(members);
                    return Statement::Declaration(Declaration::TypeOnly(self.span_from(start)));
                }
                "type" => {
                    self.at += 1;
                    self.word();
                    self.expect("=");
                    let members = self.signatures();
                    self.type_literals.push(members);
                    self.end_statement();
                    return Statement::Declaration(Declaration::TypeOnly(self.span_from(start)));
                }
                "return" => {
                    self.at += 1;
                    let ends = self.is(";") || self.is("}") || self.token().after_line_break;
                    let argument = if ends { None } else { Some(self.expression()) };
                    self.end_statement();
                    let span = self.span_from(start);
                    return Statement::Return(ReturnStatement { span, argument });
                }
                "if" => {
                    self.at += 1;
                    self.expect("(");
                    let test = self.expression();
                    self.expect(")");
                    let consequent = self.statement();
                    let alternate = if self.eat("else") { Some(self.statement()) } else { None };
                    let span = self.span_from(start);
                    return Statement::If(Box::new(IfStatement {
                        span,
                        test,
                        consequent,
                        alternate,
                    }));
                }
                "while" => {
                    self.at += 1;
                    self.expect("(");
                    let test = self.expression();
                    self.expect(")");
                    let body = self.statement();
                    let span = self.span_from(start);
                    return Statement::While(Box::new(WhileStatement { span, test, body }));
                }
                "for" => {
                    self.at += 1;
                    self.expect("(");
                    let target = self.expression();
                    let left = ForStatementLeft::AssignmentTarget(target_of(target, false));
                    self.expect("of");
                    let right = self.expression();
                    self.expect(")");
                    let body = self.statement();
                    let span = self.span_from(start);
                    return Statement::ForOf(Box::new(ForEachStatement {
                        span,
                        left,
                        right,
                        body,
                    }));
                }
                "try" => {
                    self.at += 1;
                    let block = self.block();
                    let mut handler = None;
                    if self.eat("catch") {
                        let (_, outer) = self.enter(ScopeFlags::block());
                        let mut param = None;
                        if self.eat("(") {
                            param = Some(self.pattern(self.current));
                            self.expect(")");
                        }
                        let body = self.block();
                        self.current = outer;
                        handler = Some(CatchClause { param, body });
                    }
                    let finalizer = if self.eat("finally") { Some(self.block()) } else { None };
                    let span = self.span_from(start);
                    return Statement::Try(Box::new(TryStatement {
                        span,
                        block,
                        handler,
                        finalizer,
                    }));
                }
                _ => {}
            }
        }
        let expression = self.expression();
        self.end_statement();
        Statement::Expression(ExpressionStatement { span: self.span_from(start), expression })
    }

    fn import(&mut self) -> ImportDeclaration {
        let start = self.start();
        self.expect("import");
        self.expect("{");
        let mut specifiers = Vec::new();
        while !self.eat("}") {
            let imported = self.token().text.clone();
            if self.is_ahead(1, "as") {
                self.at += 2;
            }
            let local = self.binding(0);
            specifiers.push(ImportDeclarationSpecifier::ImportSpecifier(ImportSpecifier {
                imported: ModuleExportName::IdentifierName(imported),
                local,
            }));
            self.eat(",");
        }
        self.expect("from");
        let source = self.token().text.clone();
        self.at += 1;
        self.end_statement();
        ImportDeclaration { span: self.span_from(start), source, specifiers: Some(specifiers) }
    }

    fn export(&mut self) -> Statement {
        let start = self.start();
        self.expect("export");
        let address = self.address();
        if self.eat("default") {
            let declaration = match self.function_declaration() {
                Declaration::Function(function) => ExportDefaultDeclarationKind::Function(function),
                _ => unreachable!(),
            };
            let span = self.span_from(start);
            return Statement::ExportDefault(ExportDefaultDeclaration {
                span,
                address,
                declaration,
            });
        }
        let declaration = match self.statement() {
            Statement::Declaration(declaration) => Some(declaration),
            _ => unreachable!(),
        };
        let span = self.span_from(start);
        Statement::ExportNamed(ExportNamedDeclaration { span, address, declaration })
    }

    fn variables(&mut self) -> VariableDeclaration {
        let start = self.start();
        let address = self.address();
        let (kind, scope) = match self.word().as_str() {
            "var" => (VariableDeclarationKind::Var, self.hoist_scope()),
            "let" => (VariableDeclarationKind::Let, self.current),
            _ => (VariableDeclarationKind::Const, self.current),
        };
        let mut declarations = Vec::new();
        loop {
            let start = self.start();
            let id = self.pattern(scope);
            self.annotation();
            let init = if self.eat("=") { Some(self.assignment()) } else { None };
            declarations.push(VariableDeclarator { span: self.span_from(start), id, init });
            if !self.eat(",") {
                break;
            }
        }
        VariableDeclaration { span: self.span_from(start), address, kind, declarations }
    }

    fn function_declaration(&mut self) -> Declaration {
        let function = self.function(FunctionType::FunctionDeclaration);
        Declaration::Function(Box::new(function))
    }

    fn function(&mut self, function_type: FunctionType) -> Function {
        let start = self.start();
        let address = self.address();
        let is_async = self.eat("async");
        self.expect("function");
        let generator = self.eat("*");
        let name_scope = self.current;
        let (scope_id, outer) = self.enter(ScopeFlags::function());
        let is_declaration = function_type == FunctionType::FunctionDeclaration;
        let id = if self.is("(") {
            None
        } else {
            Some(self.binding(if is_declaration { name_scope } else { scope_id }))
        };
        let params = self.params();
        let statements = self.statements();
        self.current = outer;
        Function {
            span: self.span_from(start),
            address,
            scope_id,
            function_type,
            id,
            params,
            body: Some(FunctionBody { directives: Vec::new(), statements }),
            is_async,
            generator,
            typescript_syntax: false,
        }
    }

    fn class(&mut self, class_type: ClassType) -> Class {
        let start = self.start();
        self.expect("class");
        let id = if self.is("{") { None } else { Some(self.binding(self.current)) };
        self.expect("{");
        let mut body = Vec::new();
        while !self.eat("}") {
            body.push(self.class_element());
            self.eat(";");
        }
        Class {
            span: self.span_from(start),
            class_type,
            id,
            declare: false,
            decorators: Vec::new(),
            super_class: None,
            body,
        }
    }

    fn has_modifier(&mut self, modifier: &str) -> bool {
        let next = self.ahead(1);
        let modifies = matches!(next.kind, Kind::Word | Kind::Private | Kind::Text)
            || next.text == "{"
            || next.text == "[";
        modifies && self.eat(modifier)
    }

    fn key(&mut self) -> PropertyKey {
        let token = self.token().clone();
        self.at += 1;
        match token.kind {
            Kind::Private => PropertyKey::PrivateIdentifier(token.text),
            Kind::Word | Kind::Text => PropertyKey::StaticIdentifier(token.text),
            _ => panic!("key expected at {token:?} in {}", self.source),
        }
    }

    fn class_element(&mut self) -> ClassElement {
        let start = self.start();
        let mut decorators = Vec::new();
        while self.eat("@") {
            decorators.push(Expression::Identifier(self.reference()));
        }
        let mut accessibility = None;
        if self.has_modifier("public") {
            accessibility = Some(Accessibility::Public);
        } else if self.has_modifier("protected") {
            accessibility = Some(Accessibility::Protected);
        } else if self.has_modifier("private") {
            accessibility = Some(Accessibility::Private);
        }
        let is_static = self.has_modifier("static");
        if is_static && self.is("{") {
            let body = self.statements();
            return ClassElement::StaticBlock(StaticBlock { span: self.span_from(start), body });
        }
        let is_abstract = self.has_modifier("abstract");
        let readonly = self.has_modifier("readonly");
        if self.is("[") {
            return ClassElement::IndexSignature(self.index_signature(start, readonly));
        }
        if self.has_modifier("accessor") {
            let key = self.key();
            self.annotation();
            return ClassElement::AccessorProperty(AccessorProperty {
                span: self.span_from(start),
                key,
                value: None,
                accessibility,
                is_static,
                is_abstract,
                decorators,
            });
        }
        let is_async = self.has_modifier("async");
        let mut kind = MethodDefinitionKind::Method;
        if self.has_modifier("get") {
            kind = MethodDefinitionKind::Getter;
        } else if self.has_modifier("set") {
            kind = MethodDefinitionKind::Setter;
        }
        let key = self.key();
        if matches!(&key, PropertyKey::StaticIdentifier(name) if name == "constructor") {
            kind = MethodDefinitionKind::Constructor;
        }
        let optional = self.eat("?");
        if !self.is("(") {
            self.annotation();
            let value = if self.eat("=") { Some(self.assignment()) } else { None };
            return ClassElement::PropertyDefinition(PropertyDefinition {
                span: self.span_from(start),
                key,
                value,
                accessibility,
                is_static,
                is_abstract,
                optional,
                readonly,
                decorators,
            });
        }
        let value_start = self.start();
        let address = self.address();
        let (scope_id, outer) = self.enter(ScopeFlags::function());
        let params = self.params();
        self.annotation();
        let mut body = None;
        if self.is("{") {
            body = Some(FunctionBody { directives: Vec::new(), statements: self.statements() });
        }
        self.current = outer;
        let value = Function {
            span: self.span_from(value_start),
            address,
            scope_id,
            function_type: FunctionType::FunctionExpression,
            id: None,
            params,
            body,
            is_async,
            generator: false,
            typescript_syntax: false,
        };
        ClassElement::MethodDefinition(MethodDefinition {
            span: self.span_from(start),
            kind,
            key,
            value,
            accessibility,
            is_static,
            is_abstract,
            optional,
            decorators,
        })
    }

    fn index_signature(&mut self, start: u32, readonly: bool) -> IndexSignature {
        self.expect("[");
        let parameter = Some(self.word());
        self.annotation();
        self.expect("]");
        self.annotation();
        IndexSignature { span: self.span_from(start), readonly, parameter }
    }

    fn signatures(&mut self) -> Vec<Signature> {
        self.expect("{");
        let mut members = Vec::new();
        while !self.eat("}") {
            let start = self.start();
            let readonly = self.has_modifier("readonly");
            if self.is("[") {
                members.push(Signature::Index(self.index_signature(start, readonly)));
            } else if self.is("(") || (self.is("new") && self.is_ahead(1, "(")) {
                let constructs = self.eat("new");
                self.signature_params();
                let span = self.span_from(start);
                let construct = Signature::Construct(span);
                members.push(if constructs { construct } else { Signature::Call(span) });
            } else {
                let mut kind = MethodSignatureKind::Method;
                if self.has_modifier("get") {
                    kind = MethodSignatureKind::Getter;
                } else if self.has_modifier("set") {
                    kind = MethodSignatureKind::Setter;
                }
                let key = self.key();
                let optional = self.eat("?");
                if self.is("(") {
                    self.signature_params();
                    let span = self.span_from(start);
                    members.push(Signature::Method(MethodSignature { span, key, kind, optional }));
                } else {
                    self.annotation();
                    let span = self.span_from(start);
                    members.push(Signature::Property(PropertySignature {
                        span,
                        key,
                        optional,
                        readonly,
                    }));
                }
            }
            self.eat(";");
        }
        members
    }

    fn signature_params(&mut self) {
        let (_, outer) = self.enter(ScopeFlags::function());
        self.params();
        self.current = outer;
        self.annotation();
    }

    fn expression(&mut self) -> Expression {
        self.assignment()
    }

    fn is_arrow(&self) -> bool {
        if self.token().kind == Kind::Word {
            return self.is_ahead(1, "=>");
        }
        if !self.is("(") {
            return false;
        }
        let mut depth = 0;
        for n in 0.. {
            if self.is_ahead(n, "(") {
                depth += 1;
            } else if self.is_ahead(n, ")") {
                depth -= 1;
                if depth == 0 {
                    return self.is_ahead(n + 1, "=>");
                }
            }
        }
        unreachable!()
    }

    fn arrow(&mut self) -> Expression {
        let start = self.start();
        let (scope_id, outer) = self.enter(ScopeFlags { is_function: true, is_arrow: true });
        let params = if self.is("(") {
            self.params()
        } else {
            FormalParameters {
                decorators: Vec::new(),
                items: vec![self.pattern(scope_id)],
                rest: None,
            }
        };
        self.expect("=>");
        let expression = !self.is("{");
        let statements = if expression {
            let start = self.start();
            let expression = self.assignment();
            let span = self.span_from(start);
            vec![Statement::Expression(ExpressionStatement { span, expression })]
        } else {
            self.statements()
        };
        self.current = outer;
        Expression::Arrow(Box::new(ArrowFunctionExpression {
            span: self.span_from(start),
            scope_id,
            params,
            body: FunctionBody { directives: Vec::new(), statements },
            expression,
            is_async: false,
        }))
    }

    fn assignment(&mut self) -> Expression {
        let start = self.start();
        if self.is("yield") {
            self.at += 1;
            let ends = self.is(")") || self.is("}") || self.is(";");
            let argument = if ends { None } else { Some(self.assignment()) };
            let span = self.span_from(start);
            return Expression::Yield(Box::new(YieldExpression { span, argument }));
        }
        if self.is_arrow() {
            return self.arrow();
        }
        let left = self.conditional();
        let operator = match self.token().text.as_str() {
            "=" => AssignmentOperator::Assign,
            "+=" | "-=" => AssignmentOperator::Compound,
            _ => return left,
        };
        self.at += 1;
        let left = target_of(left, operator == AssignmentOperator::Compound);
        let right = self.assignment();
        let span = self.span_from(start);
        Expression::Assignment(Box::new(AssignmentExpression { span, operator, left, right }))
    }

    fn conditional(&mut self) -> Expression {
        let start = self.start();
        let test = self.logical();
        if !self.eat("?") {
            return test;
        }
        let consequent = self.assignment();
        self.expect(":");
        let alternate = self.assignment();
        let span = self.span_from(start);
        Expression::Conditional(Box::new(ConditionalExpression {
            span,
            test,
            consequent,
            alternate,
        }))
    }

    fn logical(&mut self) -> Expression {
        let start = self.start();
        let mut left = self.sum();
        loop {
            let operator = match self.token().text.as_str() {
                "||" => LogicalOperator::Or,
                "&&" => LogicalOperator::And,
                "??" => LogicalOperator::Coalesce,
                _ => return left,
            };
            self.at += 1;
            let right = self.sum();
            let span = self.span_from(start);
            left = Expression::Logical(Box::new(LogicalExpression {
                span,
                operator,
                left,
                right,
            }));
        }
    }

    fn sum(&mut self) -> Expression {
        let start = self.start();
        let mut left = self.unary();
        while self.eat("+") {
            let right = self.unary();
            left = other(self.span_from(start), vec![left, right]);
        }
        left
    }

    fn unary(&mut self) -> Expression {
        let start = self.start();
        if self.eat("await") {
            let argument = self.unary();
            let span = self.span_from(start);
            return Expression::Await(Box::new(AwaitExpression { span, argument }));
        }
        if self.eat("new") {
            let callee = self.primary();
            let mut children = vec![callee];
            for argument in self.arguments() {
                match argument {
                    Argument::Expression(e) => children.push(e),
                    Argument::Spread(e) => children.push(e.argument),
                }
            }
            return other(self.span_from(start), children);
        }
        self.postfix()
    }

    fn arguments(&mut self) -> Vec<Argument> {
        self.expect("(");
        let mut list = Vec::new();
        while !self.eat(")") {
            let start = self.start();
            if self.eat("...") {
                let argument = self.assignment();
                let span = self.span_from(start);
                list.push(Argument::Spread(SpreadElement { span, argument }));
            } else {
                list.push(Argument::Expression(self.assignment()));
            }
            self.eat(",");
        }
        list
    }

    fn postfix(&mut self) -> Expression {
        let start = self.start();
        let mut object = self.primary();
        loop {
            if self.eat(".") {
                let token = self.token().clone();
                self.at += 1;
                let span = self.span_from(start);
                object = if token.kind == Kind::Private {
                    Expression::PrivateField(Box::new(PrivateFieldExpression {
                        span,
                        object,
                        field: token.text,
                    }))
                } else {
                    Expression::StaticMember(Box::new(StaticMemberExpression {
                        span,
                        object,
                        property: token.text,
                    }))
                };
            } else if self.eat("[") {
                let expression = self.expression();
                self.expect("]");
                let static_property_name = match &expression {
                    Expression::StringLiteral(text) => Some(text.value.clone()),
                    _ => None,
                };
                let span = self.span_from(start);
                object = Expression::ComputedMember(Box::new(ComputedMemberExpression {
                    span,
                    object,
                    expression,
                    static_property_name,
                }));
            } else if self.is("(") {
                let arguments = self.arguments();
                let span = self.span_from(start);
                object = Expression::Call(Box::new(CallExpression {
                    span,
                    callee: object,
                    arguments,
                }));
            } else {
                return object;
            }
        }
    }

    fn primary(&mut self) -> Expression {
        let start = self.start();
        let token = self.token().clone();
        match token.kind {
            Kind::Number => {
                self.at += 1;
                let span = self.span_from(start);
                return Expression::NumericLiteral(NumericLiteral { span, raw: token.text });
            }
            Kind::Text => {
                self.at += 1;
                let span = self.span_from(start);
                return Expression::StringLiteral(StringLiteral { span, value: token.text });
            }
            _ => {}
        }
        match token.text.as_str() {
            "this" => {
                self.at += 1;
                Expression::This(self.span_from(start))
            }
            "true" | "false" => {
                self.at += 1;
                let value = token.text == "true";
                Expression::BooleanLiteral(BooleanLiteral { span: self.span_from(start), value })
            }
            "function" | "async" => {
                Expression::Function(Box::new(self.function(FunctionType::FunctionExpression)))
            }
            "class" => Expression::Class(Box::new(self.class(ClassType::ClassExpression))),
            "(" => {
                self.at += 1;
                let expression = self.expression();
                self.expect(")");
                Expression::Wrapped(Box::new(WrappedExpression {
                    span: self.span_from(start),
                    wrapper: Wrapper::Parenthesized,
                    expression,
                }))
            }
            "{" => self.object(),
            "[" => {
                self.at += 1;
                let mut elements = Vec::new();
                while !self.eat("]") {
                    elements.push(self.assignment());
                    self.eat(",");
                }
                let span = self.span_from(start);
                Expression::Array(Box::new(ArrayExpression { span, elements }))
            }
            "<" => {
                self.at += 1;
                let named = self.token().text.clone();
                let name = if named.starts_with(|c: char| c.is_ascii_uppercase()) {
                    Some(self.reference())
                } else {
                    self.at += 1;
                    None
                };
                self.expect(">");
                while !self.is("<") {
                    self.at += 1;
                }
                self.expect("<");
                self.expect("/");
                self.word();
                self.expect(">");
                Expression::Jsx(Box::new(JsxElement {
                    span: self.span_from(start),
                    is_fragment: false,
                    name,
                    attributes: Vec::new(),
                    children: Vec::new(),
                    has_closing: true,
                }))
            }
            _ => Expression::Identifier(self.reference()),
        }
    }

    fn object(&mut self) -> Expression {
        let start = self.start();
        self.expect("{");
        let mut properties = Vec::new();
        while !self.eat("}") {
            let start = self.start();
            let is_short = self.is_ahead(1, ",") || self.is_ahead(1, "}");
            let (key, value) = if is_short {
                let ident = self.reference();
                (PropertyKey::StaticIdentifier(ident.name.clone()), Expression::Identifier(ident))
            } else {
                let key = self.key();
                self.expect(":");
                (key, self.assignment())
            };
            let span = self.span_from(start);
            properties.push(ObjectPropertyKind::ObjectProperty(ObjectProperty {
                span,
                key,
                value,
            }));
            self.eat(",");
        }
        let span = self.span_from(start);
        Expression::Object(Box::new(ObjectExpression { span, properties }))
    }
}

fn other(span: Span, children: Vec<Expression>) -> Expression {
    Expression::Other(Box::new(OtherExpression { span, form: OtherForm::Unnamed, children }))
}

fn target_of(expression: Expression, is_read: bool) -> AssignmentTarget {
    match expression {
        Expression::Identifier(ident) => {
            AssignmentTarget::Identifier(IdentifierReference { is_read, is_write: true, ..ident })
        }
        Expression::StaticMember(member) => AssignmentTarget::StaticMember(member),
        Expression::ComputedMember(member) => AssignmentTarget::ComputedMember(member),
        Expression::PrivateField(member) => AssignmentTarget::PrivateField(member),
        Expression::Object(object) => {
            let mut properties = Vec::new();
            for property in object.properties {
                match property {
                    ObjectPropertyKind::ObjectProperty(ObjectProperty {
                        value: Expression::Identifier(ident),
                        ..
                    }) => properties.push(AssignmentTargetProperty::Identifier(
                        AssignmentTargetPropertyIdentifier {
                            binding: IdentifierReference { is_read, is_write: true, ..ident },
                            init: None,
                        },
                    )),
                    _ => panic!("unknown target"),
                }
            }
            AssignmentTarget::Object(Box::new(ObjectAssignmentTarget {
                span: object.span,
                properties,
                rest: None,
            }))
        }
        _ => panic!("unknown target"),
    }
}

// ---------------------------------------------------------------------------------------------
// Running rules
// ---------------------------------------------------------------------------------------------

/// The nodes of a program, and what its symbols are declared and used by.
struct Nodes<'a> {
    list: Vec<AstNode<'a>>,
    parent: u32,
    scope: u32,
    declarations: Vec<(u32, u32)>,
    uses: Vec<(u32, Reference)>,
}

impl<'a> Nodes<'a> {
    fn open(&mut self, kind: AstKind<'a>) -> u32 {
        let outer = self.parent;
        self.list.push(AstNode { kind, parent_id: outer });
        self.parent = self.list.len() as u32 - 1;
        outer
    }

    fn statements(&mut self, list: &'a [Statement]) {
        for statement in list {
            self.statement(statement);
        }
    }

    fn statement(&mut self, statement: &'a Statement) {
        match statement {
            Statement::Expression(s) => self.expression(&s.expression),
            Statement::Declaration(Declaration::Variable(d)) => {
                for declarator in &d.declarations {
                    let outer = self.open(AstKind::VariableDeclarator(declarator));
                    if let BindingPattern::Identifier(id) = &declarator.id {
                        self.declarations.push((id.symbol_id, self.parent));
                    }
                    if let Some(init) = &declarator.init {
                        self.expression(init);
                    }
                    self.parent = outer;
                }
            }
            Statement::Declaration(Declaration::Function(f)) => self.function(f),
            Statement::Declaration(Declaration::Class(c)) => self.class(c),
            Statement::Return(s) => {
                if let Some(argument) = &s.argument {
                    self.expression(argument);
                }
            }
            Statement::Block(b) => self.block(b),
            Statement::If(s) => {
                self.expression(&s.test);
                self.statement(&s.consequent);
                if let Some(alternate) = &s.alternate {
                    self.statement(alternate);
                }
            }
            Statement::While(s) => {
                self.expression(&s.test);
                self.statement(&s.body);
            }
            Statement::ForOf(s) => {
                self.expression(&s.right);
                self.statement(&s.body);
            }
            Statement::Try(s) => {
                self.block(&s.block);
                if let Some(handler) = &s.handler {
                    self.block(&handler.body);
                }
                if let Some(finalizer) = &s.finalizer {
                    self.block(finalizer);
                }
            }
            _ => {}
        }
    }

    fn block(&mut self, block: &'a BlockStatement) {
        let outer = self.scope;
        self.scope = block.scope_id;
        self.statements(&block.body);
        self.scope = outer;
    }

    fn function(&mut self, function: &'a Function) {
        let outer = self.open(AstKind::Function(function));
        let outer_scope = self.scope;
        self.scope = function.scope_id;
        if let Some(body) = &function.body {
            self.statements(&body.statements);
        }
        self.scope = outer_scope;
        self.parent = outer;
    }

    fn class(&mut self, class: &'a Class) {
        let outer = self.open(AstKind::Class(class));
        for element in &class.body {
            match element {
                ClassElement::MethodDefinition(method) => self.function(&method.value),
                ClassElement::PropertyDefinition(property) => {
                    if let Some(value) = &property.value {
                        self.expression(value);
                    }
                }
                _ => {}
            }
        }
        self.parent = outer;
    }

    fn identifier(&mut self, ident: &IdentifierReference) {
        let outer = self.open(AstKind::Other);
        if let Some(symbol) = ident.symbol_id {
            let reference = Reference {
                scope_id: self.scope,
                node_id: self.parent,
                is_write: ident.is_write,
            };
            self.uses.push((symbol, reference));
        }
        self.parent = outer;
    }

    fn expression(&mut self, expression: &'a Expression) {
        match expression {
            Expression::Identifier(ident) => self.identifier(ident),
            Expression::Assignment(a) => {
                let outer = self.open(AstKind::AssignmentExpression(a));
                match &a.left {
                    AssignmentTarget::Identifier(target) => self.identifier(target),
                    AssignmentTarget::StaticMember(m) => self.expression(&m.object),
                    AssignmentTarget::PrivateField(m) => self.expression(&m.object),
                    AssignmentTarget::ComputedMember(m) => {
                        self.expression(&m.object);
                        self.expression(&m.expression);
                    }
                    _ => {}
                }
                self.expression(&a.right);
                self.parent = outer;
            }
            Expression::Function(f) => self.function(f),
            Expression::Arrow(f) => {
                let outer = self.open(AstKind::ArrowFunctionExpression(f));
                let outer_scope = self.scope;
                self.scope = f.scope_id;
                self.statements(&f.body.statements);
                self.scope = outer_scope;
                self.parent = outer;
            }
            Expression::Class(c) => self.class(c),
            Expression::Wrapped(w) => self.expression(&w.expression),
            Expression::Call(c) => {
                self.expression(&c.callee);
                for argument in &c.arguments {
                    match argument {
                        Argument::Expression(e) => self.expression(e),
                        Argument::Spread(e) => self.expression(&e.argument),
                    }
                }
            }
            Expression::Conditional(c) => {
                self.expression(&c.test);
                self.expression(&c.consequent);
                self.expression(&c.alternate);
            }
            Expression::Await(a) => self.expression(&a.argument),
            Expression::Yield(y) => {
                if let Some(argument) = &y.argument {
                    self.expression(argument);
                }
            }
            Expression::Other(o) => {
                for child in &o.children {
                    self.expression(child);
                }
            }
            Expression::StaticMember(m) => self.expression(&m.object),
            Expression::ComputedMember(m) => {
                self.expression(&m.object);
                self.expression(&m.expression);
            }
            _ => {}
        }
    }
}

fn lint(source: &str, run: impl Fn(u32, &LintContext) -> Vec<Diagnostic>) -> Vec<Diagnostic> {
    let parsed = parse(source);
    let mut nodes = Nodes {
        list: vec![AstNode { kind: AstKind::Other, parent_id: 0 }],
        parent: 0,
        scope: 0,
        declarations: Vec::new(),
        uses: Vec::new(),
    };
    nodes.statements(&parsed.program.body);
    for members in &parsed.interfaces {
        nodes.list.push(AstNode { kind: AstKind::InterfaceDeclaration(members), parent_id: 0 });
    }
    for members in &parsed.type_literals {
        nodes.list.push(AstNode { kind: AstKind::TypeLiteral(members), parent_id: 0 });
    }
    let mut symbols = Vec::new();
    for (index, (name, scope_id)) in parsed.symbols.iter().enumerate() {
        let id = index as u32;
        symbols.push(Symbol {
            name: name.clone(),
            flags: SymbolFlags::function_scoped_variable(),
            scope_id: *scope_id,
            declarations: nodes.declarations.iter().filter(|d| d.0 == id).map(|d| d.1).collect(),
            references: nodes.uses.iter().filter(|u| u.0 == id).map(|u| u.1).collect(),
        });
    }
    let scoping =
        Scoping { scopes: ScopeTree { scopes: parsed.scopes }, symbols: SymbolTable { symbols } };
    let globals = vec!["Promise".to_string(), "globalThis".to_string()];
    let count = nodes.list.len() as u32;
    let ctx = LintContext { scoping: &scoping, nodes: nodes.list, globals };
    let mut found = Vec::new();
    for id in 0..count {
        found.extend(run(id, &ctx));
    }
    found
}

fn messages(diagnostics: &[Diagnostic]) -> Vec<&str> {
    diagnostics.iter().map(|d| d.message.as_str()).collect()
}

// ---------------------------------------------------------------------------------------------
// Running transforms
// ---------------------------------------------------------------------------------------------

enum Pass {
    Signals(ReactSignals),
    Refresh(Prefresh),
}

struct Driver {
    pass: Pass,
    ctx: TransformCtx,
}

fn driver(parsed: &mut Parsed, pass: Pass, file_name: &str, is_module: bool) -> Driver {
    let scopes = ScopeTree { scopes: std::mem::take(&mut parsed.scopes) };
    let symbols = parsed
        .symbols
        .iter()
        .map(|(name, scope_id)| Symbol {
            name: name.clone(),
            flags: SymbolFlags { is_function_scoped_variable: false, is_import: false },
            scope_id: *scope_id,
            declarations: Vec::new(),
            references: Vec::new(),
        })
        .collect();
    Driver {
        pass,
        ctx: TransformCtx {
            traverse: TraverseCtx::new(scopes, SymbolTable { symbols }),
            state: TransformState {
                source_text: parsed.source.clone(),
                source_path: Some(file_name.to_string()),
                source_file_name: Some(file_name.to_string()),
                filename: file_name.rsplit_once('.').unwrap().0.to_string(),
                is_module,
                unresolved: parsed.unresolved.clone(),
                named_imports: Vec::new(),
                top_level_statements: Vec::new(),
                injected: Vec::new(),
                var_declarations: Vec::new(),
            },
        },
    }
}

impl Driver {
    fn run(&mut self, program: &mut Program) {
        match &mut self.pass {
            Pass::Signals(signals) => signals.enter_program(program, &self.ctx),
            Pass::Refresh(refresh) => refresh.enter_program(program, &mut self.ctx),
        }
        self.push(AncestorType::ProgramBody, AncestorNode::Program);
        self.statements(&mut program.body);
        self.pop();
        if let Pass::Refresh(refresh) = &self.pass {
            refresh.exit_program(program, &mut self.ctx);
        }
    }

    fn push(&mut self, ty: AncestorType, node: AncestorNode) {
        self.ctx.traverse.push_stack(Ancestor { ty, node });
    }

    fn pop(&mut self) {
        self.ctx.traverse.pop_stack();
    }

    fn statements(&mut self, list: &mut [Statement]) {
        for statement in list {
            self.statement(statement);
        }
    }

    fn statement(&mut self, statement: &mut Statement) {
        match statement {
            Statement::Expression(s) => {
                self.push(
                    AncestorType::ExpressionStatementExpression,
                    AncestorNode::ExpressionStatement(s.span),
                );
                self.expression(&mut s.expression);
                self.pop();
            }
            Statement::Return(s) => {
                self.push(AncestorType::Other, AncestorNode::Other);
                if let Some(argument) = &mut s.argument {
                    self.expression(argument);
                }
                self.pop();
            }
            Statement::Declaration(declaration) => self.declaration(declaration),
            Statement::ExportNamed(export) => {
                let facts = PlaceFacts { span: export.span, address: export.address };
                self.push(
                    AncestorType::ExportNamedDeclarationDeclaration,
                    AncestorNode::Export(facts),
                );
                if let Some(declaration) = &mut export.declaration {
                    self.declaration(declaration);
                }
                self.pop();
            }
            Statement::ExportDefault(export) => {
                let facts = PlaceFacts { span: export.span, address: export.address };
                self.push(
                    AncestorType::ExportDefaultDeclarationDeclaration,
                    AncestorNode::Export(facts),
                );
                if let ExportDefaultDeclarationKind::Function(function) = &mut export.declaration {
                    self.function(function);
                }
                self.pop();
            }
            _ => {}
        }
    }

    fn declaration(&mut self, declaration: &mut Declaration) {
        match declaration {
            Declaration::Function(function) => self.function(function),
            Declaration::Variable(variables) => {
                self.push(
                    AncestorType::VariableDeclarationDeclarations,
                    AncestorNode::variable_declaration(variables),
                );
                for declarator in &mut variables.declarations {
                    self.push(AncestorType::Other, AncestorNode::variable_declarator(declarator));
                    if let BindingPattern::Object(pattern) = &declarator.id {
                        if let Pass::Signals(signals) = &mut self.pass {
                            signals.enter_object_pattern(pattern, &self.ctx);
                        }
                    }
                    self.ctx.traverse.retag_stack(AncestorType::VariableDeclaratorInit);
                    if let Some(init) = &mut declarator.init {
                        self.expression(init);
                    }
                    self.pop();
                }
                self.pop();
            }
            _ => {}
        }
    }

    fn enter_scope(&mut self, scope_id: u32) -> (u32, u32) {
        let scoping = &mut self.ctx.traverse.scoping;
        let outer = (scoping.current_scope_id, scoping.current_hoist_scope_id);
        scoping.current_scope_id = scope_id;
        scoping.current_hoist_scope_id = scope_id;
        outer
    }

    fn leave_scope(&mut self, outer: (u32, u32)) {
        let scoping = &mut self.ctx.traverse.scoping;
        scoping.current_scope_id = outer.0;
        scoping.current_hoist_scope_id = outer.1;
    }

    fn function(&mut self, function: &mut Function) {
        let outer = self.enter_scope(function.scope_id);
        self.push(AncestorType::FunctionBody, AncestorNode::function(function));
        if let Some(body) = &mut function.body {
            self.statements(&mut body.statements);
        }
        self.pop();
        self.leave_scope(outer);
        match &mut self.pass {
            Pass::Signals(signals) => signals.exit_function(function, &mut self.ctx),
            Pass::Refresh(refresh) => refresh.exit_function(function, &mut self.ctx),
        }
    }

    fn expression(&mut self, expression: &mut Expression) {
        if let Pass::Signals(signals) = &mut self.pass {
            signals.enter_member_expression(expression, &self.ctx);
        }
        match expression {
            Expression::Call(call) => {
                match &mut self.pass {
                    Pass::Signals(signals) => signals.enter_call_expression(call, &mut self.ctx),
                    Pass::Refresh(refresh) => refresh.enter_call_expression(call, &mut self.ctx),
                }
                self.push(AncestorType::CallExpressionCallee, AncestorNode::call(call));
                self.expression(&mut call.callee);
                self.ctx.traverse.retag_stack(AncestorType::CallExpressionArguments);
                for argument in &mut call.arguments {
                    if let Argument::Expression(argument) = argument {
                        self.expression(argument);
                    }
                }
                self.pop();
            }
            Expression::Assignment(assignment) => {
                if let Pass::Signals(signals) = &mut self.pass {
                    signals.enter_member_target(&assignment.left, &self.ctx);
                }
                self.push(
                    AncestorType::AssignmentExpressionRight,
                    AncestorNode::assignment(assignment),
                );
                self.expression(&mut assignment.right);
                self.pop();
            }
            Expression::Function(function) => self.function(function),
            Expression::Arrow(arrow) => {
                let outer = self.enter_scope(arrow.scope_id);
                self.push(
                    AncestorType::ArrowFunctionExpressionBody,
                    AncestorNode::arrow(arrow),
                );
                self.statements(&mut arrow.body.statements);
                self.pop();
                self.leave_scope(outer);
            }
            Expression::Object(object) => {
                for property in &mut object.properties {
                    if let ObjectPropertyKind::ObjectProperty(property) = property {
                        self.push(
                            AncestorType::ObjectPropertyValue,
                            AncestorNode::object_property(property),
                        );
                        self.expression(&mut property.value);
                        self.pop();
                    }
                }
            }
            Expression::StaticMember(member) => {
                self.push(AncestorType::Other, AncestorNode::Other);
                self.expression(&mut member.object);
                self.pop();
            }
            Expression::Jsx(element) => {
                if let Pass::Signals(signals) = &mut self.pass {
                    if element.is_fragment {
                        signals.enter_jsx_fragment(&self.ctx);
                    } else {
                        signals.enter_jsx_element(&self.ctx);
                    }
                }
            }
            _ => {}
        }
        match &mut self.pass {
            Pass::Signals(signals) => signals.exit_expression(expression, &mut self.ctx),
            Pass::Refresh(refresh) => refresh.exit_expression(expression, &mut self.ctx),
        }
    }
}

// ---------------------------------------------------------------------------------------------
// Writing programs
// ---------------------------------------------------------------------------------------------

struct Printer {
    source: String,
    state: TransformState,
    comments: Vec<Comment>,
    out: String,
    depth: usize,
}

impl Printer {
    fn line(&mut self, text: &str) {
        for _ in 0..self.depth {
            self.out.push('\t');
        }
        self.out.push_str(text);
        self.out.push('\n');
    }

    fn at(&self, span: Span) -> String {
        self.source[span.start as usize..span.end as usize].to_string()
    }

    fn program(&mut self, body: &[Statement]) {
        let added = std::mem::take(&mut self.state.var_declarations);
        for var in &added {
            assert_eq!(var.scope_id, 0);
        }
        let mut is_started = false;
        for statement in body {
            if !is_started && !matches!(statement, Statement::Import(_)) {
                is_started = true;
                for import in std::mem::take(&mut self.state.named_imports) {
                    let (name, local) = (&import.imported, &import.local.name);
                    self.line(&format!("import {{ {name} as {local} }} from '{}';", import.source));
                }
                for statement in std::mem::take(&mut self.state.top_level_statements) {
                    self.statement(&statement);
                }
                for var in &added {
                    let init = self.expression(&var.init);
                    self.line(&format!("var {} = {init};", var.binding.name));
                }
            }
            self.statement(statement);
        }
    }

    fn statements(&mut self, body: &[Statement]) {
        self.depth += 1;
        for statement in body {
            self.statement(statement);
        }
        self.depth -= 1;
    }

    fn inject_after(&mut self, address: u32) {
        let all = std::mem::take(&mut self.state.injected);
        let (here, rest): (Vec<_>, Vec<_>) = all.into_iter().partition(|s| s.address == address);
        self.state.injected = rest;
        for injected in here {
            self.statement(&injected.statement);
        }
    }

    fn comments_before(&self, start: u32) -> String {
        let mut text = String::new();
        for comment in &self.comments {
            if comment.attached_to == start {
                text.push_str(&format!("/*{}*/ ", self.at(comment.content)));
            }
        }
        text
    }

    fn statement(&mut self, statement: &Statement) {
        match statement {
            Statement::Expression(s) => {
                let text = self.expression(&s.expression);
                self.line(&format!("{text};"));
            }
            Statement::Return(s) => {
                let value = s.argument.as_ref().map(|e| format!(" {}", self.expression(e)));
                self.line(&format!("return{};", value.unwrap_or_default()));
            }
            Statement::Import(s) => {
                let text = self.at(s.span);
                self.line(&text);
            }
            Statement::Try(s) => {
                self.line("try {");
                self.statements(&s.block.body);
                self.line("} finally {");
                self.statements(&s.finalizer.as_ref().unwrap().body);
                self.line("}");
            }
            Statement::Declaration(declaration) => self.declaration("", declaration),
            Statement::ExportNamed(s) => {
                self.declaration("export ", s.declaration.as_ref().unwrap());
                self.inject_after(s.address);
            }
            Statement::ExportDefault(s) => {
                match &s.declaration {
                    ExportDefaultDeclarationKind::Function(function) => {
                        self.function("export default ", function);
                    }
                    _ => panic!("unknown export"),
                }
                self.inject_after(s.address);
            }
            _ => panic!("unknown statement"),
        }
    }

    fn function(&mut self, before: &str, function: &Function) {
        let comments = self.comments_before(function.span.start);
        let name = function.id.as_ref().map_or("", |id| id.name.as_str());
        self.line(&format!("{before}{comments}function {name}() {{"));
        self.statements(&function.body.as_ref().unwrap().statements);
        self.line("}");
    }

    fn declaration(&mut self, before: &str, declaration: &Declaration) {
        match declaration {
            Declaration::Function(function) => {
                self.function(before, function);
                self.inject_after(function.address);
            }
            Declaration::Class(class) => {
                let text = self.at(class.span);
                self.line(&format!("{before}{text}"));
            }
            Declaration::Variable(variables) => {
                let kind = match variables.kind {
                    VariableDeclarationKind::Var => "var",
                    VariableDeclarationKind::Let => "let",
                    VariableDeclarationKind::Const => "const",
                };
                let mut parts = Vec::new();
                for declarator in &variables.declarations {
                    let name = match &declarator.id {
                        BindingPattern::Identifier(id) => id.name.clone(),
                        BindingPattern::Object(pattern) => self.at(pattern.span),
                        _ => panic!("unknown pattern"),
                    };
                    parts.push(match &declarator.init {
                        Some(init) => format!("{name} = {}", self.expression(init)),
                        None => name,
                    });
                }
                self.line(&format!("{before}{kind} {};", parts.join(", ")));
                self.inject_after(variables.address);
            }
            _ => panic!("unknown declaration"),
        }
    }

    fn arguments(&mut self, arguments: &[Argument]) -> String {
        let mut parts = Vec::new();
        for argument in arguments {
            parts.push(match argument {
                Argument::Expression(e) => self.expression(e),
                Argument::Spread(e) => format!("...{}", self.expression(&e.argument)),
            });
        }
        parts.join(", ")
    }

    fn target(&mut self, target: &AssignmentTarget) -> String {
        match target {
            AssignmentTarget::Identifier(ident) => ident.name.clone(),
            AssignmentTarget::StaticMember(m) => {
                format!("{}.{}", self.expression(&m.object), m.property)
            }
            AssignmentTarget::ComputedMember(m) => {
                format!("{}[{}]", self.expression(&m.object), self.expression(&m.expression))
            }
            _ => panic!("unknown target"),
        }
    }

    fn body(&mut self, statements: &[Statement]) -> String {
        let outer = std::mem::take(&mut self.out);
        self.statements(statements);
        let text = std::mem::replace(&mut self.out, outer);
        format!("{{\n{text}{}}}", "\t".repeat(self.depth))
    }

    fn expression(&mut self, expression: &Expression) -> String {
        match expression {
            Expression::Identifier(ident) => ident.name.clone(),
            Expression::StringLiteral(text) => format!("'{}'", text.value),
            Expression::NumericLiteral(number) => number.raw.clone(),
            Expression::BooleanLiteral(literal) => literal.value.to_string(),
            Expression::TemplateLiteral(template) => {
                let mut text = String::from("`");
                for (index, quasi) in template.quasis.iter().enumerate() {
                    text.push_str(&quasi.raw);
                    if index < template.expressions.len() {
                        let part = self.expression(&template.expressions[index]);
                        text.push_str(&format!("${{{part}}}"));
                    }
                }
                text.push('`');
                text
            }
            Expression::MetaProperty(meta) => format!("{}.{}", meta.meta, meta.property),
            Expression::StaticMember(m) => {
                format!("{}.{}", self.expression(&m.object), m.property)
            }
            Expression::ComputedMember(m) => {
                format!("{}[{}]", self.expression(&m.object), self.expression(&m.expression))
            }
            Expression::Call(call) => {
                let callee = self.expression(&call.callee);
                format!("{callee}({})", self.arguments(&call.arguments))
            }
            Expression::Function(function) => {
                let body = self.body(&function.body.as_ref().unwrap().statements);
                format!("function() {body}")
            }
            Expression::Arrow(arrow) => {
                let mut names = Vec::new();
                for item in &arrow.params.items {
                    if let BindingPattern::Identifier(id) = item {
                        names.push(id.name.clone());
                    }
                }
                let body = match &arrow.body.statements[..] {
                    [Statement::Expression(s)] if arrow.expression => {
                        self.expression(&s.expression)
                    }
                    statements => self.body(statements),
                };
                format!("({}) => {body}", names.join(", "))
            }
            Expression::Assignment(assignment) => {
                let left = self.target(&assignment.left);
                let operator = match assignment.operator {
                    AssignmentOperator::Assign => "=",
                    AssignmentOperator::Compound => "+=",
                };
                format!("{left} {operator} {}", self.expression(&assignment.right))
            }
            Expression::Logical(logical) => {
                let left = self.expression(&logical.left);
                let right = self.expression(&logical.right);
                match &logical.right {
                    Expression::Assignment(_) => format!("{left} || ({right})"),
                    _ => format!("{left} || {right}"),
                }
            }
            Expression::Object(object) => {
                let mut parts = Vec::new();
                for property in &object.properties {
                    if let ObjectPropertyKind::ObjectProperty(property) = property {
                        let key = match &property.key {
                            PropertyKey::StaticIdentifier(name) => name.clone(),
                            _ => panic!("unknown key"),
                        };
                        parts.push(format!("{key}: {}", self.expression(&property.value)));
                    }
                }
                format!("{{ {} }}", parts.join(", "))
            }
            Expression::Array(array) => {
                let parts: Vec<String> =
                    array.elements.iter().map(|e| self.expression(e)).collect();
                format!("[{}]", parts.join(", "))
            }
            Expression::Shared(shared) => self.expression(shared),
            _ => self.at(expression.span()),
        }
    }
}

fn transform(source: &str, pass: Pass, file_name: &str, is_module: bool) -> String {
    let mut parsed = parse(source);
    let mut driver = driver(&mut parsed, pass, file_name, is_module);
    driver.run(&mut parsed.program);
    let mut printer = Printer {
        source: parsed.source,
        state: driver.ctx.state,
        comments: parsed.program.comments,
        out: String::new(),
        depth: 0,
    };
    printer.program(&parsed.program.body);
    printer.out
}

/// The references that a transform makes: `?` is after names that are not bound, and `=` after
/// those that are written; the scope comes last.
fn references(source: &str, pass: Pass, is_module: bool) -> Vec<String> {
    let mut parsed = parse(source);
    let mut driver = driver(&mut parsed, pass, "a.jsx", is_module);
    driver.run(&mut parsed.program);
    let scoping = &driver.ctx.traverse.scoping;
    let mut list = Vec::new();
    for made in &scoping.made {
        assert_ne!(made.is_read, made.is_write);
        if let Some(symbol_id) = made.symbol_id {
            assert_eq!(scoping.symbols.symbols[symbol_id as usize].name, made.name);
        }
        let unbound = if made.symbol_id.is_none() { "?" } else { "" };
        let written = if made.is_write { "=" } else { "" };
        list.push(format!("{}{unbound}{written} {}", made.name, made.scope_id));
    }
    list
}

fn refresh(source: &str, file_name: &str, options: PrefreshOptions) -> String {
    transform(source, Pass::Refresh(Prefresh::new(&options)), file_name, true)
}

fn track(source: &str, file_name: &str, is_module: bool, options: ReactSignalsOptions) -> String {
    transform(source, Pass::Signals(ReactSignals::new(&options)), file_name, is_module)
}

// ---------------------------------------------------------------------------------------------
// Names of `this`
// ---------------------------------------------------------------------------------------------

fn names_of_this(source: &str, aliases: &[&str]) -> Vec<Diagnostic> {
    let rule = if aliases.is_empty() {
        ConsistentThis::default()
    } else {
        let items = aliases.iter().map(|alias| ConfigValue::Text(alias.to_string())).collect();
        ConsistentThis::from_configuration(&ConfigValue::Array(items))
    };
    lint(source, |node, ctx| rule.run(node, ctx))
}

#[test]
fn consistent_this_test() {
    let pass: Vec<(&str, &[&str])> = vec![
        ("var foo = 42, that = this", &[]),
        ("var that = (this)", &[]),
        ("that = (this)", &[]),
        ("var foo = 42, self = this", &["self"]),
        ("var self = 42", &["that"]),
        ("var self", &["that"]),
        ("var self; self = this", &["self"]),
        ("var foo, self; self = this", &["self"]),
        ("var foo, self; foo = 42; self = this", &["self"]),
        ("self = 42", &["that"]),
        ("var foo = {}; foo.bar = this", &["self"]),
        ("var self = this; var vm = this;", &["self", "vm"]),
        ("var self; var self = this", &["self"]),
        ("var self = this; var self", &["self"]),
    ];
    let fail: Vec<(&str, &[&str])> = vec![
        ("var context = this", &[]),
        ("var context = (this)", &[]),
        ("var that = this", &["self"]),
        ("var foo = 42, self = this", &["that"]),
        ("var self = 42", &["self"]),
        ("var self", &["self"]),
        ("var self; self = 42", &["self"]),
        ("context = this", &["that"]),
        ("that = this", &["self"]),
        ("self = this", &["that"]),
        ("self += this", &["self"]),
        ("var self; var self = 42", &["self"]),
        ("var self = 42; var self", &["self"]),
        ("var self; (function() { self = this; }())", &["self"]),
        ("var self; (function() { self = this; }())", &["self"]),
    ];
    for (source, aliases) in pass {
        let found = names_of_this(source, aliases);
        assert!(found.is_empty(), "{source}: {found:?}");
    }
    for (source, aliases) in fail {
        assert!(!names_of_this(source, aliases).is_empty(), "{source}");
    }
}

#[test]
fn names_of_this_are_reported_where_they_stand() {
    let found = names_of_this("var that = 42;", &[]);
    assert_eq!(messages(&found), ["Designated alias 'that' is not assigned to 'this'."]);
    assert_eq!(found[0].span, Span { start: 4, end: 13 });
    let found = names_of_this("var self = this;", &[]);
    assert_eq!(messages(&found), ["Unexpected alias 'self' for 'this'."]);
    let found = names_of_this("var that;", &[]);
    assert_eq!(messages(&found), ["Designated alias 'that' is not assigned to 'this'."]);
    assert_eq!(found[0].span, Span { start: 4, end: 8 });
    let found = names_of_this("that = 42; self = this;", &[]);
    assert_eq!(
        messages(&found),
        [
            "Designated alias 'that' is not assigned to 'this'.",
            "Unexpected alias 'self' for 'this'."
        ]
    );
    assert_eq!(found[1].span, Span { start: 11, end: 22 });
    assert!(found[0].help.is_none());
}

// ---------------------------------------------------------------------------------------------
// Updates across suspensions
// ---------------------------------------------------------------------------------------------

fn updates(source: &str, allow_properties: bool) -> Vec<Diagnostic> {
    let rule = RequireAtomicUpdates(ConfigElement0 { allow_properties });
    lint(source, |node, ctx| rule.run(node, ctx))
}

#[test]
fn require_atomic_updates_test() {
    let pass = vec![
        ("let foo; async function x() { foo += bar; }", false),
        ("let foo; async function x() { foo = foo + bar; }", false),
        ("let foo; async function x() { foo = await bar + foo; }", false),
        ("async function x() { let foo; foo += await bar; }", false),
        ("let foo; async function x() { foo = (await result)(foo); }", false),
        ("let foo; async function x() { foo = bar(await something, foo) }", false),
        ("function* x() { let foo; foo += yield bar; }", false),
        ("const foo = {}; async function x() { foo.bar = await baz; }", false),
        ("const foo = []; async function x() { foo[x] += 1;  }", false),
        ("let foo; function* x() { foo = bar + foo; }", false),
        ("async function x() { let foo; bar(() => baz += 1); foo += await amount; }", false),
        ("let foo; async function x() { foo = condition ? foo : await bar; }", false),
        (
            "async function x() { let foo; bar(() => { let foo; blah(foo); }); foo += await result; }",
            false,
        ),
        ("let foo; async function x() { foo = foo + 1; await bar; }", false),
        ("async function x() { foo += await bar; }", false),
        (
            "
                        async function f() {
                            let records
                            records = await a.records
                            g(() => { records })
                        }
                    ",
            false,
        ),
        (
            "
                        async function f() {
                            try {
                                this.foo = doSomething();
                            } catch (e) {
                                this.foo = null;
                                await doElse();
                            }
                        }
                    ",
            false,
        ),
        (
            "
                        async function f(foo) {
                            let bar = await get(foo.id);
                            bar.prop = foo.prop;
                        }
                    ",
            false,
        ),
        (
            "
                        async function f(foo) {
                            let bar = await get(foo.id);
                            foo = bar.prop;
                        }
                    ",
            false,
        ),
        (
            "
                        async function f() {
                            let foo = {}
                            let bar = await get(foo.id);
                            foo.prop = bar.prop;
                        }
                    ",
            false,
        ),
        (
            "
                        let count = 0
                        let queue = []
                        async function A(...args) {
                            count += 1
                            await new Promise(resolve=>resolve())
                            count -= 1
                            return
                        }
                    ",
            false,
        ),
        (
            "
                        async function run() {
                          {
                            let entry;
                            await entry;
                          }
                          {
                            let entry;
                            () => entry;

                            entry = 1;
                          }
                        }
                    ",
            false,
        ),
        (
            "
                        async function run() {
                            await a;
                            b = 1;
                        }
                    ",
            false,
        ),
        (
            "
                            async function a(foo) {
                                if (foo.bar) {
                                    foo.bar = await something;
                                }
                            }
                        ",
            true,
        ),
        (
            "
                            function* g(foo) {
                                baz = foo.bar;
                                yield something;
                                foo.bar = 1;
                            }
                        ",
            true,
        ),
    ];
    let fail = vec![
        ("let foo; async function x() { foo += await amount; }", false),
        ("if (1); let foo; async function x() { foo += await amount; }", false),
        ("let foo; async function x() { while (condition) { foo += await amount; } }", false),
        ("let foo; async function x() { foo = foo + await amount; }", false),
        ("let foo; async function x() { foo = foo + (bar ? baz : await amount); }", false),
        ("let foo; async function x() { foo = foo + (bar ? await amount : baz); }", false),
        (
            "let foo; async function x() { foo = condition ? foo + await amount : somethingElse; }",
            false,
        ),
        (
            "let foo; async function x() { foo = (condition ? foo : await bar) + await bar; }",
            false,
        ),
        ("let foo; async function x() { foo += bar + await amount; }", false),
        ("async function x() { let foo; bar(() => foo); foo += await amount; }", false),
        ("let foo; function* x() { foo += yield baz }", false),
        ("let foo; async function x() { foo = bar(foo, await something) }", false),
        ("const foo = {}; async function x() { foo.bar += await baz }", false),
        ("const foo = []; async function x() { foo[bar].baz += await result;  }", false),
        ("const foo = {}; class C { #bar; async wrap() { foo.#bar += await baz } }", false),
        ("let foo; async function* x() { foo = (yield foo) + await bar; }", false),
        ("let foo; async function x() { foo = foo + await result(foo); }", false),
        ("let foo; async function x() { foo = await result(foo, await somethingElse); }", false),
        ("function* x() { let foo; yield async function y() { foo += await bar; } }", false),
        ("let foo; async function* x() { foo = await foo + (yield bar); }", false),
        ("let foo; async function x() { foo = bar + await foo; }", false),
        (
            "let foo = {}; async function x() { foo[bar].baz = await (foo.bar += await foo[bar].baz) }",
            false,
        ),
        ("let foo = ''; async function x() { foo += await bar; }", false),
        ("let foo = 0; async function x() { foo = (a ? b : foo) + await bar; if (baz); }", false),
        (
            "let foo = 0; async function x() { foo = (a ? b ? c ? d ? foo : e : f : g : h) + await bar; if (baz); }",
            false,
        ),
        (
            "
                            async function f(foo) {
                                let buz = await get(foo.id);
                                foo.bar = buz.bar;
                            }
                        ",
            false,
        ),
        (
            "
                            async function a(foo) {
                                if (foo.bar) {
                                    foo.bar = await something;
                                }
                            }
                        ",
            false,
        ),
        (
            "
                            function* g(foo) {
                                baz = foo.bar;
                                yield something;
                                foo.bar = 1;
                            }
                        ",
            false,
        ),
        (
            "
                            async function a(foo) {
                                if (foo.bar) {
                                    foo.bar = await something;
                                }
                            }
                        ",
            RequireAtomicUpdates::default().0.allow_properties,
        ),
        (
            "
                            function* g(foo) {
                                baz = foo.bar;
                                yield something;
                                foo.bar = 1;
                            }
                        ",
            RequireAtomicUpdates::default().0.allow_properties,
        ),
        (
            "
                            async function a(foo) {
                                if (foo.bar) {
                                    foo.bar = await something;
                                }
                            }
                        ",
            false,
        ),
        (
            "
                            function* g(foo) {
                                baz = foo.bar;
                                yield something;
                                foo.bar = 1;
                            }
                        ",
            false,
        ),
        (
            "
                            let foo;
                            async function a() {
                                if (foo) {
                                    foo = await something;
                                }
                            }
                        ",
            true,
        ),
        (
            "
                            let foo;
                            function* g() {
                                baz = foo;
                                yield something;
                                foo = 1;
                            }
            ",
            true,
        ),
        ("async function x() { globalThis.foo; await bar; globalThis.foo = 1; }", false),
        ("let foo; async function x() { if (foo) await bar; ({foo} = obj); }", false),
        ("let foo; async function x() { if (foo) await bar; for (foo of xs) {} }", false),
        ("let foo; async function x() { if (foo) { foo = await bar; foo = 1; } }", false),
    ];
    for (source, allow_properties) in pass {
        let found = updates(source, allow_properties);
        assert!(found.is_empty(), "{source}: {found:?}");
    }
    for (source, allow_properties) in fail {
        assert!(!updates(source, allow_properties).is_empty(), "{source}");
    }
    assert_eq!(RequireAtomicUpdates::default().0.allow_properties, false);
}

// ---------------------------------------------------------------------------------------------
// The order of members
// ---------------------------------------------------------------------------------------------

fn groups(names: &[&str]) -> Vec<MemberTypeGroup> {
    let parse = |name: &&str| MemberTypeName::parse(name.to_string()).unwrap();
    names.iter().map(|name| MemberTypeGroup::Single(parse(name))).collect()
}

fn order_of(source: &str, options: MemberOrderingOptions) -> Vec<Diagnostic> {
    let rule = MemberOrdering(Box::new(options));
    lint(source, |node, ctx| rule.run(node, ctx))
}

fn by_default(config: OrderConfig) -> MemberOrderingOptions {
    MemberOrderingOptions { default: config, ..MemberOrderingOptions::default() }
}

fn sorted(order: Order) -> MemberOrderingOptions {
    by_default(OrderConfig::Sorted(SortedOrderConfig {
        member_types: Some(MemberTypesOption::Never(Never::Never)),
        optionality_order: None,
        order,
    }))
}

fn first(optionality_order: OptionalityOrder) -> MemberOrderingOptions {
    by_default(OrderConfig::Sorted(SortedOrderConfig {
        optionality_order: Some(optionality_order),
        ..SortedOrderConfig::default()
    }))
}

#[test]
fn member_ordering_test() {
    let listed = || groups(&["signature", "method", "constructor", "field"]);
    let literals = || MemberOrderingOptions {
        type_literals: Some(OrderConfig::MemberTypes(listed())),
        ..MemberOrderingOptions::default()
    };
    let pass = vec![
        (
            "interface Foo { [z: string]: unknown; a(): void; new (): Foo; b: string; }",
            by_default(OrderConfig::MemberTypes(listed())),
        ),
        ("type Foo = { [z: string]: unknown; a(): void; new (): Foo; b: string; };", literals()),
        (
            "class Foo { public static a: string; private b: string; constructor() {} c() {} }",
            MemberOrderingOptions::default(),
        ),
        ("class Foo { b: string; a(): void; }", by_default(OrderConfig::Never(Never::Never))),
        ("interface Foo { a: string; b(): void; }", sorted(Order::Alphabetically)),
        ("interface Foo { a?: string; b: string; }", first(OptionalityOrder::OptionalFirst)),
    ];
    let fail = vec![
        (
            "interface Foo { b: string; new (): Foo; a(): void; [z: string]: unknown; }",
            by_default(OrderConfig::MemberTypes(listed())),
        ),
        ("type Foo = { b: string; a(): void; new (): Foo; [z: string]: unknown; };", literals()),
        ("class Foo { c() {} constructor() {} b: string; }", MemberOrderingOptions::default()),
        (
            "class Foo { public static a() {} public static b: string; }",
            by_default(OrderConfig::MemberTypes(groups(&[
                "public-static-field",
                "public-static-method",
            ]))),
        ),
        ("interface Foo { b(): void; a: string; }", sorted(Order::Alphabetically)),
        (
            "interface Foo { a: string; b?: string; c: string; }",
            first(OptionalityOrder::RequiredFirst),
        ),
    ];
    for (source, options) in pass {
        let found = order_of(source, options);
        assert!(found.is_empty(), "{source}: {found:?}");
    }
    for (source, options) in fail {
        assert!(!order_of(source, options).is_empty(), "{source}");
    }
}

#[test]
fn groups_out_of_order_are_named() {
    let options = by_default(OrderConfig::MemberTypes(groups(&[
        "signature",
        "method",
        "constructor",
        "field",
    ])));
    let source = "interface Foo { b: string; new (): Foo; a(): void; [z: string]: unknown; }";
    let found = order_of(source, options);
    assert_eq!(
        messages(&found),
        [
            "Member new should be declared before all field definitions.",
            "Member a should be declared before all field definitions.",
            "Member z should be declared before all field definitions.",
        ]
    );
    assert_eq!(found[0].span, Span { start: 27, end: 38 });
}

#[test]
fn the_lowest_group_that_should_come_later_is_named() {
    let parse = |name: &str| MemberTypeName::parse(name.to_string()).unwrap();
    let mixed = MemberTypeGroup::Group(vec![parse("public-static-method"), parse("constructor")]);
    let mut order = groups(&["signature"]);
    order.push(mixed);
    order.extend(groups(&["field"]));
    let source = "class Foo { constructor() {} a: string; [z: string]: unknown; }";
    let found = order_of(source, by_default(OrderConfig::MemberTypes(order)));
    assert_eq!(
        messages(&found),
        [
            "Member z should be declared before all public static method, constructor definitions."
        ]
    );
}

#[test]
fn constructs_have_orders_of_their_own() {
    let source = "class Foo { a() {} b: string; } x = class { a() {} b: string; };";
    let declared = MemberOrderingOptions {
        classes: Some(OrderConfig::Never(Never::Never)),
        ..MemberOrderingOptions::default()
    };
    let found = order_of(source, declared);
    assert_eq!(found.len(), 1);
    assert_eq!(found[0].span.start, 51);
    let expressions = MemberOrderingOptions {
        class_expressions: Some(OrderConfig::Never(Never::Never)),
        ..MemberOrderingOptions::default()
    };
    let found = order_of(source, expressions);
    assert_eq!(found.len(), 1);
    assert_eq!(found[0].span.start, 19);
    let interfaces = MemberOrderingOptions {
        interfaces: Some(OrderConfig::Never(Never::Never)),
        ..MemberOrderingOptions::default()
    };
    assert!(order_of("interface Foo { a(): void; b: string; }", interfaces).is_empty());
}

#[test]
fn names_are_sorted_as_asked() {
    let source = "interface Foo { a10: string; a9: string; B: string; }";
    let found = order_of(source, sorted(Order::Alphabetically));
    assert_eq!(
        messages(&found),
        ["Member B should be declared before member a9."]
    );
    assert!(order_of(source, sorted(Order::AlphabeticallyCaseInsensitive)).is_empty());
    assert!(order_of(source, sorted(Order::AsWritten)).is_empty());
    let found = order_of(source, sorted(Order::Natural));
    assert_eq!(
        messages(&found),
        [
            "Member a9 should be declared before member a10.",
            "Member B should be declared before member a9.",
        ]
    );
    let found = order_of(source, sorted(Order::NaturalCaseInsensitive));
    assert_eq!(messages(&found), ["Member a9 should be declared before member a10."]);
}

#[test]
fn names_that_differ_in_case_alone_are_out_of_natural_order() {
    let source = "interface Foo { a: string; A: string; a: string; a: string; }";
    let found = order_of(source, sorted(Order::NaturalCaseInsensitive));
    assert_eq!(
        messages(&found),
        [
            "Member A should be declared before member a.",
            "Member a should be declared before member A.",
        ]
    );
    assert!(order_of(source, sorted(Order::AlphabeticallyCaseInsensitive)).is_empty());
}

#[test]
fn names_are_sorted_within_their_groups() {
    let both = || {
        by_default(OrderConfig::Sorted(SortedOrderConfig {
            member_types: Some(MemberTypesOption::Types(groups(&["field", "method"]))),
            optionality_order: None,
            order: Order::Alphabetically,
        }))
    };
    let found = order_of("interface Foo { b: string; c: string; a(): void; }", both());
    assert!(found.is_empty());
    let found = order_of("interface Foo { c: string; b: string; a(): void; }", both());
    assert_eq!(messages(&found), ["Member b should be declared before member c."]);
    let source = "interface Foo { z(): void; d: string; c: string; b: string; a: string; }";
    let found = order_of(source, both());
    assert_eq!(
        messages(&found),
        [
            "Member d should be declared before all method definitions.",
            "Member c should be declared before all method definitions.",
            "Member b should be declared before all method definitions.",
            "Member a should be declared before all method definitions.",
            "Member c should be declared before member d.",
            "Member b should be declared before member c.",
        ]
    );
}

#[test]
fn optional_members_are_on_one_side() {
    let source = "interface Foo { a: string; b?: string; c: string; }";
    let found = order_of(source, first(OptionalityOrder::RequiredFirst));
    assert_eq!(messages(&found), ["Member b should be declared after all required members."]);
    let found = order_of(source, first(OptionalityOrder::OptionalFirst));
    assert_eq!(messages(&found), ["Member a should be declared after all optional members."]);
    let source = "interface Foo { a?: string; b?: string; c: string; }";
    assert!(order_of(source, first(OptionalityOrder::OptionalFirst)).is_empty());
    let source = "interface Foo { b(): void; a: string; }";
    let found = order_of(source, first(OptionalityOrder::OptionalFirst));
    assert_eq!(messages(&found), ["Member a should be declared before all method definitions."]);
}

#[test]
fn the_narrowest_type_of_a_member_counts() {
    let order = || {
        by_default(OrderConfig::MemberTypes(groups(&[
            "decorated-field",
            "#private-instance-field",
            "private-static-readonly-field",
            "abstract-field",
            "static-initialization",
            "public-accessor",
            "protected-get",
            "set",
            "method",
        ])))
    };
    let source = "class Foo {
        @observable a: string;
        #b: string;
        private static readonly c: string;
        abstract d: string;
        static { }
        accessor e: string;
        protected get f() {}
        set g() {}
        h = () => 1;
        public ignored: string;
    }";
    assert!(order_of(source, order()).is_empty());
    let found = order_of("class Foo { h = () => 1; static { } }", order());
    assert_eq!(
        messages(&found),
        ["Member static block should be declared before all method definitions."]
    );
    assert!(order_of("class Foo { h() {} h(): void; protected get f(): void; }", order()).is_empty());
}

// ---------------------------------------------------------------------------------------------
// Components that can be exchanged
// ---------------------------------------------------------------------------------------------

#[test]
fn transforms_create_context_calls() {
    let output = refresh(
        "import { createContext } from 'preact'; const Ctx = createContext(0);",
        "context.tsx",
        PrefreshOptions::default(),
    );
    let hash = hash_base36("context.tsx");

    assert!(output.contains("Object.assign("), "{output}");
    assert!(output.contains(&format!("createContext['_{}$Ctx']", hash)), "{output}");
    assert!(output.contains("{ __: 0 }"), "{output}");
}

#[test]
fn create_context_ids_capture_arrow_params() {
    let output = refresh(
        "import { createContext } from 'preact'; const make = foo => createContext(foo);",
        "closure.tsx",
        PrefreshOptions::default(),
    );

    assert!(output.contains("createContext[`"), "{output}");
    assert!(output.contains("${foo}`"), "{output}");
}

#[test]
fn registers_class_components() {
    let output = refresh("class App {}", "class-component.tsx", PrefreshOptions::default());

    assert!(output.contains("_c = App;"), "{output}");
    assert!(output.contains("$RefreshReg$(_c, 'App');"), "{output}");
}

fn full_signatures() -> PrefreshOptions {
    PrefreshOptions { emit_full_signatures: true, ..PrefreshOptions::default() }
}

#[test]
fn treats_use_signal_as_builtin_hook() {
    let output = refresh(
        "const App = () => { const value = useSignal(0); return value; };",
        "hooks.tsx",
        full_signatures(),
    );

    assert!(output.contains("_s(App, 'useSignal{value(0)}')"), "{output}");
}

#[test]
fn contexts_of_one_place_are_numbered() {
    let source = "import { createContext } from 'preact';
x.y = createContext();
x.y = createContext();
z = { key: createContext() };";
    let output = refresh(source, "a.tsx", PrefreshOptions::default());
    let file = hash_base36("a.tsx");
    let place = hash_base36("x.y");
    let first = format!("createContext['_{file}_{place}']");
    let second = format!("createContext['_{file}_{place}1']");
    let third = format!("createContext['_{file}__key']");
    assert_eq!(
        output,
        format!(
            "import {{ createContext }} from 'preact';
x.y = {first} || ({first} = createContext());
x.y = {second} || ({second} = createContext());
z = {{ key: {third} || ({third} = createContext()) }};
"
        )
    );
}

#[test]
fn functions_are_registered_and_signed() {
    let source = "export function App() { const [a] = useState(0); useStore(); }";
    let output = refresh(
        &source.replace("[a]", "a"),
        "app.tsx",
        full_signatures(),
    );
    assert_eq!(
        output,
        "var _s = $RefreshSig$();
export function App() {
\t_s();
\tconst a = useState(0);
\tuseStore();
}
_s(App, 'useState{a(0)}\\nuseStore{}', true);
_c = App;
var _c;
$RefreshReg$(_c, 'App');
"
    );
}

#[test]
fn hooks_from_outside_are_handed_on() {
    let source = "import { useStore } from 'store';
export default function App() { const a = useStore(1); return React.useReducer(f, a); }";
    let output = refresh(source, "app.tsx", full_signatures());
    assert_eq!(
        output,
        "import { useStore } from 'store';
var _s = $RefreshSig$();
export default function App() {
\t_s();
\tconst a = useStore(1);
\treturn React.useReducer(f, a);
}
_s(App, 'useStore{a}\\nuseReducer{(a)}', false, function() {
\treturn [useStore];
});
_c = App;
var _c;
$RefreshReg$(_c, 'App');
"
    );
}

#[test]
fn signatures_go_through_the_calls_round_a_component() {
    let source = "const App = memo(forwardRef(() => useRef()));";
    let output = refresh(source, "app.tsx", full_signatures());
    assert_eq!(
        output,
        "var _s = $RefreshSig$();
const App = _s(memo(_s(forwardRef(_c = _s(() => {
\t_s();
\treturn useRef();
}, 'useRef{}')), 'useRef{}')), 'useRef{}');
_c2 = App;
var _c, _c2;
$RefreshReg$(_c, 'App$memo$forwardRef');
$RefreshReg$(_c2, 'App');
"
    );
}

#[test]
fn signatures_are_hashed() {
    let source = "function App() { useState(0); }";
    let output = refresh(source, "app.tsx", PrefreshOptions::default());
    assert!(output.contains("_s(App, 'rGEI62VsuwnwPY/75ViYiWAYY24=')"), "{output}");
}

#[test]
fn other_names_of_the_runtime_are_used() {
    let options = PrefreshOptions {
        refresh_reg: "import.meta.reg".to_string(),
        refresh_sig: "self.sig".to_string(),
        emit_full_signatures: true,
    };
    let output = refresh("function App() { useId(); }", "app.tsx", options);
    assert_eq!(
        output,
        "var _s = self.sig();
function App() {
\t_s();
\tuseId();
}
_s(App, 'useId{}', true);
_c = App;
var _c;
import.meta.reg(_c, 'App');
"
    );
}

#[test]
fn what_is_no_component_is_left_alone() {
    let source = "function helper() { return 1; }\nconst value = helper();\n";
    let output = refresh(source, "a.tsx", PrefreshOptions::default());
    assert_eq!(
        output,
        "function helper() {\n\treturn 1;\n}\nconst value = helper();\n"
    );
}

#[test]
fn variables_used_as_components_are_registered() {
    let source = "const Styled = styled('div'); const Plain = make(); jsx(Styled);";
    let output = refresh(source, "a.tsx", PrefreshOptions::default());
    assert_eq!(
        output,
        "const Styled = styled('div');
_c = Styled;
const Plain = make();
jsx(Styled);
var _c;
$RefreshReg$(_c, 'Styled');
"
    );
}

#[test]
fn decorators_of_parameters_are_searched_for_components() {
    let mut parsed = parse("const Styled = styled('div'); jsx(Styled); function f(a) {}");
    let Statement::Expression(statement) = parsed.program.body.remove(1) else {
        panic!("no statement");
    };
    let pass = || Prefresh::new(&PrefreshOptions::default());
    let mut driver = driver(&mut parsed, Pass::Refresh(pass()), "a.tsx", true);
    driver.run(&mut parsed.program);
    assert!(driver.ctx.traverse.scoping.made.is_empty());
    let Statement::Declaration(Declaration::Function(function)) = &mut parsed.program.body[1]
    else {
        panic!("no function");
    };
    function.params.decorators.push(statement.expression);
    let mut refresh = pass();
    refresh.enter_program(&mut parsed.program, &mut driver.ctx);
    assert_eq!(refresh.registrations.list.len(), 1);
    assert_eq!(refresh.registrations.list[0].persistent_id, "Styled");
}

// ---------------------------------------------------------------------------------------------
// Components that read signals
// ---------------------------------------------------------------------------------------------

#[test]
fn transforms_components_in_auto_mode() {
    let output = track(
        "function MyComponent() { signal.value; return <div>Hello</div>; }",
        "Component.jsx",
        true,
        ReactSignalsOptions::default(),
    );

    assert_eq!(
        output,
        "import { useSignals as _useSignals } from '@preact/signals-react/runtime';\nfunction MyComponent() {\n\tvar _effect = _useSignals(1);\n\ttry {\n\t\tsignal.value;\n\t\treturn <div>Hello</div>;\n\t} finally {\n\t\t_effect.f();\n\t}\n}\n"
    );
}

#[test]
fn transforms_custom_hooks_in_auto_mode() {
    let output = track(
        "function useValue() { return signal.value; }",
        "useValue.js",
        true,
        ReactSignalsOptions::default(),
    );

    assert_eq!(
        output,
        "import { useSignals as _useSignals } from '@preact/signals-react/runtime';\nfunction useValue() {\n\tvar _effect = _useSignals(2);\n\ttry {\n\t\treturn signal.value;\n\t} finally {\n\t\t_effect.f();\n\t}\n}\n"
    );
}

#[test]
fn supports_manual_opt_in_for_unmanaged_functions() {
    let output = track(
        "/* @useSignals */ function render() { return signal.value; }",
        "render.js",
        true,
        ReactSignalsOptions { mode: ReactSignalsMode::Manual, ..ReactSignalsOptions::default() },
    );

    assert_eq!(
        output,
        "import { useSignals as _useSignals } from '@preact/signals-react/runtime';\n/* @useSignals */ function render() {\n\t_useSignals();\n\treturn signal.value;\n}\n"
    );
}

#[test]
fn supports_no_try_finally_mode() {
    let output = track(
        "function MyComponent() { signal.value; return <div>Hello</div>; }",
        "Component.jsx",
        true,
        ReactSignalsOptions {
            experimental: ReactSignalsExperimentalOptions { no_try_finally: true, debug: false },
            ..ReactSignalsOptions::default()
        },
    );

    assert_eq!(
        output,
        "import { useSignals as _useSignals } from '@preact/signals-react/runtime';\nfunction MyComponent() {\n\t_useSignals();\n\tsignal.value;\n\treturn <div>Hello</div>;\n}\n"
    );
}

#[test]
fn detects_pretransformed_jsx_calls() {
    let output = track(
        "import { jsx as _jsx } from 'react/jsx-runtime'; function MyComponent() { signal.value; return _jsx('div', { children: 'Hello' }); }",
        "Component.js",
        true,
        ReactSignalsOptions { detect_transformed_jsx: true, ..ReactSignalsOptions::default() },
    );

    assert_eq!(
        output,
        "import { jsx as _jsx } from 'react/jsx-runtime';\nimport { useSignals as _useSignals } from '@preact/signals-react/runtime';\nfunction MyComponent() {\n\tvar _effect = _useSignals(1);\n\ttry {\n\t\tsignal.value;\n\t\treturn _jsx('div', { children: 'Hello' });\n\t} finally {\n\t\t_effect.f();\n\t}\n}\n"
    );
}

#[test]
fn uses_require_in_commonjs_files() {
    let output = track(
        "function MyComponent() { signal.value; return <div>Hello</div>; }",
        "Component.cjs",
        false,
        ReactSignalsOptions::default(),
    );

    assert_eq!(
        output,
        "var _useSignals = require('@preact/signals-react/runtime').useSignals;\nfunction MyComponent() {\n\tvar _effect = _useSignals(1);\n\ttry {\n\t\tsignal.value;\n\t\treturn <div>Hello</div>;\n\t} finally {\n\t\t_effect.f();\n\t}\n}\n"
    );
}

#[test]
fn opting_out_wins() {
    let source = "/* @noUseSignals */ function MyComponent() { signal.value; return <div>Hello</div>; }";
    let output = track(source, "a.jsx", true, ReactSignalsOptions::default());
    assert_eq!(
        output,
        "/* @noUseSignals */ function MyComponent() {\n\tsignal.value;\n\treturn <div>Hello</div>;\n}\n"
    );
}

#[test]
fn modes_take_in_more_and_more() {
    let source = "function MyComponent() { return <div>Hello</div>; }";
    let plain = "function MyComponent() {\n\treturn <div>Hello</div>;\n}\n";
    let mode = |mode| ReactSignalsOptions { mode, ..ReactSignalsOptions::default() };
    assert_eq!(track(source, "a.jsx", true, mode(ReactSignalsMode::Manual)), plain);
    assert_eq!(track(source, "a.jsx", true, mode(ReactSignalsMode::Auto)), plain);
    let output = track(source, "a.jsx", true, mode(ReactSignalsMode::All));
    assert!(output.contains("var _effect = _useSignals(1);"), "{output}");
}

#[test]
fn one_import_serves_all_components() {
    let source = "const One = () => { a.value; return <div>Hello</div>; }; const useTwo = () => signal.value;";
    assert_eq!(
        track(source, "a.jsx", true, ReactSignalsOptions::default()),
        "import { useSignals as _useSignals } from '@preact/signals-react/runtime';
const One = () => {
\tvar _effect = _useSignals(1);
\ttry {
\t\ta.value;
\t\treturn <div>Hello</div>;
\t} finally {
\t\t_effect.f();
\t}
};
const useTwo = () => {
\tvar _effect2 = _useSignals(2);
\ttry {
\t\treturn signal.value;
\t} finally {
\t\t_effect2.f();
\t}
};
"
    );
}

#[test]
fn other_sources_and_names_for_debugging() {
    let source = "const count = signal(0);\nfunction App() { const { value } = count; return <App>Hello</App>; }";
    let options = ReactSignalsOptions {
        import_source: Some("signals".to_string()),
        experimental: ReactSignalsExperimentalOptions { debug: true, no_try_finally: false },
        ..ReactSignalsOptions::default()
    };
    assert_eq!(
        track(source, "dir.jsx", true, options),
        "import { useSignals as _useSignals } from 'signals';
const count = signal(0, { name: 'count (dir.jsx:1)' });
function App() {
\tvar _effect = _useSignals(1, 'App');
\ttry {
\t\tconst { value } = count;
\t\treturn <App>Hello</App>;
\t} finally {
\t\t_effect.f();
\t}
}
"
    );
}

#[test]
fn objects_that_make_elements_are_detected() {
    let options = || ReactSignalsOptions {
        detect_transformed_jsx: true,
        ..ReactSignalsOptions::default()
    };
    let make = |call: &str| {
        format!(
            "var R = require('react'); var R = require('react/jsx-runtime'); var {{ jsxDEV }} = require('react/jsx-dev-runtime'); function App() {{ a.value; return {call}; }}"
        )
    };
    for call in ["R.createElement('p')", "R.jsxs('p')", "R['jsx']('p')", "jsxDEV('p')"] {
        let output = track(&make(call), "a.js", false, options());
        assert!(output.contains("_effect.f();"), "{output}");
    }
    for call in ["R.jsxDEV('p')", "R.render('p')", "jsx('p')", "S.jsx('p')"] {
        let output = track(&make(call), "a.js", false, options());
        assert!(!output.contains("_effect"), "{output}");
    }
    let plain = ReactSignalsOptions::default();
    assert!(!track(&make("R.jsx('p')"), "a.js", false, plain).contains("_effect"));
}

#[test]
fn updates_are_reported_where_they_are_written() {
    let source = "let foo; async function x() { foo += await amount; }";
    let found = updates(source, false);
    assert_eq!(
        messages(&found),
        ["Possible race condition: `foo` might be reassigned based on an outdated value"]
    );
    assert_eq!(found[0].span, Span { start: 30, end: 33 });
    assert_eq!(
        found[0].help.as_deref(),
        Some("Avoid reading the variable before an `await`/`yield` and writing to it afterwards.")
    );
    let source = "const foo = {}; async function x() { foo.bar += await baz }";
    let found = updates(source, false);
    assert_eq!(
        messages(&found),
        ["Possible race condition: `foo` might be assigned based on an outdated state"]
    );
    assert_eq!(found[0].span, Span { start: 37, end: 44 });
    assert_eq!(
        found[0].help.as_deref(),
        Some("Avoid reading a property and writing to it across an `await`/`yield`.")
    );
    assert!(updates(source, true).is_empty());
    assert!(updates("let foo; function x() { foo += bar; }", false).is_empty());
}

#[test]
fn properties_can_be_left_out_of_the_reports() {
    let source =
        "let foo; const bar = {}; async function x() { bar.a += await b; foo += await c; bar.d += await e; }";
    let all = updates(source, false);
    assert_eq!(
        messages(&all),
        [
            "Possible race condition: `bar` might be assigned based on an outdated state",
            "Possible race condition: `foo` might be reassigned based on an outdated value",
            "Possible race condition: `bar` might be assigned based on an outdated state",
        ]
    );
    let found = updates(source, true);
    assert_eq!(messages(&found), [all[1].message.as_str()]);
    assert_eq!(found[0].span, all[1].span);
}

#[test]
fn assigning_to_a_signal_counts_as_a_use() {
    let source = |target: &str| {
        format!("function App() {{ {target} = x; return <p>Hello</p>; }}")
    };
    for target in ["signal.value", "signal['value']"] {
        let output = track(&source(target), "a.jsx", true, ReactSignalsOptions::default());
        assert!(output.contains("var _effect = _useSignals(1);"), "{output}");
    }
    for target in ["signal.values", "value"] {
        let output = track(&source(target), "a.jsx", true, ReactSignalsOptions::default());
        assert!(!output.contains("_effect"), "{output}");
    }
}

fn debugging(no_try_finally: bool) -> ReactSignalsOptions {
    ReactSignalsOptions {
        experimental: ReactSignalsExperimentalOptions { debug: true, no_try_finally },
        ..ReactSignalsOptions::default()
    }
}

#[test]
fn signals_are_named_once() {
    for (before, after) in [
        ("signal()", "signal(undefined, { name: 'a (a.jsx:2)' })"),
        ("useSignal(1)", "useSignal(1, { name: 'a (a.jsx:2)' })"),
        ("computed(f, { b: c })", "computed(f, { b: c, name: 'a (a.jsx:2)' })"),
        ("useComputed(f, b, c)", "useComputed(f, { name: 'a (a.jsx:2)' }, c)"),
        ("signal(1, { name: b })", "signal(1, { name: b })"),
        ("other(1)", "other(1)"),
    ] {
        let mut parsed = parse(&format!("\nconst a = {before};"));
        let pass = Pass::Signals(ReactSignals::new(&debugging(false)));
        let mut driver = driver(&mut parsed, pass, "a.jsx", true);
        driver.run(&mut parsed.program);
        let made = driver.ctx.traverse.scoping.made.len();
        assert_eq!(made, if before == "signal()" { 1 } else { 0 });
        driver.run(&mut parsed.program);
        assert_eq!(driver.ctx.traverse.scoping.made.len(), made);
        let mut printer = Printer {
            source: parsed.source,
            state: driver.ctx.state,
            comments: parsed.program.comments,
            out: String::new(),
            depth: 0,
        };
        printer.program(&parsed.program.body);
        assert_eq!(printer.out, format!("const a = {after};\n"));
    }
    let plain = track("const a = signal();", "a.jsx", true, ReactSignalsOptions::default());
    assert_eq!(plain, "const a = signal();\n");
    assert_eq!(track("signal();", "a.jsx", true, debugging(false)), "signal();\n");
}

#[test]
fn a_call_outside_the_source_needs_no_line() {
    let mut parsed = parse("const a = other();");
    let pass = ReactSignals::new(&debugging(false));
    let mut driver = driver(&mut parsed, Pass::Signals(pass), "a.jsx", true);
    let Statement::Declaration(Declaration::Variable(variables)) = &mut parsed.program.body[0]
    else {
        panic!("no variable");
    };
    let Some(Expression::Call(call)) = &mut variables.declarations[0].init else {
        panic!("no call");
    };
    call.span = Span { start: 1000, end: 1001 };
    let Pass::Signals(signals) = &mut driver.pass else {
        panic!("no pass");
    };
    signals.enter_call_expression(call, &mut driver.ctx);
    assert!(call.arguments.is_empty());
}

#[test]
fn components_come_with_references() {
    let source = "import { useStore } from 'store';
export default function App() { const a = useStore(1); return React.useReducer(f, a); }";
    let pass = || Pass::Refresh(Prefresh::new(&PrefreshOptions::default()));
    assert_eq!(
        references(source, pass(), true),
        [
            "_c= 0",
            "App 0",
            "useStore 1",
            "$RefreshSig$? 0",
            "_s 0",
            "App 0",
            "_s 0",
            "$RefreshReg$? 0",
            "_c 0",
        ]
    );
    let source = "const App = memo(() => useRef()); const Two = () => useRef();";
    assert_eq!(
        references(source, pass(), true),
        [
            "_c= 0",
            "_c2= 0",
            "App 0",
            "_c3= 0",
            "Two 0",
            "$RefreshSig$? 0",
            "_s 0",
            "_s 0",
            "_s 0",
            "$RefreshSig$? 0",
            "_s2 0",
            "Two 0",
            "_s2 0",
            "$RefreshReg$? 0",
            "_c 0",
            "$RefreshReg$? 0",
            "_c2 0",
            "$RefreshReg$? 0",
            "_c3 0",
        ]
    );
}

#[test]
fn contexts_come_with_references() {
    let source = "import { createContext } from 'preact'; const make = (a) => createContext(0);";
    let pass = || Pass::Refresh(Prefresh::new(&PrefreshOptions::default()));
    assert_eq!(references(source, pass(), true), ["a 1", "Object? 1"]);
    let source = "import { createContext } from 'preact'; x = createContext();";
    assert!(references(source, pass(), true).is_empty());
}

#[test]
fn runtime_functions_come_with_references() {
    let source = "const App = () => useRef();";
    let options = PrefreshOptions {
        refresh_reg: "import.meta.reg".to_string(),
        refresh_sig: "self.sig".to_string(),
        emit_full_signatures: true,
    };
    assert_eq!(
        references(source, Pass::Refresh(Prefresh::new(&options)), true),
        ["_c= 0", "App 0", "self? 0", "_s 0", "App 0", "_s 0", "_c 0"]
    );
}

#[test]
fn signals_come_with_references() {
    let source = "function App() { a.value; return <p>Hello</p>; } const useB = () => a.value;";
    let plain = || Pass::Signals(ReactSignals::new(&ReactSignalsOptions::default()));
    assert_eq!(
        references(source, plain(), true),
        ["_useSignals 0", "_effect 0", "_useSignals 0", "_effect2 0"]
    );
    assert_eq!(
        references(source, plain(), false),
        ["require? 0", "_useSignals 0", "_effect 0", "_useSignals 0", "_effect2 0"]
    );
    let source = "var require; function App() { a.value; return <p>Hello</p>; }";
    assert_eq!(
        references(source, Pass::Signals(ReactSignals::new(&debugging(true))), false),
        ["require 0", "_useSignals 0", "undefined? 0"]
    );
}

/// The symbols that a transform makes, each with its kind and its scope.
fn new_symbols(source: &str, pass: Pass, is_module: bool) -> Vec<String> {
    let mut parsed = parse(source);
    let count = parsed.symbols.len();
    let mut driver = driver(&mut parsed, pass, "a.jsx", is_module);
    driver.run(&mut parsed.program);
    driver.ctx.traverse.scoping.symbols.symbols[count..]
        .iter()
        .map(|symbol| {
            let kind = if symbol.flags == SymbolFlags::import() {
                "import"
            } else if symbol.flags == SymbolFlags::function_scoped_variable() {
                "var"
            } else {
                "?"
            };
            format!("{kind} {} {}", symbol.name, symbol.scope_id)
        })
        .collect()
}

#[test]
fn new_symbols_are_imports_and_variables() {
    let source = "function App() { a.value; return <p>Hello</p>; }";
    let signals = || Pass::Signals(ReactSignals::new(&ReactSignalsOptions::default()));
    assert_eq!(new_symbols(source, signals(), true), ["import _useSignals 0", "var _effect 1"]);
    assert_eq!(new_symbols(source, signals(), false), ["var _useSignals 0", "var _effect 1"]);
    let source = "const App = memo(() => useRef());";
    let pass = Pass::Refresh(Prefresh::new(&PrefreshOptions::default()));
    assert_eq!(new_symbols(source, pass, true), ["var _c 0", "var _c2 0", "var _s 0"]);
}

#[test]
fn built_in_hooks_need_no_scope_round_the_function() {
    let mut parsed = parse("useState(0); React.useRef(); f().useStore();");
    let pass = Prefresh::new(&PrefreshOptions::default());
    let mut driver = driver(&mut parsed, Pass::Refresh(pass), "a.jsx", true);
    driver.ctx.traverse.scoping.scopes.scopes[0].flags = ScopeFlags::function();
    driver.run(&mut parsed.program);
    let Pass::Refresh(refresh) = &driver.pass else {
        panic!("no pass");
    };
    assert_eq!(
        refresh.hooks.function_signature_keys.get(&0).unwrap(),
        "useState{(0)}\\nuseRef{}\\nuseStore{}"
    );
    assert!(refresh.hooks.non_builtin_hooks_callee.is_empty());
}
