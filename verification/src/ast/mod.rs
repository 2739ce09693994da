//! The syntax tree that the passes read and rewrite.
//!
//! The tree tells apart the forms that some pass looks at. Every other expression is an
//! [`Expression::Other`] and every other statement a [`Statement::Other`], which keep what a walk
//! over the program meets in them, in the order of the walk. Names are resolved: an identifier
//! carries the symbol that it stands for.

use std::rc::Rc;
use vstd::prelude::*;

pub mod query;
pub mod shape;

verus! {

/// A symbol of the program.
pub type SymbolId = u32;

/// A scope of the program.
pub type ScopeId = u32;

/// The identity of a statement or declaration, by which others are placed next to it.
pub type Address = u32;

/// A range of the source, as byte offsets.
#[derive(Debug, Clone, Copy, PartialEq, Eq, Structural)]
pub struct Span {
    pub start: u32,
    pub end: u32,
}

impl Span {
    /// The span of a node that is in no source.
    #[verifier::allow_in_spec]
    pub fn empty() -> Span
        returns
            (Span { start: 0, end: 0 }),
    {
        Span { start: 0, end: 0 }
    }
}

/// A use of a name.
#[derive(Debug)]
pub struct IdentifierReference {
    pub span: Span,
    pub name: String,
    /// What the name is bound to; none for a name that the program does not declare.
    pub symbol_id: Option<SymbolId>,
    /// Whether the use reads the value.
    pub is_read: bool,
    /// Whether the use writes the value.
    pub is_write: bool,
}

/// A name where it is declared.
#[derive(Debug)]
pub struct BindingIdentifier {
    pub span: Span,
    pub name: String,
    pub symbol_id: SymbolId,
}

/// An expression.
#[derive(Debug)]
pub enum Expression {
    Identifier(IdentifierReference),
    This(Span),
    StringLiteral(StringLiteral),
    NumericLiteral(NumericLiteral),
    BooleanLiteral(BooleanLiteral),
    TemplateLiteral(TemplateLiteral),
    MetaProperty(MetaProperty),
    StaticMember(Box<StaticMemberExpression>),
    ComputedMember(Box<ComputedMemberExpression>),
    PrivateField(Box<PrivateFieldExpression>),
    Call(Box<CallExpression>),
    Function(Box<Function>),
    Arrow(Box<ArrowFunctionExpression>),
    Class(Box<Class>),
    Assignment(Box<AssignmentExpression>),
    Logical(Box<LogicalExpression>),
    Conditional(Box<ConditionalExpression>),
    Await(Box<AwaitExpression>),
    Yield(Box<YieldExpression>),
    Object(Box<ObjectExpression>),
    Array(Box<ArrayExpression>),
    Wrapped(Box<WrappedExpression>),
    Jsx(Box<JsxElement>),
    /// An expression that stands in several places.
    Shared(Rc<Expression>),
    Other(Box<OtherExpression>),
}

/// The expression that a shared one is.
pub open spec fn unshared(e: Rc<Expression>) -> Expression {
    *e
}

/// `Rc::clone`: the same expression once more.
#[verifier::external_body]
pub(crate) fn share(e: &Rc<Expression>) -> (r: Rc<Expression>)
    ensures
        unshared(r) == unshared(*e),
{
    Rc::clone(e)
}

#[derive(Debug)]
pub struct StringLiteral {
    pub span: Span,
    pub value: String,
}

/// A number, as it is written.
#[derive(Debug)]
pub struct NumericLiteral {
    pub span: Span,
    pub raw: String,
}

#[derive(Debug, Clone, Copy)]
pub struct BooleanLiteral {
    pub span: Span,
    pub value: bool,
}

/// A template without a tag.
#[derive(Debug)]
pub struct TemplateLiteral {
    pub span: Span,
    pub quasis: Vec<TemplateElement>,
    pub expressions: Vec<Expression>,
}

/// A piece of text in a template.
#[derive(Debug)]
pub struct TemplateElement {
    pub raw: String,
    pub tail: bool,
}

/// `import.meta` and the like.
#[derive(Debug)]
pub struct MetaProperty {
    pub span: Span,
    pub meta: String,
    pub property: String,
}

#[derive(Debug)]
pub struct StaticMemberExpression {
    pub span: Span,
    pub object: Expression,
    pub property: String,
}

#[derive(Debug)]
pub struct ComputedMemberExpression {
    pub span: Span,
    pub object: Expression,
    pub expression: Expression,
    /// The name of the property, where `expression` is one literal.
    pub static_property_name: Option<String>,
}

#[derive(Debug)]
pub struct PrivateFieldExpression {
    pub span: Span,
    pub object: Expression,
    pub field: String,
}

#[derive(Debug)]
pub struct CallExpression {
    pub span: Span,
    pub callee: Expression,
    pub arguments: Vec<Argument>,
}

/// An argument of a call.
#[derive(Debug)]
pub enum Argument {
    Spread(SpreadElement),
    Expression(Expression),
}

/// `...argument`.
#[derive(Debug)]
pub struct SpreadElement {
    pub span: Span,
    pub argument: Expression,
}

/// How a function is introduced.
#[derive(Debug, Clone, Copy, PartialEq, Eq, Structural)]
pub enum FunctionType {
    FunctionDeclaration,
    FunctionExpression,
    TSDeclareFunction,
    TSEmptyBodyFunctionExpression,
}

#[derive(Debug)]
pub struct Function {
    pub span: Span,
    pub address: Address,
    pub scope_id: ScopeId,
    pub function_type: FunctionType,
    pub id: Option<BindingIdentifier>,
    pub params: FormalParameters,
    pub body: Option<FunctionBody>,
    pub is_async: bool,
    pub generator: bool,
    /// Whether the function is there for the type checker alone.
    pub typescript_syntax: bool,
}

#[derive(Debug)]
pub struct FormalParameters {
    /// The decorators of the parameters, in order.
    pub decorators: Vec<Expression>,
    pub items: Vec<BindingPattern>,
    pub rest: Option<BindingPattern>,
}

#[derive(Debug)]
pub struct FunctionBody {
    pub directives: Vec<String>,
    pub statements: Vec<Statement>,
}

#[derive(Debug)]
pub struct ArrowFunctionExpression {
    pub span: Span,
    pub scope_id: ScopeId,
    pub params: FormalParameters,
    pub body: FunctionBody,
    /// Whether the body is one expression, which is then its only statement.
    pub expression: bool,
    pub is_async: bool,
}

/// An operator of an assignment.
#[derive(Debug, Clone, Copy, PartialEq, Eq, Structural)]
pub enum AssignmentOperator {
    Assign,
    /// An operator that reads the target first.
    Compound,
}

#[derive(Debug)]
pub struct AssignmentExpression {
    pub span: Span,
    pub operator: AssignmentOperator,
    pub left: AssignmentTarget,
    pub right: Expression,
}

#[derive(Debug, Clone, Copy, PartialEq, Eq, Structural)]
pub enum LogicalOperator {
    Or,
    And,
    Coalesce,
}

#[derive(Debug)]
pub struct LogicalExpression {
    pub span: Span,
    pub operator: LogicalOperator,
    pub left: Expression,
    pub right: Expression,
}

#[derive(Debug)]
pub struct ConditionalExpression {
    pub span: Span,
    pub test: Expression,
    pub consequent: Expression,
    pub alternate: Expression,
}

#[derive(Debug)]
pub struct AwaitExpression {
    pub span: Span,
    pub argument: Expression,
}

#[derive(Debug)]
pub struct YieldExpression {
    pub span: Span,
    pub argument: Option<Expression>,
}

#[derive(Debug)]
pub struct ObjectExpression {
    pub span: Span,
    pub properties: Vec<ObjectPropertyKind>,
}

#[derive(Debug)]
pub enum ObjectPropertyKind {
    ObjectProperty(ObjectProperty),
    SpreadProperty(Expression),
}

#[derive(Debug)]
pub struct ObjectProperty {
    pub span: Span,
    pub key: PropertyKey,
    pub value: Expression,
}

/// The key of a property, method or field.
#[derive(Debug)]
pub enum PropertyKey {
    StaticIdentifier(String),
    PrivateIdentifier(String),
    Expression(KeyExpression),
}

/// A key that is an expression.
#[derive(Debug)]
pub struct KeyExpression {
    pub expression: Expression,
    /// The name of the property, where the expression is one literal.
    pub static_name: Option<String>,
}

#[derive(Debug)]
pub struct ArrayExpression {
    pub span: Span,
    pub elements: Vec<Expression>,
}

/// What stands round an expression without changing its value.
#[derive(Debug, Clone, Copy, PartialEq, Eq, Structural)]
pub enum Wrapper {
    Parenthesized,
    TSAs,
    TSSatisfies,
    TSNonNull,
    TSTypeAssertion,
    TSInstantiation,
}

#[derive(Debug)]
pub struct WrappedExpression {
    pub span: Span,
    pub wrapper: Wrapper,
    pub expression: Expression,
}

/// A JSX element or fragment.
#[derive(Debug)]
pub struct JsxElement {
    pub span: Span,
    pub is_fragment: bool,
    /// The identifier that the name of the element starts with, where it refers to a variable.
    pub name: Option<IdentifierReference>,
    /// The expressions in the attributes.
    pub attributes: Vec<Expression>,
    /// The elements and expressions between the tags.
    pub children: Vec<Expression>,
    /// Whether there is a closing tag, which names the element again.
    pub has_closing: bool,
}

/// The forms among [`Expression::Other`] that some pass asks for.
#[derive(Debug, Clone, Copy, PartialEq, Eq, Structural)]
pub enum OtherForm {
    TaggedTemplate,
    ImportExpression,
    Unnamed,
}

#[derive(Debug)]
pub struct OtherExpression {
    pub span: Span,
    pub form: OtherForm,
    pub children: Vec<Expression>,
}

/// What an assignment writes to.
#[derive(Debug)]
pub enum AssignmentTarget {
    Identifier(IdentifierReference),
    StaticMember(Box<StaticMemberExpression>),
    ComputedMember(Box<ComputedMemberExpression>),
    PrivateField(Box<PrivateFieldExpression>),
    /// A target in a type annotation; the wrapper is never [`Wrapper::Parenthesized`].
    Wrapped(Box<WrappedExpression>),
    Array(Box<ArrayAssignmentTarget>),
    Object(Box<ObjectAssignmentTarget>),
}

#[derive(Debug)]
pub struct ArrayAssignmentTarget {
    pub span: Span,
    pub elements: Vec<Option<AssignmentTargetMaybeDefault>>,
    pub rest: Option<AssignmentTarget>,
}

#[derive(Debug)]
pub struct ObjectAssignmentTarget {
    pub span: Span,
    pub properties: Vec<AssignmentTargetProperty>,
    pub rest: Option<AssignmentTarget>,
}

/// A target with the value that it gets where there is none.
#[derive(Debug)]
pub struct AssignmentTargetMaybeDefault {
    pub binding: AssignmentTarget,
    pub init: Option<Expression>,
}

#[derive(Debug)]
pub enum AssignmentTargetProperty {
    /// `{ name }` or `{ name = init }`.
    Identifier(AssignmentTargetPropertyIdentifier),
    /// `{ name: target }`.
    Property(AssignmentTargetPropertyProperty),
}

#[derive(Debug)]
pub struct AssignmentTargetPropertyIdentifier {
    pub binding: IdentifierReference,
    pub init: Option<Expression>,
}

#[derive(Debug)]
pub struct AssignmentTargetPropertyProperty {
    pub name: PropertyKey,
    pub binding: AssignmentTargetMaybeDefault,
}

/// What a declaration binds.
#[derive(Debug)]
pub enum BindingPattern {
    Identifier(BindingIdentifier),
    Object(Box<ObjectPattern>),
    Array(Box<ArrayPattern>),
    Assignment(Box<AssignmentPattern>),
}

#[derive(Debug)]
pub struct ObjectPattern {
    pub span: Span,
    pub properties: Vec<BindingProperty>,
    pub rest: Option<BindingPattern>,
}

#[derive(Debug)]
pub struct BindingProperty {
    pub key: PropertyKey,
    pub value: BindingPattern,
}

#[derive(Debug)]
pub struct ArrayPattern {
    pub span: Span,
    pub elements: Vec<Option<BindingPattern>>,
    pub rest: Option<BindingPattern>,
}

/// A pattern with the value that it gets where there is none.
#[derive(Debug)]
pub struct AssignmentPattern {
    pub span: Span,
    pub left: BindingPattern,
    pub right: Expression,
}

/// A statement.
#[derive(Debug)]
pub enum Statement {
    Expression(ExpressionStatement),
    Declaration(Declaration),
    Import(ImportDeclaration),
    ExportNamed(ExportNamedDeclaration),
    ExportDefault(ExportDefaultDeclaration),
    /// `export * from`.
    ExportAll(Span),
    Return(ReturnStatement),
    Try(Box<TryStatement>),
    Block(BlockStatement),
    If(Box<IfStatement>),
    For(Box<ForStatement>),
    While(Box<WhileStatement>),
    ForIn(Box<ForEachStatement>),
    ForOf(Box<ForEachStatement>),
    Other(Box<OtherStatement>),
}

#[derive(Debug)]
pub struct ExpressionStatement {
    pub span: Span,
    pub expression: Expression,
}

#[derive(Debug)]
pub struct ReturnStatement {
    pub span: Span,
    pub argument: Option<Expression>,
}

#[derive(Debug)]
pub struct BlockStatement {
    pub span: Span,
    pub scope_id: ScopeId,
    pub body: Vec<Statement>,
}

#[derive(Debug)]
pub struct TryStatement {
    pub span: Span,
    pub block: BlockStatement,
    pub handler: Option<CatchClause>,
    pub finalizer: Option<BlockStatement>,
}

#[derive(Debug)]
pub struct CatchClause {
    pub param: Option<BindingPattern>,
    pub body: BlockStatement,
}

#[derive(Debug)]
pub struct IfStatement {
    pub span: Span,
    pub test: Expression,
    pub consequent: Statement,
    pub alternate: Option<Statement>,
}

#[derive(Debug)]
pub struct ForStatement {
    pub span: Span,
    pub init: Option<ForStatementInit>,
    pub test: Option<Expression>,
    pub update: Option<Expression>,
    pub body: Statement,
}

#[derive(Debug)]
pub enum ForStatementInit {
    VariableDeclaration(VariableDeclaration),
    Expression(Expression),
}

#[derive(Debug)]
pub struct WhileStatement {
    pub span: Span,
    pub test: Expression,
    pub body: Statement,
}

/// `for (left in right) body` or `for (left of right) body`.
#[derive(Debug)]
pub struct ForEachStatement {
    pub span: Span,
    pub left: ForStatementLeft,
    pub right: Expression,
    pub body: Statement,
}

#[derive(Debug)]
pub enum ForStatementLeft {
    VariableDeclaration(VariableDeclaration),
    AssignmentTarget(AssignmentTarget),
}

/// What a walk meets in a statement that has no form of its own here.
#[derive(Debug)]
pub enum StatementChild {
    Expression(Expression),
    Statement(Statement),
    BindingPattern(BindingPattern),
}

#[derive(Debug)]
pub struct OtherStatement {
    pub span: Span,
    pub children: Vec<StatementChild>,
}

#[derive(Debug)]
pub enum Declaration {
    Variable(VariableDeclaration),
    Function(Box<Function>),
    Class(Box<Class>),
    /// A type alias or an interface.
    TypeOnly(Span),
}

#[derive(Debug, Clone, Copy, PartialEq, Eq, Structural)]
pub enum VariableDeclarationKind {
    Var,
    Let,
    Const,
}

#[derive(Debug)]
pub struct VariableDeclaration {
    pub span: Span,
    pub address: Address,
    pub kind: VariableDeclarationKind,
    pub declarations: Vec<VariableDeclarator>,
}

#[derive(Debug)]
pub struct VariableDeclarator {
    pub span: Span,
    pub id: BindingPattern,
    pub init: Option<Expression>,
}

#[derive(Debug)]
pub struct ImportDeclaration {
    pub span: Span,
    pub source: String,
    pub specifiers: Option<Vec<ImportDeclarationSpecifier>>,
}

#[derive(Debug)]
pub enum ImportDeclarationSpecifier {
    ImportSpecifier(ImportSpecifier),
    ImportDefaultSpecifier(BindingIdentifier),
    ImportNamespaceSpecifier(BindingIdentifier),
}

#[derive(Debug)]
pub struct ImportSpecifier {
    pub imported: ModuleExportName,
    pub local: BindingIdentifier,
}

#[derive(Debug)]
pub enum ModuleExportName {
    IdentifierName(String),
    StringLiteral(String),
}

#[derive(Debug)]
pub struct ExportNamedDeclaration {
    pub span: Span,
    pub address: Address,
    pub declaration: Option<Declaration>,
}

#[derive(Debug)]
pub struct ExportDefaultDeclaration {
    pub span: Span,
    pub address: Address,
    pub declaration: ExportDefaultDeclarationKind,
}

#[derive(Debug)]
pub enum ExportDefaultDeclarationKind {
    Expression(Expression),
    Function(Box<Function>),
    Class(Box<Class>),
    /// An interface.
    TypeOnly(Span),
}

#[derive(Debug, Clone, Copy, PartialEq, Eq, Structural)]
pub enum ClassType {
    ClassDeclaration,
    ClassExpression,
}

#[derive(Debug)]
pub struct Class {
    pub span: Span,
    pub class_type: ClassType,
    pub id: Option<BindingIdentifier>,
    /// Whether the class is there for the type checker alone.
    pub declare: bool,
    pub decorators: Vec<Expression>,
    pub super_class: Option<Expression>,
    pub body: Vec<ClassElement>,
}

#[derive(Debug)]
pub enum ClassElement {
    StaticBlock(StaticBlock),
    MethodDefinition(MethodDefinition),
    PropertyDefinition(PropertyDefinition),
    AccessorProperty(AccessorProperty),
    IndexSignature(IndexSignature),
}

#[derive(Debug)]
pub struct StaticBlock {
    pub span: Span,
    pub body: Vec<Statement>,
}

#[derive(Debug, Clone, Copy, PartialEq, Eq, Structural)]
pub enum MethodDefinitionKind {
    Constructor,
    Method,
    Getter,
    Setter,
}

#[derive(Debug, Clone, Copy, PartialEq, Eq, Structural)]
pub enum Accessibility {
    Private,
    Protected,
    Public,
}

#[derive(Debug)]
pub struct MethodDefinition {
    pub span: Span,
    pub kind: MethodDefinitionKind,
    pub key: PropertyKey,
    pub value: Function,
    pub accessibility: Option<Accessibility>,
    pub is_static: bool,
    pub is_abstract: bool,
    pub optional: bool,
    pub decorators: Vec<Expression>,
}

#[derive(Debug)]
pub struct PropertyDefinition {
    pub span: Span,
    pub key: PropertyKey,
    pub value: Option<Expression>,
    pub accessibility: Option<Accessibility>,
    pub is_static: bool,
    pub is_abstract: bool,
    pub optional: bool,
    pub readonly: bool,
    pub decorators: Vec<Expression>,
}

#[derive(Debug)]
pub struct AccessorProperty {
    pub span: Span,
    pub key: PropertyKey,
    pub value: Option<Expression>,
    pub accessibility: Option<Accessibility>,
    pub is_static: bool,
    pub is_abstract: bool,
    pub decorators: Vec<Expression>,
}

/// `[name: type]: type` in a class, interface or type literal.
#[derive(Debug)]
pub struct IndexSignature {
    pub span: Span,
    pub readonly: bool,
    /// The name of the first parameter.
    pub parameter: Option<String>,
}

/// A member of an interface or a type literal.
#[derive(Debug)]
pub enum Signature {
    Index(IndexSignature),
    Property(PropertySignature),
    Call(Span),
    Construct(Span),
    Method(MethodSignature),
}

#[derive(Debug)]
pub struct PropertySignature {
    pub span: Span,
    pub key: PropertyKey,
    pub optional: bool,
    pub readonly: bool,
}

#[derive(Debug, Clone, Copy, PartialEq, Eq, Structural)]
pub enum MethodSignatureKind {
    Method,
    Getter,
    Setter,
}

#[derive(Debug)]
pub struct MethodSignature {
    pub span: Span,
    pub key: PropertyKey,
    pub kind: MethodSignatureKind,
    pub optional: bool,
}

/// A comment of the source.
#[derive(Debug)]
pub struct Comment {
    /// Whether the comment stands before what it belongs to.
    pub is_leading: bool,
    /// The start of what the comment belongs to.
    pub attached_to: u32,
    /// The text between the marks of the comment.
    pub content: Span,
}

#[derive(Debug)]
pub struct Program {
    pub comments: Vec<Comment>,
    pub body: Vec<Statement>,
}

} // verus!
