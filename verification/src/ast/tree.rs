//! The syntax tree that the analysis walks.
//!
//! The tree holds, as plain data, the shapes of a Noir program that the
//! analysis distinguishes: a module is a list of items, a function has a
//! visibility and a body of statements, and an expression is a call, a
//! variable path, or some other form. Forms that no rule inspects are listed
//! by kind only, so that the traversal can name each of them and pass it by.

use crate::diagnostics::lint::Span;
use vstd::prelude::*;
use vstd::string::StringExecFns;

verus! {

/// Who may refer to an item.
#[derive(Debug, Clone, Copy, PartialEq, Eq, Structural)]
pub enum ItemVisibility {
    /// Visible in the enclosing module only.
    Private,
    /// Visible throughout the crate (`pub(crate)`).
    PublicCrate,
    /// Visible everywhere (`pub`).
    Public,
}

/// What a path starts from.
#[derive(Debug, Clone, Copy, PartialEq, Eq, Structural)]
pub enum PathKind {
    /// `crate::...`
    Crate,
    /// `dep::...`
    Dep,
    /// A path with no leading keyword.
    Plain,
    /// `super::...`
    Super,
}

/// A path of identifiers, such as `foo` or `a::b::foo`.
#[derive(Debug, Clone, PartialEq)]
pub struct Path {
    /// The identifiers of the path, in source order.
    pub segments: Vec<String>,
    /// What the path starts from.
    pub kind: PathKind,
    /// Where the path stands in the source.
    pub span: Span,
}

/// A call `func(arguments)`.
#[derive(Debug, PartialEq)]
pub struct CallExpression {
    /// The expression that is called.
    pub func: Box<Expression>,
    /// The arguments of the call, in source order.
    pub arguments: Vec<Expression>,
    /// Whether the call is a macro invocation (`func!(..)`).
    pub is_macro_call: bool,
}

/// The forms of an expression.
#[derive(Debug, PartialEq)]
pub enum ExpressionKind {
    Literal,
    Block,
    Prefix,
    Index,
    Call(Box<CallExpression>),
    MethodCall,
    Constrain,
    Constructor,
    MemberAccess,
    Cast,
    Infix,
    If,
    Match,
    Variable(Path),
    Tuple,
    Lambda,
    Parenthesized,
    Quote,
    Unquote,
    Comptime,
    Unsafe,
    AsTraitPath,
    TypePath,
    Resolved,
    Interned,
    InternedStatement,
    Error,
}

/// An expression and its place in the source.
#[derive(Debug, PartialEq)]
pub struct Expression {
    pub kind: ExpressionKind,
    pub span: Span,
}

/// The forms of a statement.
#[derive(Debug, PartialEq)]
pub enum StatementKind {
    Let,
    /// An expression in statement position.
    Expression(Expression),
    Assign,
    For,
    Loop,
    While,
    Break,
    Continue,
    Comptime,
    /// An expression followed by a semicolon.
    Semi(Expression),
    Interned,
    Error,
}

/// A statement and its place in the source.
#[derive(Debug, PartialEq)]
pub struct Statement {
    pub kind: StatementKind,
    pub span: Span,
}

/// A function declared at the top level of a module.
#[derive(Debug, PartialEq)]
pub struct FunctionDefinition {
    /// The name of the function.
    pub name: String,
    /// Where diagnostics about the function point: the span of its name.
    pub span: Span,
    /// Who may call the function.
    pub visibility: ItemVisibility,
    /// The statements of the body, in source order.
    pub body: Vec<Statement>,
}

/// The forms of a top-level item.
#[derive(Debug, PartialEq)]
pub enum ItemKind {
    Import,
    Function(FunctionDefinition),
    Struct,
    Enum,
    Trait,
    TraitImpl,
    Impl,
    TypeAlias,
    Global,
    ModuleDecl,
    Submodules,
    InnerAttribute,
}

/// A top-level item and its place in the source.
#[derive(Debug, PartialEq)]
pub struct Item {
    pub kind: ItemKind,
    pub span: Span,
}

/// A parsed module: its top-level items in source order.
#[derive(Debug, PartialEq)]
pub struct ParsedModule {
    pub items: Vec<Item>,
}

/// The characters of `segments` written one after the other, with nothing
/// in between.
pub open spec fn joined(segments: Seq<String>) -> Seq<char>
    decreases segments.len(),
{
    if segments.len() == 0 {
        Seq::empty()
    } else {
        joined(segments.drop_last()) + segments.last()@
    }
}

/// Writes `segments` one after the other, with nothing in between.
pub fn join_names(segments: &Vec<String>) -> (name: String)
    ensures
        name@ == joined(segments@),
{
    let mut name = String::new();
    let mut i: usize = 0;
    assert(segments@.take(0) =~= Seq::empty());
    while i < segments.len()
        invariant
            i <= segments.len(),
            name@ == joined(segments@.take(i as int)),
        decreases segments.len() - i,
    {
        name.append(segments[i].as_str());
        assert(segments@.take(i + 1).drop_last() =~= segments@.take(i as int));
        i = i + 1;
    }
    assert(segments@.take(i as int) =~= segments@);
    name
}

impl Path {
    /// The key under which a call of this path is recorded: its segments
    /// joined with no separator.
    pub open spec fn key(&self) -> Seq<char> {
        joined(self.segments@)
    }

    /// Computes the key under which a call of this path is recorded.
    pub fn joined_name(&self) -> (name: String)
        ensures
            name@ == self.key(),
    {
        join_names(&self.segments)
    }
}

} // verus!
