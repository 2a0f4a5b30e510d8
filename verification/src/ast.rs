//! The part of a PHP syntax tree that the rules read. Every node carries the
//! byte offsets of its text in the source file; names are held as bytes.
use vstd::prelude::*;

verus! {

/// Byte offsets `start..end` of a node in the source file.
#[derive(Clone, Copy, Debug, PartialEq, Eq, Structural)]
pub struct Span {
    pub start: u32,
    pub end: u32,
}

impl Span {
    /// The span from the start of `a` to the end of `b`.
    pub open spec fn spec_between(a: Span, b: Span) -> Span {
        Span { start: a.start, end: b.end }
    }

    /// The span from the start of `a` to the end of `b`.
    pub fn between(a: Span, b: Span) -> (r: Span)
        ensures
            r == Span::spec_between(a, b),
    {
        Span { start: a.start, end: b.end }
    }

    /// Whether the span lies inside a text of `len` bytes.
    pub open spec fn within(self, len: nat) -> bool {
        self.start <= self.end && self.end <= len
    }
}

/// A name as written, together with the name that resolution gave it.
#[derive(Debug)]
pub struct Identifier {
    pub span: Span,
    pub value: Vec<u8>,
    pub resolved_name: Vec<u8>,
}

/// An unqualified name, such as that of a declared function or a named argument.
#[derive(Debug)]
pub struct LocalIdentifier {
    pub span: Span,
    pub value: Vec<u8>,
}

/// A literal value; `value` is `None` where the lexer could not compute it.
#[derive(Debug)]
pub enum Literal {
    String { raw: Vec<u8>, value: Option<Vec<u8>> },
    Integer { raw: Vec<u8>, value: Option<u64> },
    Float { raw: Vec<u8> },
    True,
    False,
    Null,
}

/// A variable written with its name, such as `$this`.
#[derive(Debug)]
pub struct DirectVariable {
    pub span: Span,
    pub name: Vec<u8>,
}

#[derive(Debug)]
pub enum Variable {
    Direct(DirectVariable),
    Other,
}

/// What follows `->` or `::` in a member access.
#[derive(Debug)]
pub enum ClassLikeMemberSelector {
    Identifier(LocalIdentifier),
    Other,
}

#[derive(Debug)]
pub struct PositionalArgument {
    pub span: Span,
    pub value: Expression,
}

/// `name: value`.
#[derive(Debug)]
pub struct NamedArgument {
    pub name: LocalIdentifier,
    pub value: Expression,
}

impl NamedArgument {
    /// From the start of the name to the end of the value.
    pub open spec fn spec_span(&self) -> Span {
        Span::spec_between(self.name.span, self.value.span)
    }

    pub fn span(&self) -> (r: Span)
        ensures
            r == self.spec_span(),
    {
        Span::between(self.name.span, self.value.span)
    }
}

#[derive(Debug)]
pub enum Argument {
    Positional(PositionalArgument),
    Named(NamedArgument),
}

/// `( arguments )`: the spans are those of the two parentheses.
#[derive(Debug)]
pub struct ArgumentList {
    pub left_parenthesis: Span,
    pub arguments: Vec<Argument>,
    pub right_parenthesis: Span,
}

impl ArgumentList {
    pub open spec fn spec_span(&self) -> Span {
        Span::spec_between(self.left_parenthesis, self.right_parenthesis)
    }

    pub fn span(&self) -> (r: Span)
        ensures
            r == self.spec_span(),
    {
        Span::between(self.left_parenthesis, self.right_parenthesis)
    }
}

/// `function(arguments)`.
#[derive(Debug)]
pub struct FunctionCall {
    pub function: Box<Expression>,
    pub argument_list: ArgumentList,
}

/// `object->method(arguments)`.
#[derive(Debug)]
pub struct MethodCall {
    pub object: Box<Expression>,
    pub method: ClassLikeMemberSelector,
    pub argument_list: ArgumentList,
}

/// `Class::method(arguments)`.
#[derive(Debug)]
pub struct StaticMethodCall {
    pub class: Box<Expression>,
    pub method: ClassLikeMemberSelector,
    pub argument_list: ArgumentList,
}

#[derive(Debug)]
pub enum Call {
    Function(FunctionCall),
    Method(MethodCall),
    StaticMethod(StaticMethodCall),
}

/// `new Class(arguments)`.
#[derive(Debug)]
pub struct Instantiation {
    pub class: Box<Expression>,
    pub argument_list: Option<ArgumentList>,
}

/// `lhs <operator> rhs`.
#[derive(Debug)]
pub struct Binary {
    pub lhs: Box<Expression>,
    pub rhs: Box<Expression>,
}

/// `lhs = rhs`.
#[derive(Debug)]
pub struct Assignment {
    pub lhs: Box<Expression>,
    pub rhs: Box<Expression>,
}

#[derive(Debug)]
pub struct Expression {
    pub span: Span,
    pub kind: ExpressionKind,
}

/// `condition ? if_true : otherwise`, or `condition ?: otherwise` without the middle operand.
#[derive(Debug)]
pub struct Conditional {
    pub condition: Box<Expression>,
    pub if_true: Option<Box<Expression>>,
    pub otherwise: Box<Expression>,
}

#[derive(Debug)]
pub enum ExpressionKind {
    Literal(Literal),
    Identifier(Identifier),
    Variable(Variable),
    Call(Call),
    Instantiation(Instantiation),
    Binary(Binary),
    Parenthesized(Box<Expression>),
    Assignment(Assignment),
    /// `[elements]`, by the values of its elements.
    Array(Vec<Expression>),
    Conditional(Conditional),
    /// An operator applied to one operand, such as `!x`, `-x` or `$i++`.
    Unary(Box<Expression>),
    /// `function (...) use (...) { body }`, by its body.
    Closure(Block),
    /// `fn (...) => value`, by its value.
    ArrowFunction(Box<Expression>),
    /// Any other expression that holds expressions (an array access, a
    /// property access, `match`, `isset`, an interpolated string, ...), by
    /// those expressions in the order of the text.
    Composite(Vec<Expression>),
    /// An expression that holds no other expression.
    Other,
}

/// `$name` in a parameter list.
#[derive(Debug)]
pub struct Parameter {
    pub variable: DirectVariable,
}

#[derive(Debug)]
pub struct ParameterList {
    pub parameters: Vec<Parameter>,
}

/// `Name(arguments)` inside `#[ ... ]`.
#[derive(Debug)]
pub struct Attribute {
    pub name: Identifier,
    pub argument_list: Option<ArgumentList>,
}

/// `#[ attributes ]`.
#[derive(Debug)]
pub struct AttributeList {
    pub attributes: Vec<Attribute>,
}

/// `{ statements }`.
#[derive(Debug)]
pub struct Block {
    pub statements: Vec<Statement>,
}

#[derive(Debug)]
pub struct Function {
    pub attribute_lists: Vec<AttributeList>,
    pub name: LocalIdentifier,
    pub parameter_list: ParameterList,
    pub body: Block,
}

#[derive(Debug)]
pub enum MethodBody {
    Concrete(Block),
    Abstract,
}

#[derive(Debug)]
pub struct Method {
    pub attribute_lists: Vec<AttributeList>,
    pub name: LocalIdentifier,
    pub parameter_list: ParameterList,
    pub body: MethodBody,
}

#[derive(Debug)]
pub enum ClassLikeMember {
    Method(Method),
    Other,
}

#[derive(Debug)]
pub struct Class {
    pub attribute_lists: Vec<AttributeList>,
    pub name: LocalIdentifier,
    pub members: Vec<ClassLikeMember>,
}

/// The body of a `for`, `foreach` or `while` loop: one statement, or the
/// statements between `:` and `endfor;` (or its kin).
#[derive(Debug)]
pub enum LoopBody {
    Statement(Box<Statement>),
    ColonDelimited(Vec<Statement>),
}

/// `for (initializations; conditions; increments) body`.
#[derive(Debug)]
pub struct For {
    pub initializations: Vec<Expression>,
    pub conditions: Vec<Expression>,
    pub increments: Vec<Expression>,
    pub body: LoopBody,
}

/// `foreach (expression as ...) body`.
#[derive(Debug)]
pub struct Foreach {
    pub expression: Expression,
    pub body: LoopBody,
}

/// `while (condition) body`.
#[derive(Debug)]
pub struct While {
    pub condition: Expression,
    pub body: LoopBody,
}

/// `do statement while (condition);`.
#[derive(Debug)]
pub struct DoWhile {
    pub statement: Box<Statement>,
    pub condition: Expression,
}

/// `if (condition) body else else_body`; an `elseif` chain is an `if` whose
/// else body is the next `if`.
#[derive(Debug)]
pub struct If {
    pub condition: Expression,
    pub body: Vec<Statement>,
    pub else_body: Vec<Statement>,
}

/// `case condition:` or `default:` (no condition), with its statements.
#[derive(Debug)]
pub struct SwitchCase {
    pub condition: Option<Expression>,
    pub statements: Vec<Statement>,
}

/// `switch (subject) { cases }`.
#[derive(Debug)]
pub struct Switch {
    pub subject: Expression,
    pub cases: Vec<SwitchCase>,
}

/// `try { body } catch (...) { ... } ... finally { ... }`.
#[derive(Debug)]
pub struct Try {
    pub body: Block,
    pub catch_bodies: Vec<Block>,
    pub finally_body: Option<Block>,
}

#[derive(Debug)]
pub enum Statement {
    Function(Function),
    Class(Class),
    Expression(Expression),
    Block(Block),
    For(For),
    Foreach(Foreach),
    While(While),
    DoWhile(DoWhile),
    If(If),
    Switch(Switch),
    Try(Try),
    Return(Option<Expression>),
    Echo(Vec<Expression>),
    /// `namespace Name { statements }`, or `namespace Name;` with the
    /// statements that follow it.
    Namespace(Vec<Statement>),
    Other,
}

#[derive(Debug)]
pub struct Program {
    pub statements: Vec<Statement>,
}

/// A node that the linter hands to a rule.
#[derive(Debug)]
pub enum Node {
    Program(Program),
    ArgumentList(ArgumentList),
    For(For),
    Foreach(Foreach),
    While(While),
    DoWhile(DoWhile),
    FunctionCall(FunctionCall),
    Other,
}

/// The kinds of node a rule asks to be handed.
#[derive(Clone, Copy, Debug, PartialEq, Eq, Structural)]
pub enum NodeKind {
    Program,
    ArgumentList,
    For,
    Foreach,
    While,
    DoWhile,
    FunctionCall,
}

} // verus!
