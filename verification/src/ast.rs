//! The AST model: the closed set of statement and expression node shapes and
//! their textual rendering.  Each node type has a ghost image (its view) in
//! which literals are character sequences, and rendering is specified by
//! recursive functions over those images: prefix nodes render as
//! `(<op><operand>)`, infix nodes as `(<left> <op> <right>)`, and a program
//! as the concatenation of its statements' renderings.

use vstd::prelude::*;

verus! {

use crate::token::{Token, SpecToken};
use crate::decimal::{spec_i64_string, i64_to_string};
use crate::text::push_char;
use vstd::string::StringExecFns;

/// The ghost image of an identifier node.
pub struct SpecIdentifier {
    pub token: SpecToken,
    pub value: Seq<char>,
}

/// The ghost image of an integer literal node.
pub struct SpecIntegerLiteral {
    pub token: SpecToken,
    pub value: i64,
}

/// The ghost image of a boolean literal node.
pub struct SpecBooleanExpression {
    pub token: SpecToken,
    pub value: bool,
}

/// The ghost image of a prefix node.
pub struct SpecPrefixExpression {
    pub token: SpecToken,
    pub operator: Seq<char>,
    pub right: Box<SpecExpression>,
}

/// The ghost image of an infix node.
pub struct SpecInfixExpression {
    pub token: SpecToken,
    pub left: Box<SpecExpression>,
    pub operator: Seq<char>,
    pub right: Box<SpecExpression>,
}

/// The ghost image of an expression tree.
pub enum SpecExpression {
    Identifier(SpecIdentifier),
    Integer(SpecIntegerLiteral),
    Prefix(SpecPrefixExpression),
    Infix(SpecInfixExpression),
    Boolean(SpecBooleanExpression),
}

/// The ghost image of a let statement.
pub struct SpecLetStatement {
    pub token: SpecToken,
    pub name: SpecIdentifier,
}

/// The ghost image of a return statement.
pub struct SpecReturnStatement {
    pub token: SpecToken,
}

/// The ghost image of a statement.
pub enum SpecStatement {
    Let(SpecLetStatement),
    Return(SpecReturnStatement),
    Expression(SpecExpression),
}

/// An identifier expression: its token and its name.
#[derive(Debug, PartialEq, Clone)]
pub struct Identifier {
    pub token: Token,
    pub value: String,
}

impl View for Identifier {
    type V = SpecIdentifier;

    open spec fn view(&self) -> SpecIdentifier {
        SpecIdentifier { token: self.token@, value: self.value@ }
    }
}

/// An integer literal expression: its token and its value.
#[derive(Debug, PartialEq, Clone)]
pub struct IntegerLiteral {
    pub token: Token,
    pub value: i64,
}

impl View for IntegerLiteral {
    type V = SpecIntegerLiteral;

    open spec fn view(&self) -> SpecIntegerLiteral {
        SpecIntegerLiteral { token: self.token@, value: self.value }
    }
}

/// A boolean literal expression: its token and its value.
#[derive(Debug, PartialEq, Clone)]
pub struct BooleanExpression {
    pub token: Token,
    pub value: bool,
}

impl View for BooleanExpression {
    type V = SpecBooleanExpression;

    open spec fn view(&self) -> SpecBooleanExpression {
        SpecBooleanExpression { token: self.token@, value: self.value }
    }
}

/// A prefix expression: an operator applied to an operand.
#[derive(Debug, PartialEq)]
pub struct PrefixExpression {
    pub token: Token,
    pub operator: String,
    pub right: Box<Expression>,
}

/// An infix expression: an operator between two operands.
#[derive(Debug, PartialEq)]
pub struct InfixExpression {
    pub token: Token,
    pub left: Box<Expression>,
    pub operator: String,
    pub right: Box<Expression>,
}

/// An expression tree: a leaf, or a node that exclusively owns its children.
#[derive(Debug, PartialEq)]
pub enum Expression {
    Identifier(Identifier),
    Integer(IntegerLiteral),
    Prefix(PrefixExpression),
    Infix(InfixExpression),
    Boolean(BooleanExpression),
}

impl View for Expression {
    type V = SpecExpression;

    open spec fn view(&self) -> SpecExpression
        decreases self,
    {
        match self {
            Expression::Identifier(id) => SpecExpression::Identifier(id@),
            Expression::Integer(il) => SpecExpression::Integer(il@),
            Expression::Prefix(p) => SpecExpression::Prefix(
                SpecPrefixExpression {
                    token: p.token@,
                    operator: p.operator@,
                    right: Box::new((*p.right)@),
                },
            ),
            Expression::Infix(i) => SpecExpression::Infix(
                SpecInfixExpression {
                    token: i.token@,
                    left: Box::new((*i.left)@),
                    operator: i.operator@,
                    right: Box::new((*i.right)@),
                },
            ),
            Expression::Boolean(b) => SpecExpression::Boolean(b@),
        }
    }
}

/// A let statement: the binding of a name.
#[derive(Debug, PartialEq, Clone)]
pub struct LetStatement {
    pub token: Token,
    pub name: Identifier,
}

impl View for LetStatement {
    type V = SpecLetStatement;

    open spec fn view(&self) -> SpecLetStatement {
        SpecLetStatement { token: self.token@, name: self.name@ }
    }
}

/// A return statement.
#[derive(Debug, PartialEq, Clone)]
pub struct ReturnStatement {
    pub token: Token,
}

impl View for ReturnStatement {
    type V = SpecReturnStatement;

    open spec fn view(&self) -> SpecReturnStatement {
        SpecReturnStatement { token: self.token@ }
    }
}

/// A statement: a let binding, a return, or a bare expression.
#[derive(Debug, PartialEq)]
pub enum Statement {
    Let(LetStatement),
    Return(ReturnStatement),
    Expression(Expression),
}

impl View for Statement {
    type V = SpecStatement;

    open spec fn view(&self) -> SpecStatement {
        match self {
            Statement::Let(s) => SpecStatement::Let(s@),
            Statement::Return(s) => SpecStatement::Return(s@),
            Statement::Expression(e) => SpecStatement::Expression(e@),
        }
    }
}

/// A program: an ordered sequence of statements, in source order.
#[derive(Debug, PartialEq)]
pub struct Program {
    pub statements: Vec<Box<Statement>>,
}

impl View for Program {
    type V = Seq<SpecStatement>;

    open spec fn view(&self) -> Seq<SpecStatement> {
        self.statements@.map_values(|b: Box<Statement>| b@)
    }
}

/// Either a whole program or a single statement.
pub enum Node {
    Program(Program),
    Statement(Statement),
}

/// The rendering of an expression image: identifiers and literals render as
/// their text, prefix nodes as `(<op><operand>)`, infix nodes as
/// `(<left> <op> <right>)`.
pub open spec fn spec_render_expression(e: SpecExpression) -> Seq<char>
    decreases e,
{
    match e {
        SpecExpression::Identifier(id) => id.value,
        SpecExpression::Integer(il) => spec_i64_string(il.value as int),
        SpecExpression::Prefix(p) => seq!['('] + p.operator + spec_render_expression(*p.right)
            + seq![')'],
        SpecExpression::Infix(i) => seq!['('] + spec_render_expression(*i.left) + seq![' ']
            + i.operator + seq![' '] + spec_render_expression(*i.right) + seq![')'],
        SpecExpression::Boolean(b) => if b.value {
            "true"@
        } else {
            "false"@
        },
    }
}

/// The rendering of a statement image.  The value of a let or return
/// statement is not yet parsed, so nothing stands between `=` or `return`
/// and the semicolon.
pub open spec fn spec_render_statement(st: SpecStatement) -> Seq<char> {
    match st {
        SpecStatement::Let(s) => "let "@ + s.name.value + " = ;"@,
        SpecStatement::Return(_) => "return ;"@,
        SpecStatement::Expression(e) => spec_render_expression(e),
    }
}

/// The rendering of a program image: the concatenation of its statements'
/// renderings, in order, with no separator.
pub open spec fn spec_render_program(sts: Seq<SpecStatement>) -> Seq<char>
    decreases sts.len(),
{
    if sts.len() == 0 {
        Seq::empty()
    } else {
        spec_render_program(sts.drop_last()) + spec_render_statement(sts.last())
    }
}

impl Identifier {
    /// Renders the identifier as its name.
    pub fn to_string(&self) -> (r: String)
        ensures
            r@ == spec_render_expression(SpecExpression::Identifier(self@)),
    {
        self.value.clone()
    }
}

impl IntegerLiteral {
    /// Renders the literal as the decimal text of its value.
    pub fn to_string(&self) -> (r: String)
        ensures
            r@ == spec_render_expression(SpecExpression::Integer(self@)),
    {
        i64_to_string(self.value)
    }
}

impl BooleanExpression {
    /// Renders the literal as `true` or `false`.
    pub fn to_string(&self) -> (r: String)
        ensures
            r@ == spec_render_expression(SpecExpression::Boolean(self@)),
    {
        if self.value {
            "true".to_owned()
        } else {
            "false".to_owned()
        }
    }
}

impl PrefixExpression {
    /// Renders the node as `(<op><operand>)`.
    pub fn to_string(&self) -> (r: String)
        ensures
            r@ == seq!['('] + self.operator@ + spec_render_expression(self.right@) + seq![')'],
        decreases self,
    {
        let mut out = String::new();
        push_char(&mut out, '(');
        out.append(self.operator.as_str());
        let right = self.right.to_string();
        out.append(right.as_str());
        push_char(&mut out, ')');
        proof {
            assert(out@ =~= seq!['('] + self.operator@ + spec_render_expression(self.right@)
                + seq![')']);
        }
        out
    }
}

impl InfixExpression {
    /// Renders the node as `(<left> <op> <right>)`.
    pub fn to_string(&self) -> (r: String)
        ensures
            r@ == seq!['('] + spec_render_expression(self.left@) + seq![' '] + self.operator@
                + seq![' '] + spec_render_expression(self.right@) + seq![')'],
        decreases self,
    {
        let mut out = String::new();
        push_char(&mut out, '(');
        let left = self.left.to_string();
        out.append(left.as_str());
        push_char(&mut out, ' ');
        out.append(self.operator.as_str());
        push_char(&mut out, ' ');
        let right = self.right.to_string();
        out.append(right.as_str());
        push_char(&mut out, ')');
        proof {
            assert(out@ =~= seq!['('] + spec_render_expression(self.left@) + seq![' ']
                + self.operator@ + seq![' '] + spec_render_expression(self.right@) + seq![')']);
        }
        out
    }
}

impl Expression {
    /// Renders the expression tree, per [`spec_render_expression`].
    pub fn to_string(&self) -> (r: String)
        ensures
            r@ == spec_render_expression(self@),
        decreases self,
    {
        match self {
            Expression::Identifier(id) => id.to_string(),
            Expression::Integer(il) => il.to_string(),
            Expression::Prefix(p) => p.to_string(),
            Expression::Infix(i) => i.to_string(),
            Expression::Boolean(b) => b.to_string(),
        }
    }
}

impl LetStatement {
    /// Renders the statement as `let <name> = ;`.
    pub fn to_string(&self) -> (r: String)
        ensures
            r@ == spec_render_statement(SpecStatement::Let(self@)),
    {
        let mut out = String::new();
        out.append("let ");
        out.append(self.name.value.as_str());
        out.append(" = ;");
        proof {
            assert(out@ =~= "let "@ + self.name.value@ + " = ;"@);
        }
        out
    }
}

impl ReturnStatement {
    /// Renders the statement as `return ;`.
    pub fn to_string(&self) -> (r: String)
        ensures
            r@ == spec_render_statement(SpecStatement::Return(self@)),
    {
        "return ;".to_owned()
    }
}

impl Statement {
    /// Renders the statement, per [`spec_render_statement`].
    pub fn to_string(&self) -> (r: String)
        ensures
            r@ == spec_render_statement(self@),
    {
        match self {
            Statement::Let(s) => s.to_string(),
            Statement::Return(s) => s.to_string(),
            Statement::Expression(e) => e.to_string(),
        }
    }
}

impl Program {
    /// Renders the program: its statements' renderings concatenated in
    /// order, per [`spec_render_program`].
    pub fn to_string(&self) -> (r: String)
        ensures
            r@ == spec_render_program(self@),
    {
        let mut out = String::new();
        let n = self.statements.len();
        let mut i: usize = 0;
        proof {
            assert(self@.subrange(0, 0) =~= Seq::<SpecStatement>::empty());
        }
        while i < n
            invariant
                n == self.statements@.len(),
                i <= n,
                self@.len() == n,
                out@ == spec_render_program(self@.subrange(0, i as int)),
            decreases n - i,
        {
            let rendered = self.statements[i].to_string();
            out.append(rendered.as_str());
            proof {
                let pre = self@.subrange(0, i + 1);
                assert(pre.drop_last() =~= self@.subrange(0, i as int));
                assert(pre.last() == self@[i as int]);
            }
            i = i + 1;
        }
        proof {
            assert(self@.subrange(0, n as int) =~= self@);
        }
        out
    }
}

impl Node {
    /// Renders the node: a program or a single statement.
    pub fn to_string(&self) -> (r: String)
        ensures
            r@ == match self {
                Node::Program(p) => spec_render_program(p@),
                Node::Statement(s) => spec_render_statement(s@),
            },
    {
        match self {
            Node::Program(p) => p.to_string(),
            Node::Statement(s) => s.to_string(),
        }
    }
}

} // verus!
