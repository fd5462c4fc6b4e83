//! The abstract syntax tree: two closed families of nodes, statements and
//! expressions, each an owned tree with no sharing, together with the
//! mathematical view the parser's contracts are stated over.
use vstd::prelude::*;

verus! {

/// A unary operator: logical negation (`!`) or arithmetic negation (`-`).
#[derive(Debug, Clone, Copy, PartialEq, Eq, Structural)]
pub enum PrefixOperator {
    Not,
    Neg,
}

/// A binary operator of the expression grammar.
#[derive(Debug, Clone, Copy, PartialEq, Eq, Structural)]
pub enum InfixOperator {
    Plus,
    Minus,
    Asterisk,
    Slash,
    Lt,
    Gt,
    Eq,
    Neq,
}

/// A name appearing in the source.
#[derive(Debug, PartialEq)]
pub struct Identifier {
    pub value: String,
}

/// A brace-delimited, ordered sequence of statements.
#[derive(Debug, PartialEq)]
pub struct Block {
    pub statements: Vec<Statement>,
}

/// An expression node; every child is owned exclusively.
#[derive(Debug, PartialEq)]
pub enum Expression {
    Identifier(Identifier),
    IntegerLiteral(u64),
    BooleanLiteral(bool),
    PrefixExpression { operator: PrefixOperator, operand: Box<Expression> },
    InfixExpression { operator: InfixOperator, left: Box<Expression>, right: Box<Expression> },
    IfExpression { condition: Box<Expression>, consequence: Block, alternative: Option<Block> },
    FunctionLiteral { parameters: Vec<Identifier>, body: Block },
    CallExpression { function: Box<Expression>, arguments: Vec<Expression> },
}

/// A statement node.
#[derive(Debug, PartialEq)]
pub enum Statement {
    Let(LetStatement),
    Return { value: Expression },
    ExpressionStatement { value: Expression },
    Block(Block),
}

/// A `let` binding: `let name = value;`.
#[derive(Debug, PartialEq)]
pub struct LetStatement {
    pub name: Identifier,
    pub value: Expression,
}

/// The root of the tree: the ordered top-level statements of a source text.
#[derive(Debug, PartialEq)]
pub struct Program {
    pub statements: Vec<Statement>,
}

/// The mathematical value of an expression: the same shape with identifier
/// text abstracted to character sequences.
pub enum SpecExpression {
    Identifier(Seq<char>),
    IntegerLiteral(u64),
    BooleanLiteral(bool),
    Prefix { operator: PrefixOperator, operand: Box<SpecExpression> },
    Infix { operator: InfixOperator, left: Box<SpecExpression>, right: Box<SpecExpression> },
    If {
        condition: Box<SpecExpression>,
        consequence: Seq<SpecStatement>,
        alternative: Option<Seq<SpecStatement>>,
    },
    Function { parameters: Seq<Seq<char>>, body: Seq<SpecStatement> },
    Call { function: Box<SpecExpression>, arguments: Seq<SpecExpression> },
}

/// The mathematical value of a statement.
pub enum SpecStatement {
    Let { name: Seq<char>, value: SpecExpression },
    Return { value: SpecExpression },
    Expr { value: SpecExpression },
    Block(Seq<SpecStatement>),
}

/// The view of an expression, defined by structural recursion.
pub open spec fn spec_expr(e: Expression) -> SpecExpression
    decreases e,
{
    match e {
        Expression::Identifier(id) => SpecExpression::Identifier(id.value@),
        Expression::IntegerLiteral(v) => SpecExpression::IntegerLiteral(v),
        Expression::BooleanLiteral(b) => SpecExpression::BooleanLiteral(b),
        Expression::PrefixExpression { operator, operand } => SpecExpression::Prefix {
            operator,
            operand: Box::new(spec_expr(*operand)),
        },
        Expression::InfixExpression { operator, left, right } => SpecExpression::Infix {
            operator,
            left: Box::new(spec_expr(*left)),
            right: Box::new(spec_expr(*right)),
        },
        Expression::IfExpression { condition, consequence, alternative } => SpecExpression::If {
            condition: Box::new(spec_expr(*condition)),
            consequence: spec_block(consequence),
            alternative: match alternative {
                Some(b) => Some(spec_block(b)),
                None => None,
            },
        },
        Expression::FunctionLiteral { parameters, body } => SpecExpression::Function {
            parameters: Seq::new(parameters@.len(), |i: int| parameters@[i].value@),
            body: spec_block(body),
        },
        Expression::CallExpression { function, arguments } => SpecExpression::Call {
            function: Box::new(spec_expr(*function)),
            arguments: spec_exprs(arguments@),
        },
    }
}

/// The views of a sequence of expressions, in order.
pub open spec fn spec_exprs(es: Seq<Expression>) -> Seq<SpecExpression>
    decreases es,
{
    if es.len() == 0 {
        Seq::empty()
    } else {
        seq![spec_expr(es[0])] + spec_exprs(es.drop_first())
    }
}

/// The view of a statement, defined by structural recursion.
pub open spec fn spec_stmt(s: Statement) -> SpecStatement
    decreases s,
{
    match s {
        Statement::Let(ls) => SpecStatement::Let { name: ls.name.value@, value: spec_expr(ls.value) },
        Statement::Return { value } => SpecStatement::Return { value: spec_expr(value) },
        Statement::ExpressionStatement { value } => SpecStatement::Expr { value: spec_expr(value) },
        Statement::Block(b) => SpecStatement::Block(spec_block(b)),
    }
}

/// The views of a sequence of statements, in order.
pub open spec fn spec_stmts(ss: Seq<Statement>) -> Seq<SpecStatement>
    decreases ss,
{
    if ss.len() == 0 {
        Seq::empty()
    } else {
        seq![spec_stmt(ss[0])] + spec_stmts(ss.drop_first())
    }
}

/// The view of a block: the views of its statements.
pub open spec fn spec_block(b: Block) -> Seq<SpecStatement>
    decreases b,
{
    spec_stmts(b.statements@)
}

/// `spec_stmts` maps the view over the sequence element by element.
pub proof fn lemma_spec_stmts(ss: Seq<Statement>)
    ensures
        spec_stmts(ss).len() == ss.len(),
        forall|i: int| 0 <= i < ss.len() ==> spec_stmts(ss)[i] == spec_stmt(ss[i]),
    decreases ss,
{
    if ss.len() > 0 {
        lemma_spec_stmts(ss.drop_first());
    }
}

/// `spec_exprs` maps the view over the sequence element by element.
pub proof fn lemma_spec_exprs(es: Seq<Expression>)
    ensures
        spec_exprs(es).len() == es.len(),
        forall|i: int| 0 <= i < es.len() ==> spec_exprs(es)[i] == spec_expr(es[i]),
    decreases es,
{
    if es.len() > 0 {
        lemma_spec_exprs(es.drop_first());
    }
}

/// Mapping the view commutes with appending a statement.
pub proof fn lemma_spec_stmts_push(ss: Seq<Statement>, s: Statement)
    ensures
        spec_stmts(ss.push(s)) == spec_stmts(ss).push(spec_stmt(s)),
    decreases ss,
{
    lemma_spec_stmts(ss.push(s));
    lemma_spec_stmts(ss);
    assert(spec_stmts(ss.push(s)) =~= spec_stmts(ss).push(spec_stmt(s)));
}

/// Mapping the view commutes with appending an expression.
pub proof fn lemma_spec_exprs_push(es: Seq<Expression>, e: Expression)
    ensures
        spec_exprs(es.push(e)) == spec_exprs(es).push(spec_expr(e)),
    decreases es,
{
    lemma_spec_exprs(es.push(e));
    lemma_spec_exprs(es);
    assert(spec_exprs(es.push(e)) =~= spec_exprs(es).push(spec_expr(e)));
}

impl View for Identifier {
    type V = Seq<char>;

    open spec fn view(&self) -> Seq<char> {
        self.value@
    }
}

impl View for Expression {
    type V = SpecExpression;

    open spec fn view(&self) -> SpecExpression {
        spec_expr(*self)
    }
}

impl View for Statement {
    type V = SpecStatement;

    open spec fn view(&self) -> SpecStatement {
        spec_stmt(*self)
    }
}

impl View for Block {
    type V = Seq<SpecStatement>;

    open spec fn view(&self) -> Seq<SpecStatement> {
        spec_block(*self)
    }
}

impl View for Program {
    type V = Seq<SpecStatement>;

    open spec fn view(&self) -> Seq<SpecStatement> {
        spec_stmts(self.statements@)
    }
}

} // verus!
