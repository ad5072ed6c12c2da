//! The expression tree: a sum type over literal, unary, binary and grouping
//! nodes, built bottom-up by the parser and immutable after construction.
//! Also a faithful printer that reconstructs a source form of a tree.

use vstd::prelude::*;
use vstd::string::StringExecFns;

verus! {

/// An expression node. Each node exclusively owns its children; the nodes
/// form a strict tree.
#[derive(Debug, PartialEq)]
pub enum Expr {
    Literal(Literal),
    Unary(UnaryOp, Box<Expr>),
    Binary(Box<Expr>, BinaryOp, Box<Expr>),
    Grouping(Box<Expr>),
}

/// A literal value. A number keeps the exact digit text it was scanned from;
/// turning that text into a machine number is left to downstream consumers.
#[derive(Debug, PartialEq)]
pub enum Literal {
    Number(String),
    String(String),
    True,
    False,
    Nil,
}

/// The operators a `Binary` node may carry; no other token kind can appear in
/// a binary operator position, by construction.
#[derive(Debug, Clone, Copy, PartialEq, Eq, Structural)]
pub enum BinaryOp {
    EqualEqual,
    BangEqual,
    Less,
    LessEqual,
    Greater,
    GreaterEqual,
    Plus,
    Minus,
    Star,
    Slash,
}

/// The operators a `Unary` node may carry.
#[derive(Debug, Clone, Copy, PartialEq, Eq, Structural)]
pub enum UnaryOp {
    Minus,
    Bang,
}

/// The source text of a literal: numbers print their digit text, strings
/// print quoted, and the keyword literals print their keyword.
pub open spec fn literal_source(l: Literal) -> Seq<char> {
    match l {
        Literal::Number(t) => t@,
        Literal::String(s) => seq!['"'] + s@ + seq!['"'],
        Literal::True => seq!['t', 'r', 'u', 'e'],
        Literal::False => seq!['f', 'a', 'l', 's', 'e'],
        Literal::Nil => seq!['n', 'i', 'l'],
    }
}

/// The source text of a binary operator.
pub open spec fn binary_op_source(op: BinaryOp) -> Seq<char> {
    match op {
        BinaryOp::EqualEqual => seq!['=', '='],
        BinaryOp::BangEqual => seq!['!', '='],
        BinaryOp::Less => seq!['<'],
        BinaryOp::LessEqual => seq!['<', '='],
        BinaryOp::Greater => seq!['>'],
        BinaryOp::GreaterEqual => seq!['>', '='],
        BinaryOp::Plus => seq!['+'],
        BinaryOp::Minus => seq!['-'],
        BinaryOp::Star => seq!['*'],
        BinaryOp::Slash => seq!['/'],
    }
}

/// The source text of a unary operator.
pub open spec fn unary_op_source(op: UnaryOp) -> Seq<char> {
    match op {
        UnaryOp::Minus => seq!['-'],
        UnaryOp::Bang => seq!['!'],
    }
}

/// The reconstructed source text of an expression tree: binary nodes print
/// infix with single spaces around the operator, unary nodes print prefix,
/// grouping nodes print parenthesized.
pub open spec fn expr_source(e: Expr) -> Seq<char>
    decreases e,
{
    match e {
        Expr::Literal(l) => literal_source(l),
        Expr::Unary(op, inner) => unary_op_source(op) + expr_source(*inner),
        Expr::Binary(left, op, right) => expr_source(*left) + seq![' '] + binary_op_source(op)
            + seq![' '] + expr_source(*right),
        Expr::Grouping(inner) => seq!['('] + expr_source(*inner) + seq![')'],
    }
}

/// The printed text of a binary operator.
fn binary_op_text(op: BinaryOp) -> (s: &'static str)
    ensures
        s@ == binary_op_source(op),
{
    proof {
        reveal_strlit("==");
        reveal_strlit("!=");
        reveal_strlit("<");
        reveal_strlit("<=");
        reveal_strlit(">");
        reveal_strlit(">=");
        reveal_strlit("+");
        reveal_strlit("-");
        reveal_strlit("*");
        reveal_strlit("/");
    }
    match op {
        BinaryOp::EqualEqual => "==",
        BinaryOp::BangEqual => "!=",
        BinaryOp::Less => "<",
        BinaryOp::LessEqual => "<=",
        BinaryOp::Greater => ">",
        BinaryOp::GreaterEqual => ">=",
        BinaryOp::Plus => "+",
        BinaryOp::Minus => "-",
        BinaryOp::Star => "*",
        BinaryOp::Slash => "/",
    }
}

/// The printed text of a unary operator.
fn unary_op_text(op: UnaryOp) -> (s: &'static str)
    ensures
        s@ == unary_op_source(op),
{
    proof {
        reveal_strlit("-");
        reveal_strlit("!");
    }
    match op {
        UnaryOp::Minus => "-",
        UnaryOp::Bang => "!",
    }
}

/// The printed text of a literal.
fn literal_text(l: &Literal) -> (s: String)
    ensures
        s@ == literal_source(*l),
{
    match l {
        Literal::Number(t) => t.clone(),
        Literal::String(v) => {
            proof {
                reveal_strlit("\"");
            }
            let mut s = String::from_str("\"");
            s.append(v.as_str());
            s.append("\"");
            proof {
                assert(s@ =~= literal_source(*l));
            }
            s
        },
        Literal::True => {
            proof {
                reveal_strlit("true");
            }
            let s = String::from_str("true");
            proof {
                assert(s@ =~= literal_source(*l));
            }
            s
        },
        Literal::False => {
            proof {
                reveal_strlit("false");
            }
            let s = String::from_str("false");
            proof {
                assert(s@ =~= literal_source(*l));
            }
            s
        },
        Literal::Nil => {
            proof {
                reveal_strlit("nil");
            }
            let s = String::from_str("nil");
            proof {
                assert(s@ =~= literal_source(*l));
            }
            s
        },
    }
}

impl Expr {
    /// Reconstruct a source form of this tree. Reparsing the result of a
    /// successfully parsed tree yields a structurally identical tree, since
    /// the tree records grouping explicitly.
    pub fn to_source(&self) -> (s: String)
        ensures
            s@ == expr_source(*self),
        decreases *self,
    {
        match self {
            Expr::Literal(l) => literal_text(l),
            Expr::Unary(op, inner) => {
                let mut s = String::from_str(unary_op_text(*op));
                let inner_s = inner.to_source();
                s.append(inner_s.as_str());
                proof {
                    assert(s@ =~= expr_source(*self));
                }
                s
            },
            Expr::Binary(left, op, right) => {
                proof {
                    reveal_strlit(" ");
                }
                let mut s = left.to_source();
                s.append(" ");
                s.append(binary_op_text(*op));
                s.append(" ");
                let right_s = right.to_source();
                s.append(right_s.as_str());
                proof {
                    assert(s@ =~= expr_source(*self));
                }
                s
            },
            Expr::Grouping(inner) => {
                proof {
                    reveal_strlit("(");
                    reveal_strlit(")");
                }
                let mut s = String::from_str("(");
                let inner_s = inner.to_source();
                s.append(inner_s.as_str());
                s.append(")");
                proof {
                    assert(s@ =~= expr_source(*self));
                }
                s
            },
        }
    }
}

} // verus!
