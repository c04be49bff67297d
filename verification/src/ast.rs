//! The tree that the parser builds and the store runs.

use crate::primitive::Type;
use crate::token::{SpecToken, Token};
use vstd::prelude::*;

verus! {

/// A binary operator.
#[derive(Debug, PartialEq, Eq, Clone, Copy, Structural)]
pub enum OP {
    EqEq,
    Add,
    Minus,
    Mul,
    Div,
}

/// Tells whether a token is a binary operator.
pub open spec fn is_operator_token(token: SpecToken) -> bool {
    token is EqEq || token is Add || token is Minus || token is Mul || token is Slash
}

/// The operator that a token stands for.
pub open spec fn operator_of_token(token: SpecToken) -> OP {
    match token {
        SpecToken::EqEq => OP::EqEq,
        SpecToken::Add => OP::Add,
        SpecToken::Minus => OP::Minus,
        SpecToken::Mul => OP::Mul,
        _ => OP::Div,
    }
}

impl OP {
    /// The operator that the token stands for.
    pub fn from_token(token: Token) -> (op: Self)
        requires
            is_operator_token(token@),
        ensures
            op == operator_of_token(token@),
    {
        match token {
            Token::EqEq => OP::EqEq,
            Token::Add => OP::Add,
            Token::Minus => OP::Minus,
            Token::Mul => OP::Mul,
            _ => OP::Div,
        }
    }
}

/// One column of a table: its name and its type.
#[derive(Debug, PartialEq)]
pub struct Member {
    pub typ: Type,
    pub field: String,
}

/// What a [`Member`] stands for.
pub ghost struct MemberView {
    pub typ: Type,
    pub field: Seq<char>,
}

impl View for Member {
    type V = MemberView;

    open spec fn view(&self) -> MemberView {
        MemberView { typ: self.typ, field: self.field@ }
    }
}

impl DeepView for Member {
    type V = MemberView;

    open spec fn deep_view(&self) -> MemberView {
        self.view()
    }
}

/// One parsed statement.
#[derive(Debug, PartialEq)]
pub enum AST {
    Number(i32),
    StrLiteral(String),
    BinOP(Box<AST>, OP, Box<AST>),
    MethodCall { table: String, name: String, args: Vec<AST> },
    TableDef { name: String, members: Vec<Member> },
}

/// What an [`AST`] stands for: the same tree, with text as sequences of
/// characters and lists as sequences.
pub ghost enum AstView {
    Number(i32),
    StrLiteral(Seq<char>),
    BinOP(Box<AstView>, OP, Box<AstView>),
    MethodCall { table: Seq<char>, name: Seq<char>, args: Seq<AstView> },
    TableDef { name: Seq<char>, members: Seq<MemberView> },
}

impl AST {
    /// The tree that this one stands for.
    pub open spec fn model(self) -> AstView
        decreases self,
    {
        match self {
            AST::Number(n) => AstView::Number(n),
            AST::StrLiteral(s) => AstView::StrLiteral(s@),
            AST::BinOP(left, op, right) => AstView::BinOP(
                Box::new(left.model()),
                op,
                Box::new(right.model()),
            ),
            AST::MethodCall { table, name, args } => AstView::MethodCall {
                table: table@,
                name: name@,
                args: Seq::new(
                    args@.len(),
                    |i: int|
                        if 0 <= i < args@.len() {
                            args@[i].model()
                        } else {
                            AstView::Number(0)
                        },
                ),
            },
            AST::TableDef { name, members } => AstView::TableDef {
                name: name@,
                members: members.deep_view(),
            },
        }
    }
}

impl View for AST {
    type V = AstView;

    open spec fn view(&self) -> AstView {
        self.model()
    }
}

impl DeepView for AST {
    type V = AstView;

    open spec fn deep_view(&self) -> AstView {
        self.view()
    }
}

impl AST {
    /// The tree that applies `op` to `left` and `right`.
    pub fn binop(left: Self, op: OP, right: Self) -> (tree: Self)
        ensures
            tree == AST::BinOP(Box::new(left), op, Box::new(right)),
            tree@ == AstView::BinOP(Box::new(left@), op, Box::new(right@)),
    {
        AST::BinOP(Box::new(left), op, Box::new(right))
    }
}

} // verus!
