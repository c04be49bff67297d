//! Reading one statement from a queue of tokens.
//!
//! The parser takes tokens from the front of its queue. What each of its
//! functions reads is given by the function of the same construct in
//! [`crate::grammar`], applied to the tokens that were in the queue.

use crate::ast::{AstView, Member, MemberView, AST, OP};
use crate::grammar::{
    args_tail, expect, lemma_parse_add_shrinks, lemma_parse_expr_shrinks,
    lemma_parse_mul_shrinks, member_list, parse_args, parse_expr, parse_level, parse_member,
    parse_members, parse_method_call, parse_operand, parse_statement, parse_table_def, parse_tail,
    parse_term, text_of, Expected, Level, ParseError, ParseErrorView,
};
use crate::primitive::Type;
use crate::token::{SpecToken, Token};
use std::collections::VecDeque;
use vstd::prelude::*;

verus! {

/// What the outcome of a parsing function stands for.
pub open spec fn outcome<T: DeepView>(result: Result<T, ParseError>) -> Result<
    T::V,
    ParseErrorView,
> {
    match result {
        Ok(value) => Ok(value.deep_view()),
        Err(e) => Err(e@),
    }
}

/// A reader of statements from a queue of tokens.
pub struct Parser {
    index: usize,
    tokens: VecDeque<Token>,
}

impl Parser {
    #[verifier::type_invariant]
    spec fn well_formed(self) -> bool {
        self.index + self.tokens@.len() <= usize::MAX
    }

    /// The tokens that are still in the queue.
    pub closed spec fn remaining(&self) -> Seq<SpecToken> {
        self.tokens.deep_view()
    }

    /// The number of tokens that were taken from the queue.
    pub closed spec fn taken(&self) -> nat {
        self.index as nat
    }

    /// This parser is what `before` becomes by taking tokens from the front of
    /// its queue until `rest` is left.
    pub open spec fn advanced(&self, before: &Parser, rest: Seq<SpecToken>) -> bool {
        &&& self.remaining() == rest
        &&& self.taken() + rest.len() == before.taken() + before.remaining().len()
    }

    /// A parser of `tokens`.
    pub fn new(tokens: VecDeque<Token>) -> (parser: Self)
        ensures
            parser.remaining() == tokens.deep_view(),
            parser.taken() == 0,
    {
        proof {
            assert(tokens@.len() == tokens.len());
        }
        Self { index: 0, tokens }
    }

    /// The number of tokens that were taken from the queue.
    pub fn index(&self) -> (index: usize)
        ensures
            index == self.taken(),
    {
        self.index
    }

    /// The token at the front of the queue, if there is one.
    pub fn peek(&self) -> (token: Option<&Token>)
        ensures
            match token {
                Some(t) => self.remaining().len() > 0 && t@ == self.remaining()[0],
                None => self.remaining().len() == 0,
            },
    {
        if self.tokens.len() > 0 {
            Some(&self.tokens[0])
        } else {
            None
        }
    }

    /// Takes the token at the front of the queue.
    pub fn get(&mut self) -> (result: Result<Token, ParseError>)
        ensures
            match result {
                Ok(t) => {
                    &&& old(self).remaining().len() > 0
                    &&& t@ == old(self).remaining()[0]
                    &&& final(self).advanced(old(self), old(self).remaining().skip(1))
                },
                Err(e) => {
                    &&& e is UnexpectedEnd
                    &&& old(self).remaining().len() == 0
                    &&& final(self).advanced(old(self), old(self).remaining())
                },
            },
    {
        proof {
            use_type_invariant(&*self);
        }
        let mut tokens = VecDeque::new();
        std::mem::swap(&mut tokens, &mut self.tokens);
        let front = tokens.pop_front();
        self.tokens = tokens;
        match front {
            Some(t) => {
                self.index += 1;
                proof {
                    assert(self.tokens.deep_view() =~= old(self).tokens.deep_view().skip(1));
                }
                Ok(t)
            },
            None => Err(ParseError::UnexpectedEnd),
        }
    }

    /// Takes an identifier from the queue.
    fn identifier(&mut self) -> (result: Result<String, ParseError>)
        ensures
            match expect(Expected::Identifier, old(self).remaining()).result {
                Ok(token) => result matches Ok(s) && s@ == text_of(token),
                Err(e) => result matches Err(f) && f@ == e,
            },
            final(self).advanced(
                old(self),
                expect(Expected::Identifier, old(self).remaining()).rest,
            ),
    {
        match self.get() {
            Ok(Token::Ident(s)) => Ok(s),
            Ok(found) => Err(ParseError::UnexpectedToken { expected: Expected::Identifier, found }),
            Err(e) => Err(e),
        }
    }

    /// Takes the punctuation character `c` from the queue.
    fn symbol(&mut self, c: char) -> (result: Result<(), ParseError>)
        ensures
            match expect(Expected::Symbol(c), old(self).remaining()).result {
                Ok(token) => result is Ok,
                Err(e) => result matches Err(f) && f@ == e,
            },
            final(self).advanced(old(self), expect(Expected::Symbol(c), old(self).remaining()).rest),
    {
        match self.get() {
            Ok(found) => {
                if Expected::Symbol(c).accepts(&found) {
                    Ok(())
                } else {
                    Err(ParseError::UnexpectedToken { expected: Expected::Symbol(c), found })
                }
            },
            Err(e) => Err(e),
        }
    }

    /// Reads a number or a string literal.
    pub fn term(&mut self) -> (result: Result<AST, ParseError>)
        ensures
            outcome(result) == parse_term(old(self).remaining()).result,
            final(self).advanced(old(self), parse_term(old(self).remaining()).rest),
    {
        match self.get() {
            Ok(Token::Number(n)) => Ok(AST::Number(n)),
            Ok(Token::StrLiteral(s)) => Ok(AST::StrLiteral(s)),
            Ok(found) => Err(ParseError::UnexpectedToken { expected: Expected::Term, found }),
            Err(e) => Err(e),
        }
    }

    /// Tells whether the token at the front of the queue is what is looked
    /// for.
    fn at(&self, expected: Expected) -> (b: bool)
        ensures
            b == (self.remaining().len() > 0 && expected.admits(self.remaining()[0])),
    {
        match self.peek() {
            Some(token) => expected.accepts(token),
            None => false,
        }
    }

    /// Tells whether the token at the front of the queue is an operator of
    /// `level`.
    fn at_operator(&self, level: Level) -> (b: bool)
        ensures
            b == (self.remaining().len() > 0 && level.binds(self.remaining()[0])),
    {
        match self.peek() {
            Some(token) => level.has_operator(token),
            None => false,
        }
    }

    /// Reads what the operators of `level` combine.
    fn operand(&mut self, level: Level) -> (result: Result<AST, ParseError>)
        ensures
            outcome(result) == parse_operand(level, old(self).remaining()).result,
            final(self).advanced(old(self), parse_operand(level, old(self).remaining()).rest),
        decreases level.rank(), 0nat,
    {
        match level {
            Level::Multiplicative => self.term(),
            Level::Additive => self.chain(Level::Multiplicative),
            Level::Equality => self.chain(Level::Additive),
        }
    }

    /// Reads operands of `level` joined by its operators, and combines them
    /// from the left.
    fn chain(&mut self, level: Level) -> (result: Result<AST, ParseError>)
        ensures
            outcome(result) == parse_level(level, old(self).remaining()).result,
            final(self).advanced(old(self), parse_level(level, old(self).remaining()).rest),
        decreases level.rank(), 1nat,
    {
        let mut left = match self.operand(level) {
            Ok(tree) => tree,
            Err(e) => return Err(e),
        };
        while self.at_operator(level)
            invariant
                parse_tail(level, left@, self.remaining()) == parse_level(
                    level,
                    old(self).remaining(),
                ),
                self.taken() + self.remaining().len() == old(self).taken() + old(
                    self,
                ).remaining().len(),
            decreases self.remaining().len(),
        {
            proof {
                let after = self.remaining().skip(1);
                lemma_parse_mul_shrinks(after);
                lemma_parse_add_shrinks(after);
            }
            let op = match self.get() {
                Ok(token) => OP::from_token(token),
                Err(e) => return Err(e),
            };
            let right = match self.operand(level) {
                Ok(tree) => tree,
                Err(e) => return Err(e),
            };
            left = AST::binop(left, op, right);
        }
        Ok(left)
    }

    /// Reads a product.
    pub fn mul(&mut self) -> (result: Result<AST, ParseError>)
        ensures
            outcome(result) == parse_level(Level::Multiplicative, old(self).remaining()).result,
            final(self).advanced(
                old(self),
                parse_level(Level::Multiplicative, old(self).remaining()).rest,
            ),
    {
        self.chain(Level::Multiplicative)
    }

    /// Reads a sum.
    pub fn add(&mut self) -> (result: Result<AST, ParseError>)
        ensures
            outcome(result) == parse_level(Level::Additive, old(self).remaining()).result,
            final(self).advanced(
                old(self),
                parse_level(Level::Additive, old(self).remaining()).rest,
            ),
    {
        self.chain(Level::Additive)
    }

    /// Reads a comparison.
    pub fn equal(&mut self) -> (result: Result<AST, ParseError>)
        ensures
            outcome(result) == parse_level(Level::Equality, old(self).remaining()).result,
            final(self).advanced(
                old(self),
                parse_level(Level::Equality, old(self).remaining()).rest,
            ),
    {
        self.chain(Level::Equality)
    }

    /// Reads an expression.
    pub fn expr(&mut self) -> (result: Result<AST, ParseError>)
        ensures
            outcome(result) == parse_expr(old(self).remaining()).result,
            final(self).advanced(old(self), parse_expr(old(self).remaining()).rest),
    {
        self.equal()
    }

    /// Reads the arguments of a call, up to the closing parenthesis.
    fn args(&mut self) -> (result: Result<Vec<AST>, ParseError>)
        ensures
            outcome(result) == parse_args(old(self).remaining()).result,
            final(self).advanced(old(self), parse_args(old(self).remaining()).rest),
    {
        let mut args: Vec<AST> = Vec::new();
        if self.at(Expected::Symbol(')')) {
            proof {
                assert(args.deep_view() =~= Seq::<AstView>::empty());
            }
            return Ok(args);
        }
        match self.expr() {
            Ok(tree) => {
                args.push(tree);
                proof {
                    assert(args.deep_view() =~= seq![tree@]);
                }
            },
            Err(e) => return Err(e),
        }
        while self.at(Expected::Symbol(','))
            invariant
                args_tail(args.deep_view(), self.remaining()) == parse_args(
                    old(self).remaining(),
                ),
                self.taken() + self.remaining().len() == old(self).taken() + old(
                    self,
                ).remaining().len(),
            decreases self.remaining().len(),
        {
            proof {
                lemma_parse_expr_shrinks(self.remaining().skip(1));
            }
            let ghost done = args.deep_view();
            let _ = self.get();
            match self.expr() {
                Ok(tree) => {
                    args.push(tree);
                    proof {
                        assert(args.deep_view() =~= done.push(tree@));
                    }
                },
                Err(e) => return Err(e),
            }
        }
        Ok(args)
    }

    /// Reads a call of a method of a table.
    pub fn method_call(&mut self) -> (result: Result<AST, ParseError>)
        ensures
            outcome(result) == parse_method_call(old(self).remaining()).result,
            final(self).advanced(old(self), parse_method_call(old(self).remaining()).rest),
    {
        let table = match self.identifier() {
            Ok(text) => text,
            Err(e) => return Err(e),
        };
        match self.symbol('.') {
            Ok(()) => (),
            Err(e) => return Err(e),
        }
        let name = match self.identifier() {
            Ok(text) => text,
            Err(e) => return Err(e),
        };
        match self.symbol('(') {
            Ok(()) => (),
            Err(e) => return Err(e),
        }
        let args = match self.args() {
            Ok(args) => args,
            Err(e) => return Err(e),
        };
        match self.symbol(')') {
            Ok(()) => (),
            Err(e) => return Err(e),
        }
        let tree = AST::MethodCall { table, name, args };
        proof {
            assert(tree@->MethodCall_args =~= args.deep_view());
        }
        Ok(tree)
    }

    /// Reads the name and the type of a column.
    fn member(&mut self) -> (result: Result<Member, ParseError>)
        ensures
            outcome(result) == parse_member(old(self).remaining()).result,
            final(self).advanced(old(self), parse_member(old(self).remaining()).rest),
    {
        let field = match self.identifier() {
            Ok(text) => text,
            Err(e) => return Err(e),
        };
        match self.symbol(':') {
            Ok(()) => (),
            Err(e) => return Err(e),
        }
        match self.get() {
            Ok(found) => {
                if Expected::TypeName.accepts(&found) {
                    Ok(Member { typ: Type::from_token(found), field })
                } else {
                    Err(ParseError::UnexpectedToken { expected: Expected::TypeName, found })
                }
            },
            Err(e) => Err(e),
        }
    }

    /// Reads the columns of a table definition, up to the closing brace.
    fn members(&mut self) -> (result: Result<Vec<Member>, ParseError>)
        ensures
            outcome(result) == parse_members(old(self).remaining()).result,
            final(self).advanced(old(self), parse_members(old(self).remaining()).rest),
    {
        let mut members: Vec<Member> = Vec::new();
        proof {
            assert(members.deep_view() =~= Seq::<MemberView>::empty());
        }
        if self.at(Expected::Symbol(',')) {
            let _ = self.get();
            return Ok(members);
        }
        while self.at(Expected::Identifier)
            invariant
                member_list(members.deep_view(), self.remaining()) == parse_members(
                    old(self).remaining(),
                ),
                self.taken() + self.remaining().len() == old(self).taken() + old(
                    self,
                ).remaining().len(),
            decreases self.remaining().len(),
        {
            let ghost done = members.deep_view();
            match self.member() {
                Ok(member) => {
                    members.push(member);
                    proof {
                        assert(members.deep_view() =~= done.push(member@));
                    }
                },
                Err(e) => return Err(e),
            }
            if self.at(Expected::Symbol(',')) {
                let _ = self.get();
            } else {
                return Ok(members);
            }
        }
        Ok(members)
    }

    /// Reads the definition of a table.
    pub fn table_def(&mut self) -> (result: Result<AST, ParseError>)
        ensures
            outcome(result) == parse_table_def(old(self).remaining()).result,
            final(self).advanced(old(self), parse_table_def(old(self).remaining()).rest),
    {
        match self.get() {
            Ok(found) => {
                if !Expected::TableKeyword.accepts(&found) {
                    return Err(
                        ParseError::UnexpectedToken { expected: Expected::TableKeyword, found },
                    );
                }
            },
            Err(e) => return Err(e),
        }
        let name = match self.identifier() {
            Ok(text) => text,
            Err(e) => return Err(e),
        };
        match self.symbol('{') {
            Ok(()) => (),
            Err(e) => return Err(e),
        }
        let members = match self.members() {
            Ok(members) => members,
            Err(e) => return Err(e),
        };
        match self.symbol('}') {
            Ok(()) => (),
            Err(e) => return Err(e),
        }
        Ok(AST::TableDef { name, members })
    }

    /// Reads one statement.
    ///
    /// The first token tells which: a number or a string literal begins an
    /// expression, an identifier a method call, and the table keyword a table
    /// definition. The tokens behind the statement stay in the queue.
    pub fn parse(&mut self) -> (result: Result<AST, ParseError>)
        ensures
            outcome(result) == parse_statement(old(self).remaining()).result,
            final(self).advanced(old(self), parse_statement(old(self).remaining()).rest),
    {
        if self.at(Expected::Identifier) {
            self.method_call()
        } else if self.at(Expected::TableKeyword) {
            self.table_def()
        } else if self.at(Expected::Term) {
            self.expr()
        } else {
            match self.get() {
                Ok(found) => Err(
                    ParseError::UnexpectedToken { expected: Expected::Statement, found },
                ),
                Err(e) => Err(e),
            }
        }
    }
}

} // verus!
