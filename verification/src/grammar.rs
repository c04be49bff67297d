//! The grammar of the language, as functions on sequences of tokens.
//!
//! ```text
//! statement   := expr | method_call | table_def
//! expr        := equality
//! equality    := additive ('==' additive)*
//! additive    := mult (('+' | '-') mult)*
//! mult        := term (('*' | '/') term)*
//! term        := NUMBER | STRING
//! method_call := IDENT '.' IDENT '(' (expr (',' expr)*)? ')'
//! table_def   := 'Table' IDENT '{' (member (',' member)*)? ','? '}'
//! member      := IDENT ':' ('int' | 'string')
//! ```
//!
//! Each function reads one construct from the front of the tokens and says
//! what it stands for and which tokens are left. Where the tokens do not begin
//! with the construct, it names the first token that does not fit; that token
//! counts as read.

use crate::ast::{operator_of_token, AstView, MemberView, OP};
use crate::primitive::{type_of_token, Type};
use crate::token::{KeywordKind, SpecToken, Token};
use vstd::prelude::*;

verus! {

/// What the parser was looking for when it met a token that does not fit.
#[derive(Debug, PartialEq, Eq, Clone, Copy, Structural)]
pub enum Expected {
    /// The first token of a statement.
    Statement,
    /// A number or a string literal.
    Term,
    /// An identifier.
    Identifier,
    /// The given punctuation character.
    Symbol(char),
    /// The name of a column type.
    TypeName,
    /// The keyword that introduces a table definition.
    TableKeyword,
}

impl Expected {
    /// Tells whether `token` is what was looked for.
    pub open spec fn admits(self, token: SpecToken) -> bool {
        match self {
            Expected::Statement => token is Number || token is StrLiteral || token is Ident
                || token == SpecToken::Keyword(KeywordKind::Table),
            Expected::Term => token is Number || token is StrLiteral,
            Expected::Identifier => token is Ident,
            Expected::Symbol(c) => token == SpecToken::Symbol(c),
            Expected::TypeName => token == SpecToken::Keyword(KeywordKind::Int) || token
                == SpecToken::Keyword(KeywordKind::StrLiteral),
            Expected::TableKeyword => token == SpecToken::Keyword(KeywordKind::Table),
        }
    }

    /// Tells whether `token` is what was looked for.
    pub fn accepts(self, token: &Token) -> (b: bool)
        ensures
            b == self.admits(token@),
    {
        match self {
            Expected::Statement => match token {
                Token::Number(_) | Token::StrLiteral(_) | Token::Ident(_) | Token::Keyword(
                    KeywordKind::Table,
                ) => true,
                _ => false,
            },
            Expected::Term => match token {
                Token::Number(_) | Token::StrLiteral(_) => true,
                _ => false,
            },
            Expected::Identifier => match token {
                Token::Ident(_) => true,
                _ => false,
            },
            Expected::Symbol(c) => match token {
                Token::Symbol(d) => *d == c,
                _ => false,
            },
            Expected::TypeName => match token {
                Token::Keyword(KeywordKind::Int) | Token::Keyword(KeywordKind::StrLiteral) => true,
                _ => false,
            },
            Expected::TableKeyword => match token {
                Token::Keyword(KeywordKind::Table) => true,
                _ => false,
            },
        }
    }
}

/// Why the tokens are not a statement.
#[derive(Debug, PartialEq)]
pub enum ParseError {
    /// A token that does not fit, and what was looked for in its place.
    UnexpectedToken { expected: Expected, found: Token },
    /// The tokens end where the statement is not yet complete.
    UnexpectedEnd,
}

/// What a [`ParseError`] stands for.
pub ghost enum ParseErrorView {
    UnexpectedToken { expected: Expected, found: SpecToken },
    UnexpectedEnd,
}

impl View for ParseError {
    type V = ParseErrorView;

    open spec fn view(&self) -> ParseErrorView {
        match self {
            ParseError::UnexpectedToken { expected, found } => ParseErrorView::UnexpectedToken {
                expected: *expected,
                found: found@,
            },
            ParseError::UnexpectedEnd => ParseErrorView::UnexpectedEnd,
        }
    }
}

/// The outcome of reading a construct: what it stands for, or why it could not
/// be read, and the tokens that are left.
pub ghost struct Parsed<T> {
    pub result: Result<T, ParseErrorView>,
    pub rest: Seq<SpecToken>,
}

impl<T> Parsed<T> {
    /// The same failure, where another construct was being read.
    pub open spec fn failure<U>(self) -> Parsed<U> {
        Parsed { result: Err(self.result->Err_0), rest: self.rest }
    }
}

/// Reads one token, which must be what is looked for.
pub open spec fn expect(expected: Expected, tokens: Seq<SpecToken>) -> Parsed<SpecToken> {
    if tokens.len() == 0 {
        Parsed { result: Err(ParseErrorView::UnexpectedEnd), rest: tokens }
    } else if expected.admits(tokens[0]) {
        Parsed { result: Ok(tokens[0]), rest: tokens.skip(1) }
    } else {
        Parsed {
            result: Err(ParseErrorView::UnexpectedToken { expected, found: tokens[0] }),
            rest: tokens.skip(1),
        }
    }
}

/// The text of an identifier or a string literal.
pub open spec fn text_of(token: SpecToken) -> Seq<char> {
    match token {
        SpecToken::Ident(s) => s,
        SpecToken::StrLiteral(s) => s,
        _ => Seq::empty(),
    }
}

/// The literal that a number or a string literal token stands for.
pub open spec fn literal_of(token: SpecToken) -> AstView {
    match token {
        SpecToken::Number(n) => AstView::Number(n),
        _ => AstView::StrLiteral(text_of(token)),
    }
}

/// The tree that applies `op` to `left` and `right`.
pub open spec fn binop(left: AstView, op: OP, right: AstView) -> AstView {
    AstView::BinOP(Box::new(left), op, Box::new(right))
}

/// `term := NUMBER | STRING`
pub open spec fn parse_term(tokens: Seq<SpecToken>) -> Parsed<AstView> {
    let token = expect(Expected::Term, tokens);
    if token.result is Err {
        token.failure()
    } else {
        Parsed { result: Ok(literal_of(token.result->Ok_0)), rest: token.rest }
    }
}

/// The levels of binary operators, from the one that binds tightest.
#[derive(Debug, PartialEq, Eq, Clone, Copy, Structural)]
pub enum Level {
    /// `*` and `/`
    Multiplicative,
    /// `+` and `-`
    Additive,
    /// `==`
    Equality,
}

impl Level {
    /// The place of the level among the levels, counted from the tightest.
    pub open spec fn rank(self) -> nat {
        match self {
            Level::Multiplicative => 0,
            Level::Additive => 1,
            Level::Equality => 2,
        }
    }

    /// Tells whether `token` is an operator of this level.
    pub open spec fn binds(self, token: SpecToken) -> bool {
        match self {
            Level::Multiplicative => token is Mul || token is Slash,
            Level::Additive => token is Add || token is Minus,
            Level::Equality => token is EqEq,
        }
    }

    /// Tells whether `token` is an operator of this level.
    pub fn has_operator(self, token: &Token) -> (b: bool)
        ensures
            b == self.binds(token@),
    {
        match self {
            Level::Multiplicative => match token {
                Token::Mul | Token::Slash => true,
                _ => false,
            },
            Level::Additive => match token {
                Token::Add | Token::Minus => true,
                _ => false,
            },
            Level::Equality => match token {
                Token::EqEq => true,
                _ => false,
            },
        }
    }
}

/// `('*' | '/') term` as often as it can be read, applied to `left` from the
/// left.
pub open spec fn mul_tail(left: AstView, tokens: Seq<SpecToken>) -> Parsed<AstView>
    decreases tokens.len(),
{
    if tokens.len() > 0 && Level::Multiplicative.binds(tokens[0]) {
        let right = parse_term(tokens.skip(1));
        if right.result is Err {
            right
        } else {
            mul_tail(binop(left, operator_of_token(tokens[0]), right.result->Ok_0), right.rest)
        }
    } else {
        Parsed { result: Ok(left), rest: tokens }
    }
}

/// `mult := term (('*' | '/') term)*`
pub open spec fn parse_mul(tokens: Seq<SpecToken>) -> Parsed<AstView> {
    let first = parse_term(tokens);
    if first.result is Err {
        first
    } else {
        mul_tail(first.result->Ok_0, first.rest)
    }
}

/// Reading a product leaves no more tokens than there were.
pub proof fn lemma_mul_tail_shrinks(left: AstView, tokens: Seq<SpecToken>)
    ensures
        mul_tail(left, tokens).rest.len() <= tokens.len(),
    decreases tokens.len(),
{
    if tokens.len() > 0 && Level::Multiplicative.binds(tokens[0]) {
        let right = parse_term(tokens.skip(1));
        if right.result is Ok {
            lemma_mul_tail_shrinks(
                binop(left, operator_of_token(tokens[0]), right.result->Ok_0),
                right.rest,
            );
        }
    }
}

/// Reading a product leaves no more tokens than there were.
pub proof fn lemma_parse_mul_shrinks(tokens: Seq<SpecToken>)
    ensures
        parse_mul(tokens).rest.len() <= tokens.len(),
{
    let first = parse_term(tokens);
    if first.result is Ok {
        lemma_mul_tail_shrinks(first.result->Ok_0, first.rest);
    }
}

/// `('+' | '-') mult` as often as it can be read, applied to `left` from the
/// left.
pub open spec fn add_tail(left: AstView, tokens: Seq<SpecToken>) -> Parsed<AstView>
    decreases tokens.len(),
    via add_tail_terminates
{
    if tokens.len() > 0 && Level::Additive.binds(tokens[0]) {
        let right = parse_mul(tokens.skip(1));
        if right.result is Err {
            right
        } else {
            add_tail(binop(left, operator_of_token(tokens[0]), right.result->Ok_0), right.rest)
        }
    } else {
        Parsed { result: Ok(left), rest: tokens }
    }
}

#[via_fn]
proof fn add_tail_terminates(left: AstView, tokens: Seq<SpecToken>) {
    if tokens.len() > 0 {
        lemma_parse_mul_shrinks(tokens.skip(1));
    }
}

/// `additive := mult (('+' | '-') mult)*`
pub open spec fn parse_add(tokens: Seq<SpecToken>) -> Parsed<AstView> {
    let first = parse_mul(tokens);
    if first.result is Err {
        first
    } else {
        add_tail(first.result->Ok_0, first.rest)
    }
}

/// Reading a sum leaves no more tokens than there were.
pub proof fn lemma_add_tail_shrinks(left: AstView, tokens: Seq<SpecToken>)
    ensures
        add_tail(left, tokens).rest.len() <= tokens.len(),
    decreases tokens.len(),
{
    if tokens.len() > 0 && Level::Additive.binds(tokens[0]) {
        let right = parse_mul(tokens.skip(1));
        lemma_parse_mul_shrinks(tokens.skip(1));
        if right.result is Ok {
            lemma_add_tail_shrinks(
                binop(left, operator_of_token(tokens[0]), right.result->Ok_0),
                right.rest,
            );
        }
    }
}

/// Reading a sum leaves no more tokens than there were.
pub proof fn lemma_parse_add_shrinks(tokens: Seq<SpecToken>)
    ensures
        parse_add(tokens).rest.len() <= tokens.len(),
{
    let first = parse_mul(tokens);
    lemma_parse_mul_shrinks(tokens);
    if first.result is Ok {
        lemma_add_tail_shrinks(first.result->Ok_0, first.rest);
    }
}

/// `'==' additive` as often as it can be read, applied to `left` from the
/// left.
pub open spec fn equal_tail(left: AstView, tokens: Seq<SpecToken>) -> Parsed<AstView>
    decreases tokens.len(),
    via equal_tail_terminates
{
    if tokens.len() > 0 && Level::Equality.binds(tokens[0]) {
        let right = parse_add(tokens.skip(1));
        if right.result is Err {
            right
        } else {
            equal_tail(binop(left, operator_of_token(tokens[0]), right.result->Ok_0), right.rest)
        }
    } else {
        Parsed { result: Ok(left), rest: tokens }
    }
}

#[via_fn]
proof fn equal_tail_terminates(left: AstView, tokens: Seq<SpecToken>) {
    if tokens.len() > 0 {
        lemma_parse_add_shrinks(tokens.skip(1));
    }
}

/// `equality := additive ('==' additive)*`
pub open spec fn parse_equal(tokens: Seq<SpecToken>) -> Parsed<AstView> {
    let first = parse_add(tokens);
    if first.result is Err {
        first
    } else {
        equal_tail(first.result->Ok_0, first.rest)
    }
}

/// Reading a comparison leaves no more tokens than there were.
pub proof fn lemma_equal_tail_shrinks(left: AstView, tokens: Seq<SpecToken>)
    ensures
        equal_tail(left, tokens).rest.len() <= tokens.len(),
    decreases tokens.len(),
{
    if tokens.len() > 0 && Level::Equality.binds(tokens[0]) {
        let right = parse_add(tokens.skip(1));
        lemma_parse_add_shrinks(tokens.skip(1));
        if right.result is Ok {
            lemma_equal_tail_shrinks(
                binop(left, operator_of_token(tokens[0]), right.result->Ok_0),
                right.rest,
            );
        }
    }
}

/// `expr := equality`
pub open spec fn parse_expr(tokens: Seq<SpecToken>) -> Parsed<AstView> {
    parse_equal(tokens)
}

/// Reading an expression leaves no more tokens than there were.
pub proof fn lemma_parse_expr_shrinks(tokens: Seq<SpecToken>)
    ensures
        parse_expr(tokens).rest.len() <= tokens.len(),
{
    let first = parse_add(tokens);
    lemma_parse_add_shrinks(tokens);
    if first.result is Ok {
        lemma_equal_tail_shrinks(first.result->Ok_0, first.rest);
    }
}

/// The operands of `level`: what its operators combine.
pub open spec fn parse_operand(level: Level, tokens: Seq<SpecToken>) -> Parsed<AstView> {
    match level {
        Level::Multiplicative => parse_term(tokens),
        Level::Additive => parse_mul(tokens),
        Level::Equality => parse_add(tokens),
    }
}

/// The operators of `level` with their right operands, as often as they can
/// be read, applied to `left` from the left.
pub open spec fn parse_tail(level: Level, left: AstView, tokens: Seq<SpecToken>) -> Parsed<
    AstView,
> {
    match level {
        Level::Multiplicative => mul_tail(left, tokens),
        Level::Additive => add_tail(left, tokens),
        Level::Equality => equal_tail(left, tokens),
    }
}

/// A chain of operands of `level` joined by its operators.
pub open spec fn parse_level(level: Level, tokens: Seq<SpecToken>) -> Parsed<AstView> {
    match level {
        Level::Multiplicative => parse_mul(tokens),
        Level::Additive => parse_add(tokens),
        Level::Equality => parse_equal(tokens),
    }
}

/// `',' expr` as often as it can be read, added to the arguments `done`.
pub open spec fn args_tail(done: Seq<AstView>, tokens: Seq<SpecToken>) -> Parsed<Seq<AstView>>
    decreases tokens.len(),
    via args_tail_terminates
{
    if tokens.len() > 0 && tokens[0] == SpecToken::Symbol(',') {
        let next = parse_expr(tokens.skip(1));
        if next.result is Err {
            next.failure()
        } else {
            args_tail(done.push(next.result->Ok_0), next.rest)
        }
    } else {
        Parsed { result: Ok(done), rest: tokens }
    }
}

#[via_fn]
proof fn args_tail_terminates(done: Seq<AstView>, tokens: Seq<SpecToken>) {
    if tokens.len() > 0 {
        lemma_parse_expr_shrinks(tokens.skip(1));
    }
}

/// `(expr (',' expr)*)?`, up to a closing parenthesis that is left unread.
pub open spec fn parse_args(tokens: Seq<SpecToken>) -> Parsed<Seq<AstView>> {
    if tokens.len() > 0 && tokens[0] == SpecToken::Symbol(')') {
        Parsed { result: Ok(Seq::empty()), rest: tokens }
    } else {
        let first = parse_expr(tokens);
        if first.result is Err {
            first.failure()
        } else {
            args_tail(seq![first.result->Ok_0], first.rest)
        }
    }
}

/// `method_call := IDENT '.' IDENT '(' (expr (',' expr)*)? ')'`
pub open spec fn parse_method_call(tokens: Seq<SpecToken>) -> Parsed<AstView> {
    let table = expect(Expected::Identifier, tokens);
    let dot = expect(Expected::Symbol('.'), table.rest);
    let name = expect(Expected::Identifier, dot.rest);
    let open = expect(Expected::Symbol('('), name.rest);
    let args = parse_args(open.rest);
    let close = expect(Expected::Symbol(')'), args.rest);
    if table.result is Err {
        table.failure()
    } else if dot.result is Err {
        dot.failure()
    } else if name.result is Err {
        name.failure()
    } else if open.result is Err {
        open.failure()
    } else if args.result is Err {
        args.failure()
    } else if close.result is Err {
        close.failure()
    } else {
        Parsed {
            result: Ok(
                AstView::MethodCall {
                    table: text_of(table.result->Ok_0),
                    name: text_of(name.result->Ok_0),
                    args: args.result->Ok_0,
                },
            ),
            rest: close.rest,
        }
    }
}

/// `member := IDENT ':' ('int' | 'string')`
pub open spec fn parse_member(tokens: Seq<SpecToken>) -> Parsed<MemberView> {
    let field = expect(Expected::Identifier, tokens);
    let colon = expect(Expected::Symbol(':'), field.rest);
    let typ = expect(Expected::TypeName, colon.rest);
    if field.result is Err {
        field.failure()
    } else if colon.result is Err {
        colon.failure()
    } else if typ.result is Err {
        typ.failure()
    } else {
        Parsed {
            result: Ok(
                MemberView {
                    typ: type_of_token(typ.result->Ok_0),
                    field: text_of(field.result->Ok_0),
                },
            ),
            rest: typ.rest,
        }
    }
}

/// `member (',' member)* ','?` where the tokens begin with an identifier,
/// added to the members `done`; nothing otherwise.
pub open spec fn member_list(done: Seq<MemberView>, tokens: Seq<SpecToken>) -> Parsed<
    Seq<MemberView>,
>
    decreases tokens.len(),
{
    if tokens.len() > 0 && tokens[0] is Ident {
        let member = parse_member(tokens);
        if member.result is Err {
            member.failure()
        } else if member.rest.len() > 0 && member.rest[0] == SpecToken::Symbol(',') {
            member_list(done.push(member.result->Ok_0), member.rest.skip(1))
        } else {
            Parsed { result: Ok(done.push(member.result->Ok_0)), rest: member.rest }
        }
    } else {
        Parsed { result: Ok(done), rest: tokens }
    }
}

/// `(member (',' member)*)? ','?`, up to a closing brace that is left unread.
pub open spec fn parse_members(tokens: Seq<SpecToken>) -> Parsed<Seq<MemberView>> {
    if tokens.len() > 0 && tokens[0] == SpecToken::Symbol(',') {
        Parsed { result: Ok(Seq::empty()), rest: tokens.skip(1) }
    } else {
        member_list(Seq::empty(), tokens)
    }
}

/// `table_def := 'Table' IDENT '{' (member (',' member)*)? ','? '}'`
pub open spec fn parse_table_def(tokens: Seq<SpecToken>) -> Parsed<AstView> {
    let keyword = expect(Expected::TableKeyword, tokens);
    let name = expect(Expected::Identifier, keyword.rest);
    let open = expect(Expected::Symbol('{'), name.rest);
    let members = parse_members(open.rest);
    let close = expect(Expected::Symbol('}'), members.rest);
    if keyword.result is Err {
        keyword.failure()
    } else if name.result is Err {
        name.failure()
    } else if open.result is Err {
        open.failure()
    } else if members.result is Err {
        members.failure()
    } else if close.result is Err {
        close.failure()
    } else {
        Parsed {
            result: Ok(
                AstView::TableDef {
                    name: text_of(name.result->Ok_0),
                    members: members.result->Ok_0,
                },
            ),
            rest: close.rest,
        }
    }
}

/// `statement := expr | method_call | table_def`, told apart by the first
/// token.
pub open spec fn parse_statement(tokens: Seq<SpecToken>) -> Parsed<AstView> {
    if tokens.len() == 0 || !Expected::Statement.admits(tokens[0]) {
        expect(Expected::Statement, tokens).failure()
    } else if tokens[0] is Ident {
        parse_method_call(tokens)
    } else if tokens[0] is Keyword {
        parse_table_def(tokens)
    } else {
        parse_expr(tokens)
    }
}

/// The keyword that names a column type.
pub open spec fn type_token(typ: Type) -> SpecToken {
    match typ {
        Type::Int => SpecToken::Keyword(KeywordKind::Int),
        Type::StrLiteral => SpecToken::Keyword(KeywordKind::StrLiteral),
    }
}

/// The tokens that declare one column.
pub open spec fn member_tokens(member: MemberView) -> Seq<SpecToken> {
    seq![SpecToken::Ident(member.field), SpecToken::Symbol(':'), type_token(member.typ)]
}

/// The tokens that declare the columns in their order, with a comma between
/// each two.
pub open spec fn member_list_tokens(members: Seq<MemberView>) -> Seq<SpecToken>
    decreases members.len(),
{
    if members.len() == 0 {
        Seq::empty()
    } else if members.len() == 1 {
        member_tokens(members[0])
    } else {
        member_tokens(members[0]) + seq![SpecToken::Symbol(',')] + member_list_tokens(
            members.skip(1),
        )
    }
}

/// A comma, where one is asked for.
pub open spec fn optional_comma(present: bool) -> Seq<SpecToken> {
    if present {
        seq![SpecToken::Symbol(',')]
    } else {
        Seq::empty()
    }
}

/// The tokens that define a table of the given name and columns, with or
/// without a comma behind the last column.
pub open spec fn table_def_tokens(
    name: Seq<char>,
    members: Seq<MemberView>,
    trailing_comma: bool,
) -> Seq<SpecToken> {
    seq![
        SpecToken::Keyword(KeywordKind::Table),
        SpecToken::Ident(name),
        SpecToken::Symbol('{'),
    ] + member_list_tokens(members) + optional_comma(trailing_comma) + seq![
        SpecToken::Symbol('}'),
    ]
}

/// The declaration of a column is read back as that column, whatever follows
/// it.
pub proof fn lemma_parse_member_tokens(member: MemberView, after: Seq<SpecToken>)
    ensures
        parse_member(member_tokens(member) + after) == (Parsed {
            result: Ok(member),
            rest: after,
        }),
{
    let tokens = member_tokens(member) + after;
    assert(tokens[0] == SpecToken::Ident(member.field));
    assert(tokens.skip(1)[0] == SpecToken::Symbol(':'));
    assert(tokens.skip(1).skip(1)[0] == type_token(member.typ));
    assert(tokens.skip(1).skip(1).skip(1) =~= after);
}

/// After the declaration of a column, a comma leads on to further columns,
/// and anything else ends the list.
pub proof fn lemma_member_list_step(
    done: Seq<MemberView>,
    member: MemberView,
    behind: Seq<SpecToken>,
)
    ensures
        member_list(done, member_tokens(member) + behind) == if behind.len() > 0 && behind[0]
            == SpecToken::Symbol(',') {
            member_list(done.push(member), behind.skip(1))
        } else {
            Parsed { result: Ok(done.push(member)), rest: behind }
        },
{
    let tokens = member_tokens(member) + behind;
    lemma_parse_member_tokens(member, behind);
    assert(tokens.len() > 0 && tokens[0] is Ident);
}

/// The declarations of one or more columns are read back as those columns in
/// the same order, up to what follows them, where that begins neither a
/// column nor with a comma.
pub proof fn lemma_member_list_tokens(
    done: Seq<MemberView>,
    members: Seq<MemberView>,
    trailing_comma: bool,
    after: Seq<SpecToken>,
)
    requires
        members.len() > 0,
        after.len() > 0 ==> !(after[0] is Ident) && after[0] != SpecToken::Symbol(','),
    ensures
        member_list(done, member_list_tokens(members) + optional_comma(trailing_comma) + after)
            == (Parsed { result: Ok(done + members), rest: after }),
    decreases members.len(),
{
    let first = members[0];
    let tokens = member_list_tokens(members) + optional_comma(trailing_comma) + after;
    if members.len() == 1 {
        let behind = optional_comma(trailing_comma) + after;
        assert(tokens =~= member_tokens(first) + behind);
        lemma_member_list_step(done, first, behind);
        assert(done.push(first) =~= done + members);
        if trailing_comma {
            assert(behind[0] == SpecToken::Symbol(','));
            assert(behind.skip(1) =~= after);
            assert(member_list(done.push(first), after) == (Parsed {
                result: Ok(done.push(first)),
                rest: after,
            }));
        } else {
            assert(behind =~= after);
        }
    } else {
        let others = members.skip(1);
        let further = member_list_tokens(others) + optional_comma(trailing_comma) + after;
        let behind = seq![SpecToken::Symbol(',')] + further;
        assert(tokens =~= member_tokens(first) + behind);
        lemma_member_list_step(done, first, behind);
        assert(behind[0] == SpecToken::Symbol(','));
        assert(behind.skip(1) =~= further);
        lemma_member_list_tokens(done.push(first), others, trailing_comma, after);
        assert(done.push(first) + others =~= done + members);
    }
}

/// A table definition that is written out as tokens is read back as it was:
/// with its name, and with its columns in the order in which they were
/// declared, whether or not a comma follows the last one. What stands behind
/// the definition is left unread.
pub proof fn lemma_table_def_round_trip(
    name: Seq<char>,
    members: Seq<MemberView>,
    trailing_comma: bool,
    after: Seq<SpecToken>,
)
    ensures
        parse_table_def(table_def_tokens(name, members, trailing_comma) + after) == (Parsed {
            result: Ok(AstView::TableDef { name, members }),
            rest: after,
        }),
        parse_statement(table_def_tokens(name, members, trailing_comma) + after)
            == parse_table_def(table_def_tokens(name, members, trailing_comma) + after),
{
    let tokens = table_def_tokens(name, members, trailing_comma) + after;
    let close = seq![SpecToken::Symbol('}')] + after;
    let body = member_list_tokens(members) + optional_comma(trailing_comma) + close;
    assert(tokens[0] == SpecToken::Keyword(KeywordKind::Table));
    assert(tokens.skip(1)[0] == SpecToken::Ident(name));
    assert(tokens.skip(1).skip(1)[0] == SpecToken::Symbol('{'));
    assert(tokens.skip(1).skip(1).skip(1) =~= body);
    assert(close[0] == SpecToken::Symbol('}'));
    assert(close.skip(1) =~= after);
    if members.len() == 0 {
        assert(Seq::<MemberView>::empty() =~= members);
        if trailing_comma {
            assert(body[0] == SpecToken::Symbol(','));
            assert(body.skip(1) =~= close);
        } else {
            assert(body =~= close);
        }
    } else {
        lemma_member_list_tokens(Seq::empty(), members, trailing_comma, close);
        assert(Seq::<MemberView>::empty() + members =~= members);
        assert(body[0] == member_list_tokens(members)[0]);
        assert(member_list_tokens(members)[0] == member_tokens(members[0])[0]);
    }
}

} // verus!
