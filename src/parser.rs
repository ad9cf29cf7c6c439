use crate::expr::{
    arithmetic_value, conversion_functional, conversion_total, eval, is_arithmetic,
    is_literal_kind, lemma_arithmetic_evaluates, literal_of, ArithOp, Expr, LiteralValue, Val,
};
use crate::lexer::{Token, TokenType};
use crate::stmt::Stmt;
use crate::text::{append, chars_of, decimal, decimal_text, join_all, joined, text_of};
use vstd::prelude::*;

verus! {

/// A parse of a piece of the input: the node and the position after it, or a
/// message and the position where parsing stopped.
pub type Parsed<T> = Result<(T, int), (Seq<char>, int)>;

/// Tokens a parser can work on: at least one, the last the end of input.
pub open spec fn well_terminated(t: Seq<Token>) -> bool {
    t.len() > 0 && t.last().token_type == TokenType::Eof
}

pub open spec fn kind_at(t: Seq<Token>, p: int) -> TokenType {
    t[p].token_type
}

/// The operators of a binary precedence level: 4 equality, 3 comparison,
/// 2 term, 1 factor.
pub open spec fn level_has(l: nat, k: TokenType) -> bool {
    if l == 4 {
        k == TokenType::BangEqual || k == TokenType::EqualEqual
    } else if l == 3 {
        k == TokenType::Greater || k == TokenType::GreaterEqual || k == TokenType::Less || k
            == TokenType::LessEqual
    } else if l == 2 {
        k == TokenType::Minus || k == TokenType::Plus
    } else {
        k == TokenType::Slash || k == TokenType::Star
    }
}

pub open spec fn expected_expression_message(line: nat) -> Seq<char> {
    "Expected expression on line "@ + decimal(line)
}

pub open spec fn closing_paren_message() -> Seq<char> {
    "Expected ')' here"@
}

pub open spec fn semicolon_message() -> Seq<char> {
    "Expected ';' after statement"@
}

pub open spec fn variable_name_message() -> Seq<char> {
    "Expected variable name"@
}

pub open spec fn parse_expression<C: Fn(i64) -> u64>(t: Seq<Token>, p: int, c: C) -> Parsed<Expr>
    decreases t.len() - p, 10int,
{
    parse_level(t, p, 4, c)
}

/// One binary precedence level: an operand of the next tighter level, then
/// any number of (operator, operand) pairs, grouped to the left.
pub open spec fn parse_level<C: Fn(i64) -> u64>(t: Seq<Token>, p: int, l: nat, c: C) -> Parsed<Expr>
    decreases t.len() - p, 2 * l + 1,
{
    if !(0 <= p < t.len()) || l < 1 || l > 4 {
        Err((Seq::empty(), p))
    } else {
        match parse_operand(t, p, l, c) {
            Err(e) => Err(e),
            Ok((e, q)) => if p < q < t.len() {
                parse_level_rest(t, e, q, l, c)
            } else {
                Err((Seq::empty(), q))
            },
        }
    }
}

/// The operand of level `l`: the next tighter level, or a unary.
pub open spec fn parse_operand<C: Fn(i64) -> u64>(t: Seq<Token>, p: int, l: nat, c: C) -> Parsed<Expr>
    decreases t.len() - p, 2 * l,
{
    if !(0 <= p < t.len()) || l < 1 || l > 4 {
        Err((Seq::empty(), p))
    } else if l == 1 {
        parse_unary(t, p, c)
    } else {
        parse_level(t, p, (l - 1) as nat, c)
    }
}

pub open spec fn parse_level_rest<C: Fn(i64) -> u64>(t: Seq<Token>, lhs: Expr, q: int, l: nat, c: C) -> Parsed<Expr>
    decreases t.len() - q, 2 * l + 1,
{
    if !(0 <= q < t.len()) || l < 1 || l > 4 {
        Err((Seq::empty(), q))
    } else if level_has(l, kind_at(t, q)) && q + 1 < t.len() {
        match parse_operand(t, q + 1, l, c) {
            Err(e) => Err(e),
            Ok((rhs, q2)) => if q < q2 < t.len() {
                parse_level_rest(
                    t,
                    Expr::Binary { left: Box::new(lhs), operator: t[q], right: Box::new(rhs) },
                    q2,
                    l,
                 c)
            } else {
                Err((Seq::empty(), q2))
            },
        }
    } else {
        Ok((lhs, q))
    }
}

pub open spec fn parse_unary<C: Fn(i64) -> u64>(t: Seq<Token>, p: int, c: C) -> Parsed<Expr>
    decreases t.len() - p, 1int,
{
    if !(0 <= p < t.len()) {
        Err((Seq::empty(), p))
    } else if (kind_at(t, p) == TokenType::Bang || kind_at(t, p) == TokenType::Minus) && p + 1
        < t.len() {
        match parse_unary(t, p + 1, c) {
            Err(e) => Err(e),
            Ok((rhs, q)) => Ok((Expr::Unary { operator: t[p], right: Box::new(rhs) }, q)),
        }
    } else {
        parse_primary(t, p, c)
    }
}

pub open spec fn parse_primary<C: Fn(i64) -> u64>(t: Seq<Token>, p: int, c: C) -> Parsed<Expr>
    decreases t.len() - p, 0int,
{
    if !(0 <= p < t.len()) {
        Err((Seq::empty(), p))
    } else if kind_at(t, p) == TokenType::LeftParent && p + 1 < t.len() {
        match parse_expression(t, p + 1, c) {
            Err(e) => Err(e),
            Ok((e, q)) => if 0 <= q < t.len() && kind_at(t, q) == TokenType::RightParent {
                Ok((Expr::Grouping { expression: Box::new(e) }, q + 1))
            } else {
                Err((closing_paren_message(), q))
            },
        }
    } else if kind_at(t, p) == TokenType::Identifier {
        Ok((Expr::Variable { name: t[p] }, p + 1))
    } else if is_literal_kind(kind_at(t, p)) {
        match literal_of(t[p], c) {
            Ok(v) => Ok((Expr::Literal { value: v }, p + 1)),
            Err(m) => Err((m, p + 1)),
        }
    } else {
        Err((expected_expression_message(t[p].line_number as nat), p))
    }
}

/// A statement ending in `;` at `q`.
pub open spec fn terminated_at(t: Seq<Token>, s: Stmt, q: int) -> Parsed<Stmt> {
    if 0 <= q < t.len() && kind_at(t, q) == TokenType::Semicolon {
        Ok((s, q + 1))
    } else {
        Err((semicolon_message(), q))
    }
}

pub open spec fn parse_declaration<C: Fn(i64) -> u64>(t: Seq<Token>, p: int, c: C) -> Parsed<Stmt> {
    if !(0 <= p < t.len()) {
        Err((Seq::empty(), p))
    } else if kind_at(t, p) == TokenType::Var && p + 1 < t.len() {
        parse_var_declaration(t, p + 1, c)
    } else {
        parse_statement(t, p, c)
    }
}

pub open spec fn parse_var_declaration<C: Fn(i64) -> u64>(t: Seq<Token>, p: int, c: C) -> Parsed<Stmt> {
    if !(0 <= p < t.len()) || kind_at(t, p) != TokenType::Identifier || p + 1 >= t.len() {
        Err((variable_name_message(), p))
    } else if kind_at(t, p + 1) == TokenType::Equal && p + 2 < t.len() {
        match parse_expression(t, p + 2, c) {
            Err(e) => Err(e),
            Ok((e, q)) => terminated_at(t, Stmt::Var { name: t[p], initialiser: e }, q),
        }
    } else {
        terminated_at(
            t,
            Stmt::Var { name: t[p], initialiser: Expr::Literal { value: LiteralValue::Nil } },
            p + 1,
        )
    }
}

pub open spec fn parse_statement<C: Fn(i64) -> u64>(t: Seq<Token>, p: int, c: C) -> Parsed<Stmt> {
    if !(0 <= p < t.len()) {
        Err((Seq::empty(), p))
    } else if kind_at(t, p) == TokenType::Print && p + 1 < t.len() {
        match parse_expression(t, p + 1, c) {
            Err(e) => Err(e),
            Ok((e, q)) => terminated_at(t, Stmt::Print { expression: e }, q),
        }
    } else {
        match parse_expression(t, p, c) {
            Err(e) => Err(e),
            Ok((e, q)) => terminated_at(t, Stmt::Expression { expression: e }, q),
        }
    }
}

/// Kinds that begin a statement; recovery stops in front of them.
pub open spec fn starts_statement(k: TokenType) -> bool {
    k == TokenType::Class || k == TokenType::Fun || k == TokenType::Var || k == TokenType::For
        || k == TokenType::If || k == TokenType::While || k == TokenType::Print || k
        == TokenType::Return
}

pub open spec fn synchronise_from(t: Seq<Token>, q: int) -> int
    decreases t.len() - q,
{
    if !(1 <= q < t.len()) || kind_at(t, q) == TokenType::Eof || kind_at(t, q - 1)
        == TokenType::Semicolon || starts_statement(kind_at(t, q)) {
        q
    } else {
        synchronise_from(t, q + 1)
    }
}

/// Where parsing resumes after an error at `q`: past the next `;`, or in
/// front of the next token that begins a statement, or at the end.
pub open spec fn synchronised(t: Seq<Token>, q: int) -> int {
    if 0 <= q < t.len() && kind_at(t, q) != TokenType::Eof {
        synchronise_from(t, q + 1)
    } else {
        q
    }
}

/// The statements and the error messages of a program from position `p`.
pub open spec fn parse_program<C: Fn(i64) -> u64>(t: Seq<Token>, p: int, c: C) -> (Seq<Stmt>, Seq<Seq<char>>)
    decreases t.len() - p,
{
    if !(0 <= p < t.len()) || kind_at(t, p) == TokenType::Eof {
        (Seq::empty(), Seq::empty())
    } else {
        match parse_declaration(t, p, c) {
            Ok((s, q)) => if p < q <= t.len() {
                let rest = parse_program(t, q, c);
                (seq![s] + rest.0, rest.1)
            } else {
                (Seq::empty(), Seq::empty())
            },
            Err((m, q)) => {
                let r = synchronised(t, q);
                if p < r <= t.len() {
                    let rest = parse_program(t, r, c);
                    (rest.0, seq![m] + rest.1)
                } else {
                    (Seq::empty(), Seq::empty())
                }
            },
        }
    }
}

pub proof fn lemma_synchronise_advances(t: Seq<Token>, q: int)
    ensures
        synchronise_from(t, q) >= q,
    decreases t.len() - q,
{
    if 1 <= q < t.len() && kind_at(t, q) != TokenType::Eof && kind_at(t, q - 1)
        != TokenType::Semicolon && !starts_statement(kind_at(t, q)) {
        lemma_synchronise_advances(t, q + 1);
    }
}

/// From inside a broken statement whose rest holds no `;`, no token that
/// begins a statement and no end of input, recovery lands just past the
/// `;` at `e`.
pub proof fn lemma_synchronise_to_semicolon(t: Seq<Token>, q: int, x: int, e: int)
    requires
        0 <= q < x <= e + 1,
        e < t.len(),
        kind_at(t, e) == TokenType::Semicolon,
        forall|y: int| q <= y < e ==> kind_at(t, y) != TokenType::Semicolon,
        forall|y: int|
            q < y < e ==> kind_at(t, y) != TokenType::Eof && !starts_statement(kind_at(t, y)),
    ensures
        synchronise_from(t, x) == e + 1,
    decreases e + 1 - x,
{
    if x <= e {
        lemma_synchronise_to_semicolon(t, q, x + 1, e);
    }
}

/// A statement that fails to parse costs exactly one error message: parsing
/// resumes just past the `;` that ends it, as if the statement were absent.
pub proof fn lemma_one_error_per_broken_statement<C: Fn(i64) -> u64>(
    t: Seq<Token>,
    p: int,
    e: int,
    c: C,
)
    requires
        0 <= p <= e < t.len(),
        kind_at(t, p) != TokenType::Eof,
        parse_declaration(t, p, c) is Err,
        p <= parse_declaration(t, p, c)->Err_0.1 <= e,
        kind_at(t, e) == TokenType::Semicolon,
        forall|y: int|
            parse_declaration(t, p, c)->Err_0.1 <= y < e ==> kind_at(t, y) != TokenType::Semicolon,
        forall|y: int|
            parse_declaration(t, p, c)->Err_0.1 <= y < e ==> kind_at(t, y) != TokenType::Eof,
        forall|y: int|
            parse_declaration(t, p, c)->Err_0.1 < y < e ==> !starts_statement(kind_at(t, y)),
    ensures
        parse_program(t, p, c) == (
            parse_program(t, e + 1, c).0,
            seq![parse_declaration(t, p, c)->Err_0.0] + parse_program(t, e + 1, c).1,
        ),
{
    let q = parse_declaration(t, p, c)->Err_0.1;
    lemma_synchronise_to_semicolon(t, q, q + 1, e);
    assert(synchronised(t, q) == e + 1);
}

/// Two broken statements, each ended by a `;`, followed by a part that parses
/// cleanly, give exactly two error messages: no cascade.
pub proof fn lemma_two_broken_statements<C: Fn(i64) -> u64>(
    t: Seq<Token>,
    p: int,
    e1: int,
    e2: int,
    c: C,
)
    requires
        0 <= p <= e1 < e2 < t.len(),
        kind_at(t, p) != TokenType::Eof,
        kind_at(t, e1 + 1) != TokenType::Eof,
        parse_declaration(t, p, c) is Err,
        p <= parse_declaration(t, p, c)->Err_0.1 <= e1,
        kind_at(t, e1) == TokenType::Semicolon,
        forall|y: int|
            parse_declaration(t, p, c)->Err_0.1 <= y < e1 ==> kind_at(t, y) != TokenType::Semicolon,
        forall|y: int|
            parse_declaration(t, p, c)->Err_0.1 <= y < e1 ==> kind_at(t, y) != TokenType::Eof,
        forall|y: int|
            parse_declaration(t, p, c)->Err_0.1 < y < e1 ==> !starts_statement(kind_at(t, y)),
        parse_declaration(t, e1 + 1, c) is Err,
        e1 + 1 <= parse_declaration(t, e1 + 1, c)->Err_0.1 <= e2,
        kind_at(t, e2) == TokenType::Semicolon,
        forall|y: int|
            parse_declaration(t, e1 + 1, c)->Err_0.1 <= y < e2 ==> kind_at(t, y)
                != TokenType::Semicolon,
        forall|y: int|
            parse_declaration(t, e1 + 1, c)->Err_0.1 <= y < e2 ==> kind_at(t, y) != TokenType::Eof,
        forall|y: int|
            parse_declaration(t, e1 + 1, c)->Err_0.1 < y < e2 ==> !starts_statement(kind_at(t, y)),
        parse_program(t, e2 + 1, c).1.len() == 0,
    ensures
        parse_program(t, p, c).1.len() == 2,
{
    lemma_one_error_per_broken_statement(t, p, e1, c);
    lemma_one_error_per_broken_statement(t, e1 + 1, e2, c);
}

/// Tokens, but for the final end of input, that are number literals,
/// parentheses or the four arithmetic operators.
pub open spec fn arithmetic_tokens(t: Seq<Token>) -> bool {
    forall|j: int|
        0 <= j < t.len() - 1 ==> {
            let k = #[trigger] t[j].token_type;
            k == TokenType::Number || k == TokenType::LeftParent || k == TokenType::RightParent
                || k == TokenType::Plus || k == TokenType::Minus || k == TokenType::Star || k
                == TokenType::Slash
        }
}

proof fn lemma_expression_arithmetic<C: Fn(i64) -> u64>(t: Seq<Token>, p: int, c: C)
    requires
        well_terminated(t),
        arithmetic_tokens(t),
    ensures
        parse_expression(t, p, c) matches Ok((e, _)) ==> is_arithmetic(e),
    decreases t.len() - p, 10int,
{
    lemma_level_arithmetic(t, p, 4, c);
}

proof fn lemma_level_arithmetic<C: Fn(i64) -> u64>(t: Seq<Token>, p: int, l: nat, c: C)
    requires
        well_terminated(t),
        arithmetic_tokens(t),
    ensures
        parse_level(t, p, l, c) matches Ok((e, _)) ==> is_arithmetic(e),
    decreases t.len() - p, 2 * l + 1,
{
    if 0 <= p < t.len() && 1 <= l <= 4 {
        lemma_operand_arithmetic(t, p, l, c);
        if let Ok((e, q)) = parse_operand(t, p, l, c) {
            if p < q < t.len() {
                lemma_level_rest_arithmetic(t, e, q, l, c);
            }
        }
    }
}

proof fn lemma_operand_arithmetic<C: Fn(i64) -> u64>(t: Seq<Token>, p: int, l: nat, c: C)
    requires
        well_terminated(t),
        arithmetic_tokens(t),
    ensures
        parse_operand(t, p, l, c) matches Ok((e, _)) ==> is_arithmetic(e),
    decreases t.len() - p, 2 * l,
{
    if 0 <= p < t.len() && 1 <= l <= 4 {
        if l == 1 {
            lemma_unary_arithmetic(t, p, c);
        } else {
            lemma_level_arithmetic(t, p, (l - 1) as nat, c);
        }
    }
}

proof fn lemma_level_rest_arithmetic<C: Fn(i64) -> u64>(
    t: Seq<Token>,
    lhs: Expr,
    q: int,
    l: nat,
    c: C,
)
    requires
        well_terminated(t),
        arithmetic_tokens(t),
        is_arithmetic(lhs),
    ensures
        parse_level_rest(t, lhs, q, l, c) matches Ok((e, _)) ==> is_arithmetic(e),
    decreases t.len() - q, 2 * l + 1,
{
    if 0 <= q < t.len() && 1 <= l <= 4 && level_has(l, kind_at(t, q)) && q + 1 < t.len() {
        assert(q < t.len() - 1);
        lemma_operand_arithmetic(t, q + 1, l, c);
        if let Ok((rhs, q2)) = parse_operand(t, q + 1, l, c) {
            if q < q2 < t.len() {
                let b = Expr::Binary { left: Box::new(lhs), operator: t[q], right: Box::new(rhs) };
                assert(is_arithmetic(b));
                lemma_level_rest_arithmetic(t, b, q2, l, c);
            }
        }
    }
}

proof fn lemma_unary_arithmetic<C: Fn(i64) -> u64>(t: Seq<Token>, p: int, c: C)
    requires
        well_terminated(t),
        arithmetic_tokens(t),
    ensures
        parse_unary(t, p, c) matches Ok((e, _)) ==> is_arithmetic(e),
    decreases t.len() - p, 1int,
{
    if 0 <= p < t.len() {
        if (kind_at(t, p) == TokenType::Bang || kind_at(t, p) == TokenType::Minus) && p + 1
            < t.len() {
            assert(p < t.len() - 1);
            lemma_unary_arithmetic(t, p + 1, c);
        } else {
            lemma_primary_arithmetic(t, p, c);
        }
    }
}

proof fn lemma_primary_arithmetic<C: Fn(i64) -> u64>(t: Seq<Token>, p: int, c: C)
    requires
        well_terminated(t),
        arithmetic_tokens(t),
    ensures
        parse_primary(t, p, c) matches Ok((e, _)) ==> is_arithmetic(e),
    decreases t.len() - p, 0int,
{
    if 0 <= p < t.len() {
        if p < t.len() - 1 {
            assert(arithmetic_tokens(t));
            let k = t[p].token_type;
            assert(k == TokenType::Number || k == TokenType::LeftParent || k
                == TokenType::RightParent || k == TokenType::Plus || k == TokenType::Minus || k
                == TokenType::Star || k == TokenType::Slash);
        }
        if kind_at(t, p) == TokenType::LeftParent && p + 1 < t.len() {
            lemma_expression_arithmetic(t, p + 1, c);
        }
    }
}

/// An expression whose tokens are only number literals, parentheses and the
/// four arithmetic operators, once parsed, never fails to evaluate: in any
/// environment its value is the number that the double operations give
/// along the tree the grammar builds.
pub proof fn lemma_arithmetic_source<A: Fn(ArithOp, u64, u64) -> u64, C: Fn(i64) -> u64>(
    t: Seq<Token>,
    c: C,
    env: Map<Seq<char>, Val>,
    a: A,
)
    requires
        well_terminated(t),
        arithmetic_tokens(t),
        parse_expression(t, 0, c) is Ok,
    ensures
        ({
            let e = parse_expression(t, 0, c)->Ok_0.0;
            &&& is_arithmetic(e)
            &&& eval(e, env, a) == Ok::<Val, Seq<char>>(Val::Num(arithmetic_value(e, a)))
        }),
{
    lemma_expression_arithmetic(t, 0, c);
    lemma_arithmetic_evaluates(parse_expression(t, 0, c)->Ok_0.0, env, a);
}

#[derive(Debug)]
pub struct Parser {
    tokens: Vec<Token>,
    current: usize,
}

/// The executable result and final position stand for the modelled parse.
pub open spec fn parsed_as<T>(r: Result<T, String>, at: int, m: Parsed<T>) -> bool {
    match (r, m) {
        (Ok(v), Ok((w, q))) => v == w && at == q,
        (Err(s), Err((w, q))) => s@ == w && at == q,
        _ => false,
    }
}

impl Parser {
    pub closed spec fn token_seq(&self) -> Seq<Token> {
        self.tokens@
    }

    pub closed spec fn position(&self) -> int {
        self.current as int
    }

    pub closed spec fn wf(&self) -> bool {
        &&& well_terminated(self.tokens@)
        &&& self.current < self.tokens.len()
    }

    pub fn new(tokens: Vec<Token>) -> (r: Self)
        requires
            well_terminated(tokens@),
        ensures
            r.wf(),
            r.token_seq() == tokens@,
            r.position() == 0,
    {
        Self { tokens, current: 0 }
    }

    fn kind(&self) -> (k: TokenType)
        requires
            self.wf(),
        ensures
            k == kind_at(self.tokens@, self.current as int),
    {
        self.tokens[self.current].token_type
    }

    fn is_at_end(&self) -> (r: bool)
        requires
            self.wf(),
        ensures
            r == (kind_at(self.tokens@, self.current as int) == TokenType::Eof),
    {
        self.kind() == TokenType::Eof
    }

    /// Steps past the current token, unless it is the end of input.
    fn advance(&mut self)
        requires
            old(self).wf(),
        ensures
            final(self).wf(),
            final(self).tokens == old(self).tokens,
            final(self).current == if kind_at(old(self).tokens@, old(self).current as int)
                == TokenType::Eof {
                old(self).current as int
            } else {
                old(self).current + 1
            },
    {
        if !self.is_at_end() {
            self.current = self.current + 1;
        }
    }

    fn previous(&self) -> (t: Token)
        requires
            self.wf(),
            self.current > 0,
        ensures
            t == self.tokens@[self.current - 1],
    {
        self.tokens[self.current - 1].duplicate()
    }

    /// Whether the current token is of kind `k`; steps past it if so.
    fn match_token(&mut self, k: TokenType) -> (r: bool)
        requires
            old(self).wf(),
            k != TokenType::Eof,
        ensures
            final(self).wf(),
            final(self).tokens == old(self).tokens,
            r == (kind_at(old(self).tokens@, old(self).current as int) == k),
            final(self).current == if r {
                old(self).current + 1
            } else {
                old(self).current as int
            },
    {
        if self.kind() == k {
            self.advance();
            true
        } else {
            false
        }
    }

    fn text(s: &str) -> (r: String)
        ensures
            r@ == s@,
    {
        text_of(&chars_of(s))
    }

    fn expression<C: Fn(i64) -> u64>(&mut self, to_double: &C) -> (r: Result<Expr, String>)
        requires
            old(self).wf(),
            conversion_total(*to_double),
            conversion_functional(*to_double),
        ensures
            final(self).wf(),
            final(self).tokens == old(self).tokens,
            parsed_as(
                r,
                final(self).current as int,
                parse_expression(old(self).tokens@, old(self).current as int, *to_double),
            ),
            r is Ok ==> final(self).current > old(self).current,
            final(self).current >= old(self).current,
        decreases old(self).tokens@.len() - old(self).current, 10int,
    {
        self.binary(4, to_double)
    }

    /// One binary precedence level.
    fn binary<C: Fn(i64) -> u64>(&mut self, l: u64, to_double: &C) -> (r: Result<Expr, String>)
        requires
            old(self).wf(),
            conversion_total(*to_double),
            conversion_functional(*to_double),
            1 <= l <= 4,
        ensures
            final(self).wf(),
            final(self).tokens == old(self).tokens,
            parsed_as(
                r,
                final(self).current as int,
                parse_level(old(self).tokens@, old(self).current as int, l as nat, *to_double),
            ),
            r is Ok ==> final(self).current > old(self).current,
            final(self).current >= old(self).current,
        decreases old(self).tokens@.len() - old(self).current, 2 * l + 1,
    {
        let ghost t = self.tokens@;
        let ghost p0 = self.current as int;
        let mut expr = match self.operand(l, to_double) {
            Ok(e) => e,
            Err(m) => {
                return Err(m);
            },
        };
        loop
            invariant
                self.wf(),
                conversion_total(*to_double),
                conversion_functional(*to_double),
                self.tokens@ == t,
                self.tokens == old(self).tokens,
                p0 == old(self).current,
                1 <= l <= 4,
                self.current > p0,
                parse_level(t, p0, l as nat, *to_double) == parse_level_rest(
                    t,
                    expr,
                    self.current as int,
                    l as nat,
                 *to_double),
            decreases t.len() - self.current,
        {
            let k = self.kind();
            if !(level_includes(l, k)) {
                return Ok(expr);
            }
            self.advance();
            let operator = self.previous();
            let rhs = match self.operand(l, to_double) {
                Ok(e) => e,
                Err(m) => {
                    return Err(m);
                },
            };
            expr = Expr::Binary { left: Box::new(expr), operator, right: Box::new(rhs) };
        }
    }

    /// The operand of level `l`.
    fn operand<C: Fn(i64) -> u64>(&mut self, l: u64, to_double: &C) -> (r: Result<Expr, String>)
        requires
            old(self).wf(),
            conversion_total(*to_double),
            conversion_functional(*to_double),
            1 <= l <= 4,
        ensures
            final(self).wf(),
            final(self).tokens == old(self).tokens,
            parsed_as(
                r,
                final(self).current as int,
                parse_operand(old(self).tokens@, old(self).current as int, l as nat, *to_double),
            ),
            r is Ok ==> final(self).current > old(self).current,
            final(self).current >= old(self).current,
        decreases old(self).tokens@.len() - old(self).current, 2 * l,
    {
        if l == 1 {
            self.unary(to_double)
        } else {
            self.binary(l - 1, to_double)
        }
    }

    fn unary<C: Fn(i64) -> u64>(&mut self, to_double: &C) -> (r: Result<Expr, String>)
        requires
            old(self).wf(),
            conversion_total(*to_double),
            conversion_functional(*to_double),
        ensures
            final(self).wf(),
            final(self).tokens == old(self).tokens,
            parsed_as(
                r,
                final(self).current as int,
                parse_unary(old(self).tokens@, old(self).current as int, *to_double),
            ),
            r is Ok ==> final(self).current > old(self).current,
            final(self).current >= old(self).current,
        decreases old(self).tokens@.len() - old(self).current, 1int,
    {
        let k = self.kind();
        if k == TokenType::Bang || k == TokenType::Minus {
            self.advance();
            let operator = self.previous();
            return match self.unary(to_double) {
                Ok(rhs) => Ok(Expr::Unary { operator, right: Box::new(rhs) }),
                Err(m) => Err(m),
            };
        }
        self.primary(to_double)
    }

    fn primary<C: Fn(i64) -> u64>(&mut self, to_double: &C) -> (r: Result<Expr, String>)
        requires
            old(self).wf(),
            conversion_total(*to_double),
            conversion_functional(*to_double),
        ensures
            final(self).wf(),
            final(self).tokens == old(self).tokens,
            parsed_as(
                r,
                final(self).current as int,
                parse_primary(old(self).tokens@, old(self).current as int, *to_double),
            ),
            r is Ok ==> final(self).current > old(self).current,
            final(self).current >= old(self).current,
        decreases old(self).tokens@.len() - old(self).current, 0int,
    {
        let k = self.kind();
        if k == TokenType::LeftParent {
            self.advance();
            let expr = match self.expression(to_double) {
                Ok(e) => e,
                Err(m) => {
                    return Err(m);
                },
            };
            if self.match_token(TokenType::RightParent) {
                Ok(Expr::Grouping { expression: Box::new(expr) })
            } else {
                Err(Self::text("Expected ')' here"))
            }
        } else if k == TokenType::Identifier {
            self.advance();
            Ok(Expr::Variable { name: self.previous() })
        } else if k == TokenType::False || k == TokenType::True || k == TokenType::StringLiteral
            || k == TokenType::Number || k == TokenType::Nil {
            self.advance();
            match LiteralValue::from_token(self.previous(), to_double) {
                Ok(value) => Ok(Expr::Literal { value }),
                Err(m) => Err(m),
            }
        } else {
            let mut m = chars_of("Expected expression on line ");
            let line = decimal_text(self.tokens[self.current].line_number);
            append(&mut m, &line);
            Err(text_of(&m))
        }
    }

    /// Requires a `;` to end the statement `s`.
    fn finish(&mut self, s: Stmt) -> (r: Result<Stmt, String>)
        requires
            old(self).wf(),
        ensures
            final(self).wf(),
            final(self).tokens == old(self).tokens,
            parsed_as(r, final(self).current as int, terminated_at(old(self).tokens@, s, old(self).current as int)),
            r is Ok ==> final(self).current > old(self).current,
            final(self).current >= old(self).current,
    {
        if self.match_token(TokenType::Semicolon) {
            Ok(s)
        } else {
            Err(Self::text("Expected ';' after statement"))
        }
    }

    fn declaration<C: Fn(i64) -> u64>(&mut self, to_double: &C) -> (r: Result<Stmt, String>)
        requires
            old(self).wf(),
            conversion_total(*to_double),
            conversion_functional(*to_double),
        ensures
            final(self).wf(),
            final(self).tokens == old(self).tokens,
            parsed_as(
                r,
                final(self).current as int,
                parse_declaration(old(self).tokens@, old(self).current as int, *to_double),
            ),
            r is Ok ==> final(self).current > old(self).current,
            final(self).current >= old(self).current,
    {
        if self.match_token(TokenType::Var) {
            self.var_declaration(to_double)
        } else {
            self.statement(to_double)
        }
    }

    fn var_declaration<C: Fn(i64) -> u64>(&mut self, to_double: &C) -> (r: Result<Stmt, String>)
        requires
            old(self).wf(),
            conversion_total(*to_double),
            conversion_functional(*to_double),
        ensures
            final(self).wf(),
            final(self).tokens == old(self).tokens,
            parsed_as(
                r,
                final(self).current as int,
                parse_var_declaration(old(self).tokens@, old(self).current as int, *to_double),
            ),
            r is Ok ==> final(self).current > old(self).current,
            final(self).current >= old(self).current,
    {
        if !self.match_token(TokenType::Identifier) {
            return Err(Self::text("Expected variable name"));
        }
        let name = self.previous();
        if self.match_token(TokenType::Equal) {
            match self.expression(to_double) {
                Ok(initialiser) => self.finish(Stmt::Var { name, initialiser }),
                Err(m) => Err(m),
            }
        } else {
            let initialiser = Expr::Literal { value: LiteralValue::Nil };
            self.finish(Stmt::Var { name, initialiser })
        }
    }

    fn statement<C: Fn(i64) -> u64>(&mut self, to_double: &C) -> (r: Result<Stmt, String>)
        requires
            old(self).wf(),
            conversion_total(*to_double),
            conversion_functional(*to_double),
        ensures
            final(self).wf(),
            final(self).tokens == old(self).tokens,
            parsed_as(
                r,
                final(self).current as int,
                parse_statement(old(self).tokens@, old(self).current as int, *to_double),
            ),
            r is Ok ==> final(self).current > old(self).current,
            final(self).current >= old(self).current,
    {
        if self.match_token(TokenType::Print) {
            match self.expression(to_double) {
                Ok(expression) => self.finish(Stmt::Print { expression }),
                Err(m) => Err(m),
            }
        } else {
            match self.expression(to_double) {
                Ok(expression) => self.finish(Stmt::Expression { expression }),
                Err(m) => Err(m),
            }
        }
    }

    /// Skips to where parsing can resume after an error.
    fn synchronise(&mut self)
        requires
            old(self).wf(),
        ensures
            final(self).wf(),
            final(self).tokens == old(self).tokens,
            final(self).current == synchronised(old(self).tokens@, old(self).current as int),
    {
        if self.is_at_end() {
            return;
        }
        self.advance();
        while !self.is_at_end()
            invariant
                self.wf(),
                self.tokens == old(self).tokens,
                1 <= self.current,
                synchronised(old(self).tokens@, old(self).current as int) == synchronise_from(
                    self.tokens@,
                    self.current as int,
                ),
            decreases self.tokens.len() - self.current,
        {
            if self.tokens[self.current - 1].token_type == TokenType::Semicolon {
                return;
            }
            if begins_statement(self.kind()) {
                return;
            }
            self.advance();
        }
    }

    /// Parses the whole program. Succeeds with every statement when no
    /// statement is malformed; else fails with one message per malformed
    /// statement, separated by newlines.
    pub fn parse<C: Fn(i64) -> u64>(&mut self, to_double: &C) -> (r: Result<Vec<Stmt>, String>)
        requires
            old(self).wf(),
            conversion_total(*to_double),
            conversion_functional(*to_double),
        ensures
            ({
                let m = parse_program(old(self).token_seq(), old(self).position(), *to_double);
                match r {
                    Ok(stmts) => m.1.len() == 0 && stmts@ == m.0,
                    Err(msg) => m.1.len() > 0 && msg@ == joined(m.1),
                }
            }),
    {
        let ghost t = self.tokens@;
        let ghost whole = parse_program(t, self.current as int, *to_double);
        let mut statements: Vec<Stmt> = Vec::new();
        let mut errors: Vec<Vec<char>> = Vec::new();
        while !self.is_at_end()
            invariant
                self.wf(),
                conversion_total(*to_double),
                conversion_functional(*to_double),
                self.tokens@ == t,
                whole.0 == statements@ + parse_program(t, self.current as int, *to_double).0,
                whole.1 == errors@.map_values(|m: Vec<char>| m@) + parse_program(
                    t,
                    self.current as int,
                 *to_double).1,
            decreases t.len() - self.current,
        {
            let ghost before = errors@.map_values(|m: Vec<char>| m@);
            match self.declaration(to_double) {
                Ok(statement) => {
                    statements.push(statement);
                    assert(whole.0 =~= statements@ + parse_program(t, self.current as int, *to_double).0);
                    assert(errors@.map_values(|m: Vec<char>| m@) == before);
                },
                Err(msg) => {
                    let ghost q = self.current as int;
                    self.synchronise();
                    proof {
                        if 0 <= q < t.len() && kind_at(t, q) != TokenType::Eof {
                            lemma_synchronise_advances(t, q + 1);
                        }
                    }
                    errors.push(chars_of(msg.as_str()));
                    assert(errors@.map_values(|m: Vec<char>| m@) == before.push(msg@));
                    assert(whole.1 =~= errors@.map_values(|m: Vec<char>| m@) + parse_program(
                        t,
                        self.current as int,
                     *to_double).1);
                },
            }
        }
        if errors.len() == 0 {
            Ok(statements)
        } else {
            Err(text_of(&join_all(&errors)))
        }
    }
}

fn level_includes(l: u64, k: TokenType) -> (r: bool)
    ensures
        r == level_has(l as nat, k),
{
    if l == 4 {
        k == TokenType::BangEqual || k == TokenType::EqualEqual
    } else if l == 3 {
        k == TokenType::Greater || k == TokenType::GreaterEqual || k == TokenType::Less || k
            == TokenType::LessEqual
    } else if l == 2 {
        k == TokenType::Minus || k == TokenType::Plus
    } else {
        k == TokenType::Slash || k == TokenType::Star
    }
}

fn begins_statement(k: TokenType) -> (r: bool)
    ensures
        r == starts_statement(k),
{
    k == TokenType::Class || k == TokenType::Fun || k == TokenType::Var || k == TokenType::For
        || k == TokenType::If || k == TokenType::While || k == TokenType::Print || k
        == TokenType::Return
}

} // verus!
