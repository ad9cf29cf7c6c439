use crate::environment::Environment;
use crate::lexer::{self, Token, TokenType};
use crate::text::{append, append_str, chars_of, text_of};
use vstd::prelude::*;

verus! {

/// A runtime value. `Number` holds the bit pattern of an IEEE-754 double.
#[derive(Clone, Debug)]
pub enum LiteralValue {
    Number(u64),
    String(String),
    True,
    False,
    Nil,
}

/// What a runtime value is, for contracts.
pub enum Val {
    Num(u64),
    Str(Seq<char>),
    True,
    False,
    Nil,
}

impl View for LiteralValue {
    type V = Val;

    open spec fn view(&self) -> Val {
        match self {
            LiteralValue::Number(b) => Val::Num(*b),
            LiteralValue::String(s) => Val::Str(s@),
            LiteralValue::True => Val::True,
            LiteralValue::False => Val::False,
            LiteralValue::Nil => Val::Nil,
        }
    }
}

/// The four arithmetic operations on doubles.
#[derive(Clone, Copy, Debug, PartialEq, Eq, Structural)]
pub enum ArithOp {
    Add,
    Sub,
    Mul,
    Div,
}

pub open spec fn sign_bit() -> u64 {
    0x8000_0000_0000_0000u64
}

/// The bits of a double without its sign.
pub open spec fn magnitude(b: u64) -> u64 {
    b & 0x7fff_ffff_ffff_ffffu64
}

/// Whether the double is a NaN: all exponent bits set, mantissa non-zero.
pub open spec fn is_nan(b: u64) -> bool {
    magnitude(b) > 0x7ff0_0000_0000_0000u64
}

/// Whether the double is `+0.0` or `-0.0`.
pub open spec fn is_zero(b: u64) -> bool {
    magnitude(b) == 0
}

/// A key that orders non-NaN doubles as their values are ordered.
pub open spec fn order_key(b: u64) -> int {
    if b & sign_bit() != 0 {
        -(magnitude(b) as int)
    } else {
        magnitude(b) as int
    }
}

/// IEEE-754 equality.
pub open spec fn num_eq(x: u64, y: u64) -> bool {
    !is_nan(x) && !is_nan(y) && order_key(x) == order_key(y)
}

/// IEEE-754 `<`.
pub open spec fn num_lt(x: u64, y: u64) -> bool {
    !is_nan(x) && !is_nan(y) && order_key(x) < order_key(y)
}

/// IEEE-754 `<=`.
pub open spec fn num_le(x: u64, y: u64) -> bool {
    !is_nan(x) && !is_nan(y) && order_key(x) <= order_key(y)
}

/// IEEE-754 negation: the sign bit flipped.
pub open spec fn negate(b: u64) -> u64 {
    b ^ sign_bit()
}

/// Lexicographic order of texts, by character.
pub open spec fn text_lt(x: Seq<char>, y: Seq<char>) -> bool
    decreases x.len(),
{
    if x.len() == 0 {
        y.len() > 0
    } else if y.len() == 0 {
        false
    } else if x[0] != y[0] {
        x[0] < y[0]
    } else {
        text_lt(x.drop_first(), y.drop_first())
    }
}

/// The arithmetic closure may be called on any operands.
pub open spec fn arith_total<A: Fn(ArithOp, u64, u64) -> u64>(a: A) -> bool {
    forall|op: ArithOp, x: u64, y: u64| #[trigger] a.requires((op, x, y))
}

/// The arithmetic closure gives one result for given operands.
pub open spec fn arith_functional<A: Fn(ArithOp, u64, u64) -> u64>(a: A) -> bool {
    forall|op: ArithOp, x: u64, y: u64, r1: u64, r2: u64|
        #[trigger] a.ensures((op, x, y), r1) && #[trigger] a.ensures((op, x, y), r2) ==> r1 == r2
}

/// The result that the arithmetic closure gives.
pub open spec fn arith_result<A: Fn(ArithOp, u64, u64) -> u64>(
    a: A,
    op: ArithOp,
    x: u64,
    y: u64,
) -> u64 {
    choose|r: u64| a.ensures((op, x, y), r)
}

pub open spec fn bool_val(b: bool) -> Val {
    if b {
        Val::True
    } else {
        Val::False
    }
}

/// Truthiness negation: `false`, `nil`, zero and the empty text are falsy.
pub open spec fn not_val(v: Val) -> Val {
    match v {
        Val::False | Val::Nil => Val::True,
        Val::Num(x) => bool_val(is_zero(x)),
        Val::Str(s) => bool_val(s.len() == 0),
        Val::True => Val::False,
    }
}

/// Structural equality; numbers compare as doubles.
pub open spec fn val_eq(x: Val, y: Val) -> bool {
    match (x, y) {
        (Val::Num(a), Val::Num(b)) => num_eq(a, b),
        (Val::Str(a), Val::Str(b)) => a == b,
        (Val::True, Val::True) => true,
        (Val::False, Val::False) => true,
        (Val::Nil, Val::Nil) => true,
        _ => false,
    }
}

pub open spec fn kind_name(v: Val) -> Seq<char> {
    match v {
        Val::Num(_) => "Number"@,
        Val::Str(_) => "String"@,
        Val::True => "True"@,
        Val::False => "False"@,
        Val::Nil => "Nil"@,
    }
}

pub open spec fn arith_op_of(k: TokenType) -> Option<ArithOp> {
    match k {
        TokenType::Plus => Some(ArithOp::Add),
        TokenType::Minus => Some(ArithOp::Sub),
        TokenType::Star => Some(ArithOp::Mul),
        TokenType::Slash => Some(ArithOp::Div),
        _ => None,
    }
}

pub open spec fn is_relational(k: TokenType) -> bool {
    k == TokenType::Greater || k == TokenType::GreaterEqual || k == TokenType::Less || k
        == TokenType::LessEqual
}

pub open spec fn num_relation(k: TokenType, x: u64, y: u64) -> bool {
    match k {
        TokenType::Greater => num_lt(y, x),
        TokenType::GreaterEqual => num_le(y, x),
        TokenType::Less => num_lt(x, y),
        _ => num_le(x, y),
    }
}

pub open spec fn text_relation(k: TokenType, x: Seq<char>, y: Seq<char>) -> bool {
    match k {
        TokenType::Greater => text_lt(y, x),
        TokenType::GreaterEqual => !text_lt(x, y),
        TokenType::Less => text_lt(x, y),
        _ => !text_lt(y, x),
    }
}

pub open spec fn mismatch_message(op: Seq<char>, l: Seq<char>, r: Seq<char>) -> Seq<char> {
    "Mismatched types for "@ + op + ": "@ + l + " and "@ + r
}

pub open spec fn unsupported_message(op: Seq<char>, l: Val, r: Val) -> Seq<char> {
    "Operator "@ + op + " cannot be evaluated for "@ + kind_name(l) + " and "@ + kind_name(r)
}

pub open spec fn negation_message(v: Val) -> Seq<char> {
    "Negation not implemented for "@ + kind_name(v)
}

pub open spec fn unary_message(op: Seq<char>) -> Seq<char> {
    "Unsupported unary operator "@ + op
}

pub open spec fn undeclared_message(name: Seq<char>) -> Seq<char> {
    "Variable "@ + name + " not declared yet!"@
}

/// The value of a binary operator applied to two values.
pub open spec fn binary_result<A: Fn(ArithOp, u64, u64) -> u64>(
    l: Val,
    op: Token,
    r: Val,
    a: A,
) -> Result<Val, Seq<char>> {
    let k = op.token_type;
    if k == TokenType::EqualEqual {
        Ok(bool_val(val_eq(l, r)))
    } else if k == TokenType::BangEqual {
        Ok(bool_val(!val_eq(l, r)))
    } else {
        match (l, r) {
            (Val::Num(x), Val::Num(y)) => if arith_op_of(k) is Some {
                Ok(Val::Num(arith_result(a, arith_op_of(k)->0, x, y)))
            } else if is_relational(k) {
                Ok(bool_val(num_relation(k, x, y)))
            } else {
                Err(unsupported_message(op.lexeme@, l, r))
            },
            (Val::Str(x), Val::Str(y)) => if k == TokenType::Plus {
                Ok(Val::Str(x + y))
            } else if is_relational(k) {
                Ok(bool_val(text_relation(k, x, y)))
            } else {
                Err(unsupported_message(op.lexeme@, l, r))
            },
            (Val::Str(_), Val::Num(_)) => Err(mismatch_message(op.lexeme@, "String"@, "Number"@)),
            (Val::Num(_), Val::Str(_)) => Err(mismatch_message(op.lexeme@, "Number"@, "String"@)),
            _ => Err(unsupported_message(op.lexeme@, l, r)),
        }
    }
}

/// The value of a unary operator applied to a value.
pub open spec fn unary_result(op: Token, v: Val) -> Result<Val, Seq<char>> {
    if op.token_type == TokenType::Minus {
        match v {
            Val::Num(x) => Ok(Val::Num(negate(x))),
            _ => Err(negation_message(v)),
        }
    } else if op.token_type == TokenType::Bang {
        Ok(not_val(v))
    } else {
        Err(unary_message(op.lexeme@))
    }
}

#[derive(Debug)]
pub enum Expr {
    Binary { left: Box<Expr>, operator: Token, right: Box<Expr> },
    Grouping { expression: Box<Expr> },
    Literal { value: LiteralValue },
    Unary { operator: Token, right: Box<Expr> },
    Variable { name: Token },
}

/// The value of `e` in `env`, or the first error met; operands are evaluated
/// left before right.
pub open spec fn eval<A: Fn(ArithOp, u64, u64) -> u64>(
    e: Expr,
    env: Map<Seq<char>, Val>,
    a: A,
) -> Result<Val, Seq<char>>
    decreases e,
{
    match e {
        Expr::Literal { value } => Ok(value@),
        Expr::Grouping { expression } => eval(*expression, env, a),
        Expr::Unary { operator, right } => match eval(*right, env, a) {
            Ok(v) => unary_result(operator, v),
            Err(m) => Err(m),
        },
        Expr::Binary { left, operator, right } => match eval(*left, env, a) {
            Ok(l) => match eval(*right, env, a) {
                Ok(r) => binary_result(l, operator, r, a),
                Err(m) => Err(m),
            },
            Err(m) => Err(m),
        },
        Expr::Variable { name } => if env.contains_key(name.lexeme@) {
            Ok(env[name.lexeme@])
        } else {
            Err(undeclared_message(name.lexeme@))
        },
    }
}

/// The executable result stands for the modelled one.
pub open spec fn agrees<T: View>(r: Result<T, String>, m: Result<T::V, Seq<char>>) -> bool {
    match (r, m) {
        (Ok(v), Ok(w)) => v@ == w,
        (Err(s), Err(t)) => s@ == t,
        _ => false,
    }
}

/// The integer conversion may be called on any integer.
pub open spec fn conversion_total<C: Fn(i64) -> u64>(to_double: C) -> bool {
    forall|i: i64| #[trigger] to_double.requires((i,))
}

/// The integer conversion gives one result for a given integer.
pub open spec fn conversion_functional<C: Fn(i64) -> u64>(to_double: C) -> bool {
    forall|i: i64, b1: u64, b2: u64|
        #[trigger] to_double.ensures((i,), b1) && #[trigger] to_double.ensures((i,), b2) ==> b1
            == b2
}

/// The bits of the double that the conversion gives for `i`.
pub open spec fn converted<C: Fn(i64) -> u64>(to_double: C, i: i64) -> u64 {
    choose|b: u64| to_double.ensures((i,), b)
}

/// The number that a number payload carries: a double as it stands, an
/// integer as the conversion turns it into a double.
fn unwrap_as_number<C: Fn(i64) -> u64>(literal: Option<lexer::LiteralValue>, to_double: &C) -> (r:
    Result<u64, String>)
    requires
        conversion_total(*to_double),
        conversion_functional(*to_double),
    ensures
        match literal {
            Some(lexer::LiteralValue::FVal(b)) => r == Ok::<u64, String>(b),
            Some(lexer::LiteralValue::IntVal(i)) => r == Ok::<u64, String>(
                converted(*to_double, i),
            ),
            _ => r matches Err(m) && m@ == "Could not unwrap as number"@,
        },
{
    match literal {
        Some(lexer::LiteralValue::FVal(b)) => Ok(b),
        Some(lexer::LiteralValue::IntVal(i)) => {
            assert(to_double.requires((i,)));
            let b = to_double(i);
            assert(to_double.ensures((i,), converted(*to_double, i)));
            Ok(b)
        },
        _ => Err(text_of(&chars_of("Could not unwrap as number"))),
    }
}

/// The text that a string or identifier payload carries.
pub fn unwrap_as_string(literal: Option<lexer::LiteralValue>) -> (r: Result<String, String>)
    ensures
        match literal {
            Some(lexer::LiteralValue::StringVal(s)) => r == Ok::<String, String>(s),
            Some(lexer::LiteralValue::IdentifierVal(s)) => r == Ok::<String, String>(s),
            _ => r matches Err(m) && m@ == "Could not unwrap as string"@,
        },
{
    match literal {
        Some(lexer::LiteralValue::StringVal(s)) => Ok(s),
        Some(lexer::LiteralValue::IdentifierVal(s)) => Ok(s),
        _ => Err(text_of(&chars_of("Could not unwrap as string"))),
    }
}

/// The kinds of token that denote a literal.
pub open spec fn is_literal_kind(k: TokenType) -> bool {
    k == TokenType::Number || k == TokenType::StringLiteral || k == TokenType::False || k
        == TokenType::True || k == TokenType::Nil
}

/// The value that a literal token denotes, or why its payload does not fit
/// its kind.
pub open spec fn literal_of<C: Fn(i64) -> u64>(t: Token, to_double: C) -> Result<
    LiteralValue,
    Seq<char>,
> {
    match t.token_type {
        TokenType::Number => match t.literal_option {
            Some(lexer::LiteralValue::FVal(b)) => Ok(LiteralValue::Number(b)),
            Some(lexer::LiteralValue::IntVal(i)) => Ok(LiteralValue::Number(converted(to_double, i))),
            _ => Err("Could not unwrap as number"@),
        },
        TokenType::StringLiteral => match t.literal_option {
            Some(lexer::LiteralValue::StringVal(s)) => Ok(LiteralValue::String(s)),
            Some(lexer::LiteralValue::IdentifierVal(s)) => Ok(LiteralValue::String(s)),
            _ => Err("Could not unwrap as string"@),
        },
        TokenType::False => Ok(LiteralValue::False),
        TokenType::True => Ok(LiteralValue::True),
        _ => Ok(LiteralValue::Nil),
    }
}

impl LiteralValue {
    /// The value of a literal token. Only literal kinds may be given;
    /// `to_double` turns an integer payload into a double.
    pub fn from_token<C: Fn(i64) -> u64>(token: Token, to_double: &C) -> (r: Result<Self, String>)
        requires
            is_literal_kind(token.token_type),
            conversion_total(*to_double),
            conversion_functional(*to_double),
        ensures
            match (r, literal_of(token, *to_double)) {
                (Ok(v), Ok(w)) => v == w,
                (Err(m), Err(w)) => m@ == w,
                _ => false,
            },
    {
        match token.token_type {
            TokenType::Number => match unwrap_as_number(token.literal_option, to_double) {
                Ok(b) => Ok(Self::Number(b)),
                Err(m) => Err(m),
            },
            TokenType::StringLiteral => match unwrap_as_string(token.literal_option) {
                Ok(s) => Ok(Self::String(s)),
                Err(m) => Err(m),
            },
            TokenType::False => Ok(Self::False),
            TokenType::True => Ok(Self::True),
            _ => Ok(Self::Nil),
        }
    }

    /// A copy of the value, equal to it.
    pub fn duplicate(&self) -> (r: Self)
        ensures
            r == *self,
    {
        match self {
            Self::Number(b) => Self::Number(*b),
            Self::String(s) => Self::String(s.clone()),
            Self::True => Self::True,
            Self::False => Self::False,
            Self::Nil => Self::Nil,
        }
    }

    /// Truthiness negation.
    pub fn not(&self) -> (r: Self)
        ensures
            r@ == not_val(self@),
    {
        match self {
            Self::False | Self::Nil => Self::True,
            Self::Number(x) => Self::from_bool(*x & 0x7fff_ffff_ffff_ffffu64 == 0),
            Self::String(s) => Self::from_bool(s.as_str().is_empty()),
            Self::True => Self::False,
        }
    }

    pub fn from_bool(boolean: bool) -> (r: Self)
        ensures
            r@ == bool_val(boolean),
    {
        if boolean {
            Self::True
        } else {
            Self::False
        }
    }

    /// Structural equality; numbers compare as doubles.
    pub fn equals(&self, other: &Self) -> (r: bool)
        ensures
            r == val_eq(self@, other@),
    {
        match (self, other) {
            (Self::Number(a), Self::Number(b)) => number_equals(*a, *b),
            (Self::String(a), Self::String(b)) => *a == *b,
            (Self::True, Self::True) => true,
            (Self::False, Self::False) => true,
            (Self::Nil, Self::Nil) => true,
            _ => false,
        }
    }

    /// The name of the value's kind.
    pub fn kind_name(&self) -> (r: Vec<char>)
        ensures
            r@ == kind_name(self@),
    {
        match self {
            Self::Number(_) => chars_of("Number"),
            Self::String(_) => chars_of("String"),
            Self::True => chars_of("True"),
            Self::False => chars_of("False"),
            Self::Nil => chars_of("Nil"),
        }
    }
}

impl PartialEq for LiteralValue {
    fn eq(&self, other: &LiteralValue) -> (r: bool) {
        self.equals(other)
    }
}

impl vstd::std_specs::cmp::PartialEqSpecImpl for LiteralValue {
    open spec fn obeys_eq_spec() -> bool {
        true
    }

    open spec fn eq_spec(&self, other: &LiteralValue) -> bool {
        val_eq(self@, other@)
    }
}

fn number_is_nan(b: u64) -> (r: bool)
    ensures
        r == is_nan(b),
{
    b & 0x7fff_ffff_ffff_ffffu64 > 0x7ff0_0000_0000_0000u64
}

fn number_key(b: u64) -> (r: i64)
    ensures
        r == order_key(b),
{
    let m = b & 0x7fff_ffff_ffff_ffffu64;
    assert(m <= 0x7fff_ffff_ffff_ffffu64) by (bit_vector)
        requires
            m == b & 0x7fff_ffff_ffff_ffffu64,
    ;
    if b & 0x8000_0000_0000_0000u64 != 0 {
        -(m as i64)
    } else {
        m as i64
    }
}

/// IEEE-754 equality of two doubles given by their bits.
pub fn number_equals(x: u64, y: u64) -> (r: bool)
    ensures
        r == num_eq(x, y),
{
    !number_is_nan(x) && !number_is_nan(y) && number_key(x) == number_key(y)
}

/// IEEE-754 `<` of two doubles given by their bits.
pub fn number_less(x: u64, y: u64) -> (r: bool)
    ensures
        r == num_lt(x, y),
{
    !number_is_nan(x) && !number_is_nan(y) && number_key(x) < number_key(y)
}

/// IEEE-754 `<=` of two doubles given by their bits.
pub fn number_less_equal(x: u64, y: u64) -> (r: bool)
    ensures
        r == num_le(x, y),
{
    !number_is_nan(x) && !number_is_nan(y) && number_key(x) <= number_key(y)
}

/// Whether `x` comes before `y` in lexicographic order.
pub fn text_less(x: &String, y: &String) -> (r: bool)
    ensures
        r == text_lt(x@, y@),
{
    let a = chars_of(x.as_str());
    let b = chars_of(y.as_str());
    let mut i: usize = 0;
    assert(a@.skip(0) =~= a@);
    assert(b@.skip(0) =~= b@);
    while i < a.len() && i < b.len() && a[i] == b[i]
        invariant
            i <= a.len(),
            i <= b.len(),
            text_lt(a@, b@) == text_lt(a@.skip(i as int), b@.skip(i as int)),
        decreases a.len() - i,
    {
        assert(a@.skip(i as int).drop_first() =~= a@.skip(i + 1));
        assert(b@.skip(i as int).drop_first() =~= b@.skip(i + 1));
        i = i + 1;
    }
    if i == a.len() {
        i < b.len()
    } else if i == b.len() {
        false
    } else {
        a[i] < b[i]
    }
}

fn number_relation(k: TokenType, x: u64, y: u64) -> (r: bool)
    requires
        is_relational(k),
    ensures
        r == num_relation(k, x, y),
{
    match k {
        TokenType::Greater => number_less(y, x),
        TokenType::GreaterEqual => number_less_equal(y, x),
        TokenType::Less => number_less(x, y),
        _ => number_less_equal(x, y),
    }
}

fn text_relation_of(k: TokenType, x: &String, y: &String) -> (r: bool)
    requires
        is_relational(k),
    ensures
        r == text_relation(k, x@, y@),
{
    match k {
        TokenType::Greater => text_less(y, x),
        TokenType::GreaterEqual => !text_less(x, y),
        TokenType::Less => text_less(x, y),
        _ => !text_less(y, x),
    }
}

fn arith_op_for(k: TokenType) -> (r: Option<ArithOp>)
    ensures
        r == arith_op_of(k),
{
    match k {
        TokenType::Plus => Some(ArithOp::Add),
        TokenType::Minus => Some(ArithOp::Sub),
        TokenType::Star => Some(ArithOp::Mul),
        TokenType::Slash => Some(ArithOp::Div),
        _ => None,
    }
}

fn is_relational_kind(k: TokenType) -> (r: bool)
    ensures
        r == is_relational(k),
{
    k == TokenType::Greater || k == TokenType::GreaterEqual || k == TokenType::Less || k
        == TokenType::LessEqual
}

fn mismatch_error(op: &Token, l: &str, r: &str) -> (m: String)
    ensures
        m@ == mismatch_message(op.lexeme@, l@, r@),
{
    let mut v = chars_of("Mismatched types for ");
    append_str(&mut v, op.lexeme.as_str());
    append_str(&mut v, ": ");
    append_str(&mut v, l);
    append_str(&mut v, " and ");
    append_str(&mut v, r);
    text_of(&v)
}

fn unsupported_error(op: &Token, l: &LiteralValue, r: &LiteralValue) -> (m: String)
    ensures
        m@ == unsupported_message(op.lexeme@, l@, r@),
{
    let mut v = chars_of("Operator ");
    append_str(&mut v, op.lexeme.as_str());
    append_str(&mut v, " cannot be evaluated for ");
    append(&mut v, &l.kind_name());
    append_str(&mut v, " and ");
    append(&mut v, &r.kind_name());
    text_of(&v)
}

/// Applies a binary operator to two values.
pub fn apply_binary<A: Fn(ArithOp, u64, u64) -> u64>(
    l: LiteralValue,
    op: &Token,
    r: LiteralValue,
    arith: &A,
) -> (res: Result<LiteralValue, String>)
    requires
        arith_total(*arith),
        arith_functional(*arith),
    ensures
        agrees(res, binary_result(l@, *op, r@, *arith)),
{
    let k = op.token_type;
    if k == TokenType::EqualEqual {
        return Ok(LiteralValue::from_bool(l.equals(&r)));
    }
    if k == TokenType::BangEqual {
        return Ok(LiteralValue::from_bool(!l.equals(&r)));
    }
    match (&l, &r) {
        (LiteralValue::Number(x), LiteralValue::Number(y)) => {
            match arith_op_for(k) {
                Some(o) => {
                    assert(arith.requires((o, *x, *y)));
                    let z = arith(o, *x, *y);
                    assert(arith.ensures((o, *x, *y), arith_result(*arith, o, *x, *y)));
                    Ok(LiteralValue::Number(z))
                },
                None => if is_relational_kind(k) {
                    Ok(LiteralValue::from_bool(number_relation(k, *x, *y)))
                } else {
                    Err(unsupported_error(op, &l, &r))
                },
            }
        },
        (LiteralValue::String(x), LiteralValue::String(y)) => {
            if k == TokenType::Plus {
                let mut v = chars_of(x.as_str());
                append_str(&mut v, y.as_str());
                Ok(LiteralValue::String(text_of(&v)))
            } else if is_relational_kind(k) {
                Ok(LiteralValue::from_bool(text_relation_of(k, x, y)))
            } else {
                Err(unsupported_error(op, &l, &r))
            }
        },
        (LiteralValue::String(_), LiteralValue::Number(_)) => Err(
            mismatch_error(op, "String", "Number"),
        ),
        (LiteralValue::Number(_), LiteralValue::String(_)) => Err(
            mismatch_error(op, "Number", "String"),
        ),
        _ => Err(unsupported_error(op, &l, &r)),
    }
}

/// Applies a unary operator to a value.
pub fn apply_unary(op: &Token, v: LiteralValue) -> (res: Result<LiteralValue, String>)
    ensures
        agrees(res, unary_result(*op, v@)),
{
    if op.token_type == TokenType::Minus {
        match v {
            LiteralValue::Number(x) => Ok(LiteralValue::Number(x ^ 0x8000_0000_0000_0000u64)),
            _ => {
                let mut m = chars_of("Negation not implemented for ");
                append(&mut m, &v.kind_name());
                Err(text_of(&m))
            },
        }
    } else if op.token_type == TokenType::Bang {
        Ok(v.not())
    } else {
        let mut m = chars_of("Unsupported unary operator ");
        append_str(&mut m, op.lexeme.as_str());
        Err(text_of(&m))
    }
}

impl Expr {
    /// Evaluates the expression in `environment`, with `arith` doing the
    /// arithmetic on doubles.
    pub fn evaluate<A: Fn(ArithOp, u64, u64) -> u64>(
        &self,
        environment: &Environment,
        arith: &A,
    ) -> (r: Result<LiteralValue, String>)
        requires
            environment.wf(),
            arith_total(*arith),
            arith_functional(*arith),
        ensures
            agrees(r, eval(*self, environment@, *arith)),
        decreases self,
    {
        match self {
            Expr::Literal { value } => Ok(value.duplicate()),
            Expr::Grouping { expression } => expression.evaluate(environment, arith),
            Expr::Unary { operator, right } => {
                match right.evaluate(environment, arith) {
                    Ok(v) => apply_unary(operator, v),
                    Err(m) => Err(m),
                }
            },
            Expr::Binary { left, operator, right } => {
                match left.evaluate(environment, arith) {
                    Ok(l) => match right.evaluate(environment, arith) {
                        Ok(r) => apply_binary(l, operator, r, arith),
                        Err(m) => Err(m),
                    },
                    Err(m) => Err(m),
                }
            },
            Expr::Variable { name } => environment.get(&name.lexeme),
        }
    }
}

/// `==` and `!=` never fail: on any two values they give `true` or `false`
/// by structural equality, and two values of different kinds are unequal.
pub proof fn lemma_equality_total<A: Fn(ArithOp, u64, u64) -> u64>(
    l: Val,
    op: Token,
    r: Val,
    a: A,
)
    requires
        op.token_type == TokenType::EqualEqual || op.token_type == TokenType::BangEqual,
    ensures
        binary_result(l, op, r, a) is Ok,
        op.token_type == TokenType::EqualEqual ==> binary_result(l, op, r, a) == Ok::<
            Val,
            Seq<char>,
        >(bool_val(val_eq(l, r))),
        op.token_type == TokenType::BangEqual ==> binary_result(l, op, r, a) == Ok::<
            Val,
            Seq<char>,
        >(bool_val(!val_eq(l, r))),
        kind_name(l) != kind_name(r) ==> !val_eq(l, r),
{
}

/// A variable reads back the value it was last defined with, a second
/// definition replacing the first; a name never defined reads as an
/// undeclared-variable error.
pub proof fn lemma_variable_reads_last_definition<A: Fn(ArithOp, u64, u64) -> u64>(
    env: Map<Seq<char>, Val>,
    name: Token,
    v1: Val,
    v2: Val,
    a: A,
)
    ensures
        eval(Expr::Variable { name }, env.insert(name.lexeme@, v1), a) == Ok::<Val, Seq<char>>(
            v1,
        ),
        eval(
            Expr::Variable { name },
            env.insert(name.lexeme@, v1).insert(name.lexeme@, v2),
            a,
        ) == Ok::<Val, Seq<char>>(v2),
        !env.contains_key(name.lexeme@) ==> eval(Expr::Variable { name }, env, a) == Err::<
            Val,
            Seq<char>,
        >(undeclared_message(name.lexeme@)),
{
}

/// An expression made only of number literals, grouping, unary `-` and the
/// four arithmetic operators.
pub open spec fn is_arithmetic(e: Expr) -> bool
    decreases e,
{
    match e {
        Expr::Literal { value } => value is Number,
        Expr::Grouping { expression } => is_arithmetic(*expression),
        Expr::Unary { operator, right } => operator.token_type == TokenType::Minus
            && is_arithmetic(*right),
        Expr::Binary { left, operator, right } => arith_op_of(operator.token_type) is Some
            && is_arithmetic(*left) && is_arithmetic(*right),
        Expr::Variable { .. } => false,
    }
}

/// The double that an arithmetic expression denotes, each operator done by
/// the arithmetic closure and negation by flipping the sign.
pub open spec fn arithmetic_value<A: Fn(ArithOp, u64, u64) -> u64>(e: Expr, a: A) -> u64
    decreases e,
{
    match e {
        Expr::Literal { value } => match value {
            LiteralValue::Number(b) => b,
            _ => 0,
        },
        Expr::Grouping { expression } => arithmetic_value(*expression, a),
        Expr::Unary { right, .. } => negate(arithmetic_value(*right, a)),
        Expr::Binary { left, operator, right } => arith_result(
            a,
            arith_op_of(operator.token_type)->0,
            arithmetic_value(*left, a),
            arithmetic_value(*right, a),
        ),
        Expr::Variable { .. } => 0,
    }
}

/// An arithmetic expression never fails: its value is a number, the
/// composition of the double operations along the tree.
pub proof fn lemma_arithmetic_evaluates<A: Fn(ArithOp, u64, u64) -> u64>(
    e: Expr,
    env: Map<Seq<char>, Val>,
    a: A,
)
    requires
        is_arithmetic(e),
    ensures
        eval(e, env, a) == Ok::<Val, Seq<char>>(Val::Num(arithmetic_value(e, a))),
    decreases e,
{
    match e {
        Expr::Grouping { expression } => lemma_arithmetic_evaluates(*expression, env, a),
        Expr::Unary { right, .. } => lemma_arithmetic_evaluates(*right, env, a),
        Expr::Binary { left, right, .. } => {
            lemma_arithmetic_evaluates(*left, env, a);
            lemma_arithmetic_evaluates(*right, env, a);
        },
        _ => {},
    }
}

/// The renderer gives one text for given bits.
pub open spec fn render_functional<R: Fn(u64) -> String>(render: R) -> bool {
    forall|b: u64, s1: String, s2: String|
        #[trigger] render.ensures((b,), s1) && #[trigger] render.ensures((b,), s2) ==> s1@ == s2@
}

/// The renderer may be called on any bits.
pub open spec fn render_total<R: Fn(u64) -> String>(render: R) -> bool {
    forall|b: u64| #[trigger] render.requires((b,))
}

/// The text that the renderer gives for a number.
pub open spec fn rendered<R: Fn(u64) -> String>(render: R, b: u64) -> Seq<char> {
    (choose|s: String| render.ensures((b,), s))@
}

/// The textual form of a value: numbers as the renderer gives them, texts
/// raw, `true`, `false` and `nil`.
pub open spec fn value_text<R: Fn(u64) -> String>(v: Val, render: R) -> Seq<char> {
    match v {
        Val::Num(b) => rendered(render, b),
        Val::Str(s) => s,
        Val::True => "true"@,
        Val::False => "false"@,
        Val::Nil => "nil"@,
    }
}

/// The canonical parenthesized form of an expression.
pub open spec fn expr_text<R: Fn(u64) -> String>(e: Expr, render: R) -> Seq<char>
    decreases e,
{
    match e {
        Expr::Binary { left, operator, right } => "("@ + operator.lexeme@ + " "@ + expr_text(
            *left,
            render,
        ) + " "@ + expr_text(*right, render) + ")"@,
        Expr::Grouping { expression } => "(group "@ + expr_text(*expression, render) + ")"@,
        Expr::Literal { value } => value_text(value@, render),
        Expr::Unary { operator, right } => "("@ + operator.lexeme@ + " "@ + expr_text(
            *right,
            render,
        ) + ")"@,
        Expr::Variable { name } => "var "@ + name.lexeme@,
    }
}

impl LiteralValue {
    /// Appends the textual form of the value to `out`.
    pub fn write_text<R: Fn(u64) -> String>(&self, out: &mut Vec<char>, render: &R)
        requires
            render_total(*render),
            render_functional(*render),
        ensures
            final(out)@ == old(out)@ + value_text(self@, *render),
    {
        match self {
            Self::Number(b) => {
                let t = render(*b);
                assert(render.ensures((*b,), choose|s: String| render.ensures((*b,), s)));
                append_str(out, t.as_str());
            },
            Self::String(s) => append_str(out, s.as_str()),
            Self::True => append_str(out, "true"),
            Self::False => append_str(out, "false"),
            Self::Nil => append_str(out, "nil"),
        }
    }

    /// The textual form of the value, with `render` writing numbers.
    pub fn to_text<R: Fn(u64) -> String>(&self, render: &R) -> (r: String)
        requires
            render_total(*render),
            render_functional(*render),
        ensures
            r@ == value_text(self@, *render),
    {
        let mut out: Vec<char> = Vec::new();
        self.write_text(&mut out, render);
        assert(out@ =~= value_text(self@, *render));
        text_of(&out)
    }
}

impl Expr {
    /// Appends the canonical form of the expression to `out`.
    pub fn write_text<R: Fn(u64) -> String>(&self, out: &mut Vec<char>, render: &R)
        requires
            render_total(*render),
            render_functional(*render),
        ensures
            final(out)@ == old(out)@ + expr_text(*self, *render),
        decreases self,
    {
        let ghost start = out@;
        match self {
            Expr::Binary { left, operator, right } => {
                append_str(out, "(");
                append_str(out, operator.lexeme.as_str());
                append_str(out, " ");
                left.write_text(out, render);
                append_str(out, " ");
                right.write_text(out, render);
                append_str(out, ")");
                assert(out@ =~= start + expr_text(*self, *render));
            },
            Expr::Grouping { expression } => {
                append_str(out, "(group ");
                expression.write_text(out, render);
                append_str(out, ")");
                assert(out@ =~= start + expr_text(*self, *render));
            },
            Expr::Literal { value } => value.write_text(out, render),
            Expr::Unary { operator, right } => {
                append_str(out, "(");
                append_str(out, operator.lexeme.as_str());
                append_str(out, " ");
                right.write_text(out, render);
                append_str(out, ")");
                assert(out@ =~= start + expr_text(*self, *render));
            },
            Expr::Variable { name } => {
                append_str(out, "var ");
                append_str(out, name.lexeme.as_str());
                assert(out@ =~= start + expr_text(*self, *render));
            },
        }
    }

    /// The canonical parenthesized form of the expression, with `render`
    /// writing numbers.
    pub fn to_text<R: Fn(u64) -> String>(&self, render: &R) -> (r: String)
        requires
            render_total(*render),
            render_functional(*render),
        ensures
            r@ == expr_text(*self, *render),
    {
        let mut out: Vec<char> = Vec::new();
        self.write_text(&mut out, render);
        assert(out@ =~= expr_text(*self, *render));
        text_of(&out)
    }
}

} // verus!
