use crate::text::{
    append, append_str, chars_of, decimal, decimal_text, same_chars, slice_chars, terminate_all,
    terminated, text_of,
};
use vstd::prelude::*;

verus! {

/// The closed set of token kinds.
#[derive(Clone, Copy, Debug, PartialEq, Eq, Structural)]
pub enum TokenType {
    // Single-character tokens.
    LeftParent,
    RightParent,
    LeftBrace,
    RightBrace,
    Comma,
    Dot,
    Minus,
    Plus,
    Semicolon,
    Slash,
    Star,
    // One or two character tokens.
    Bang,
    BangEqual,
    Equal,
    EqualEqual,
    Greater,
    GreaterEqual,
    Less,
    LessEqual,
    // Literals.
    Identifier,
    StringLiteral,
    Number,
    // Keywords.
    And,
    Class,
    Else,
    False,
    Fun,
    For,
    If,
    Nil,
    Or,
    Print,
    Return,
    Super,
    This,
    True,
    Var,
    While,
    Eof,
}

/// The raw content of a literal, carried from the scanner to the parser.
/// `FVal` holds the bit pattern of an IEEE-754 double.
#[derive(Clone, Debug)]
pub enum LiteralValue {
    IntVal(i64),
    FVal(u64),
    StringVal(String),
    IdentifierVal(String),
}

#[derive(Clone, Debug)]
pub struct Token {
    pub token_type: TokenType,
    pub lexeme: String,
    pub literal_option: Option<LiteralValue>,
    pub line_number: u64,
}

impl Token {
    pub fn new(
        token_type: TokenType,
        lexeme: String,
        literal_option: Option<LiteralValue>,
        line_number: u64,
    ) -> (r: Self)
        ensures
            r == (Token { token_type, lexeme, literal_option, line_number }),
    {
        Self { token_type, lexeme, literal_option, line_number }
    }

    /// A copy of the token, equal to it.
    pub fn duplicate(&self) -> (r: Self)
        ensures
            r == *self,
    {
        let literal_option = match &self.literal_option {
            None => None,
            Some(LiteralValue::IntVal(n)) => Some(LiteralValue::IntVal(*n)),
            Some(LiteralValue::FVal(b)) => Some(LiteralValue::FVal(*b)),
            Some(LiteralValue::StringVal(s)) => Some(LiteralValue::StringVal(s.clone())),
            Some(LiteralValue::IdentifierVal(s)) => Some(LiteralValue::IdentifierVal(s.clone())),
        };
        Token {
            token_type: self.token_type,
            lexeme: self.lexeme.clone(),
            literal_option,
            line_number: self.line_number,
        }
    }
}

pub open spec fn is_digit_char(c: char) -> bool {
    '0' <= c && c <= '9'
}

pub open spec fn is_alpha_char(c: char) -> bool {
    ('a' <= c && c <= 'z') || ('A' <= c && c <= 'Z') || c == '_'
}

/// Whether `c` is an ASCII letter or `_`.
pub fn is_alpha(c: char) -> (r: bool)
    ensures
        r == is_alpha_char(c),
{
    ('a' <= c && c <= 'z') || ('A' <= c && c <= 'Z') || c == '_'
}

/// Whether `c` is an ASCII letter, an ASCII digit or `_`.
pub fn is_alphanumeric(c: char) -> (r: bool)
    ensures
        r == (is_alpha_char(c) || is_digit_char(c)),
{
    is_alpha(c) || ('0' <= c && c <= '9')
}

/// The classes of characters that the scanner consumes in runs.
pub enum CharClass {
    Digit,
    Word,
    NotQuote,
    NotNewline,
}

pub open spec fn in_class(c: char, k: CharClass) -> bool {
    match k {
        CharClass::Digit => is_digit_char(c),
        CharClass::Word => is_alpha_char(c) || is_digit_char(c),
        CharClass::NotQuote => c != '"',
        CharClass::NotNewline => c != '\n',
    }
}

/// The end of the longest run of characters of class `k` starting at `i`.
pub open spec fn span(s: Seq<char>, i: int, k: CharClass) -> int
    decreases s.len() - i,
{
    if 0 <= i < s.len() && in_class(s[i], k) {
        span(s, i + 1, k)
    } else {
        i
    }
}

pub proof fn lemma_span_bounds(s: Seq<char>, i: int, k: CharClass)
    requires
        0 <= i <= s.len(),
    ensures
        i <= span(s, i, k) <= s.len(),
    decreases s.len() - i,
{
    if i < s.len() && in_class(s[i], k) {
        lemma_span_bounds(s, i + 1, k);
    }
}

/// Past the last quote, the run of non-quote characters reaches the end.
pub proof fn lemma_span_to_end(s: Seq<char>, i: int)
    requires
        0 <= i <= s.len(),
        forall|j: int| i <= j < s.len() ==> s[j] != '"',
    ensures
        span(s, i, CharClass::NotQuote) == s.len(),
    decreases s.len() - i,
{
    if i < s.len() {
        lemma_span_to_end(s, i + 1);
    }
}

/// A string literal left open at the end of the input gives exactly one
/// lexical error, which names the line the string starts on, and no token
/// but the end of input.
pub proof fn lemma_unterminated_string(s: Seq<char>, i: int, line: nat)
    requires
        0 <= i < s.len(),
        s[i] == '"',
        forall|j: int| i < j < s.len() ==> s[j] != '"',
    ensures
        scan_from(s, i, line).1 == seq![unterminated_message(line)],
        scan_from(s, i, line).0.len() == 1,
        scan_from(s, i, line).0[0].0 == TokenType::Eof,
{
    lemma_span_to_end(s, i + 1);
    let st = scan_step(s, i, line);
    assert(single_kind('"') is None);
    assert(operator_kinds('"') is None);
    assert(st.end == s.len());
    assert(st.kind is None);
    assert(st.fault == Some(unterminated_message(line)));
    let rest = scan_from(s, st.end, st.line);
    assert(rest.0.len() == 1);
    assert(rest.1.len() == 0);
    assert(seq![unterminated_message(line)] + Seq::<Seq<char>>::empty() =~= seq![
        unterminated_message(line),
    ]);
}

/// The number of newlines among `s[lo..hi]`.
pub open spec fn newlines(s: Seq<char>, lo: int, hi: int) -> nat
    decreases hi - lo,
{
    if lo < hi {
        newlines(s, lo, hi - 1) + (if s[hi - 1] == '\n' { 1nat } else { 0nat })
    } else {
        0
    }
}

/// The keyword that `w` spells, if any.
pub open spec fn keyword(w: Seq<char>) -> Option<TokenType> {
    if w == "and"@ {
        Some(TokenType::And)
    } else if w == "class"@ {
        Some(TokenType::Class)
    } else if w == "else"@ {
        Some(TokenType::Else)
    } else if w == "false"@ {
        Some(TokenType::False)
    } else if w == "for"@ {
        Some(TokenType::For)
    } else if w == "fun"@ {
        Some(TokenType::Fun)
    } else if w == "if"@ {
        Some(TokenType::If)
    } else if w == "nil"@ {
        Some(TokenType::Nil)
    } else if w == "or"@ {
        Some(TokenType::Or)
    } else if w == "print"@ {
        Some(TokenType::Print)
    } else if w == "return"@ {
        Some(TokenType::Return)
    } else if w == "super"@ {
        Some(TokenType::Super)
    } else if w == "this"@ {
        Some(TokenType::This)
    } else if w == "true"@ {
        Some(TokenType::True)
    } else if w == "var"@ {
        Some(TokenType::Var)
    } else if w == "while"@ {
        Some(TokenType::While)
    } else {
        None
    }
}

/// The kind of a single-character token.
pub open spec fn single_kind(c: char) -> Option<TokenType> {
    if c == '(' {
        Some(TokenType::LeftParent)
    } else if c == ')' {
        Some(TokenType::RightParent)
    } else if c == '{' {
        Some(TokenType::LeftBrace)
    } else if c == '}' {
        Some(TokenType::RightBrace)
    } else if c == ',' {
        Some(TokenType::Comma)
    } else if c == '.' {
        Some(TokenType::Dot)
    } else if c == '-' {
        Some(TokenType::Minus)
    } else if c == '+' {
        Some(TokenType::Plus)
    } else if c == ';' {
        Some(TokenType::Semicolon)
    } else if c == '*' {
        Some(TokenType::Star)
    } else {
        None
    }
}

/// For `= ! < >`: the kinds of the one-character and of the two-character
/// token (with a trailing `=`).
pub open spec fn operator_kinds(c: char) -> Option<(TokenType, TokenType)> {
    if c == '=' {
        Some((TokenType::Equal, TokenType::EqualEqual))
    } else if c == '!' {
        Some((TokenType::Bang, TokenType::BangEqual))
    } else if c == '<' {
        Some((TokenType::Less, TokenType::LessEqual))
    } else if c == '>' {
        Some((TokenType::Greater, TokenType::GreaterEqual))
    } else {
        None
    }
}

pub open spec fn unrecognised_message(c: char, line: nat) -> Seq<char> {
    "Unrecognised character: "@ + seq![c] + " at line "@ + decimal(line)
}

pub open spec fn unterminated_message(line: nat) -> Seq<char> {
    "Unterminated string starting on line "@ + decimal(line)
}

/// What one step of the scanner does at position `i` on line `line`: the
/// kind of the token it emits (if any), the message of the error it reports
/// (if any), where the next step starts and on which line.
pub struct ScanStep {
    pub kind: Option<TokenType>,
    pub fault: Option<Seq<char>>,
    pub end: int,
    pub line: nat,
}

/// The end of a number literal whose first digit is at `i`: a run of digits,
/// then optionally `.` and at least one more digit.
pub open spec fn number_end(s: Seq<char>, i: int) -> int {
    let j = span(s, i + 1, CharClass::Digit);
    if j + 1 < s.len() && s[j] == '.' && is_digit_char(s[j + 1]) {
        span(s, j + 1, CharClass::Digit)
    } else {
        j
    }
}

pub open spec fn scan_step(s: Seq<char>, i: int, line: nat) -> ScanStep {
    let c = s[i];
    let plain = |kind: TokenType, end: int| ScanStep { kind: Some(kind), fault: None, end, line };
    if single_kind(c) is Some {
        plain(single_kind(c)->0, i + 1)
    } else if operator_kinds(c) is Some {
        let (one, two) = operator_kinds(c)->0;
        if i + 1 < s.len() && s[i + 1] == '=' {
            plain(two, i + 2)
        } else {
            plain(one, i + 1)
        }
    } else if c == '/' {
        if i + 1 < s.len() && s[i + 1] == '/' {
            ScanStep { kind: None, fault: None, end: span(s, i + 2, CharClass::NotNewline), line }
        } else {
            plain(TokenType::Slash, i + 1)
        }
    } else if c == ' ' || c == '\r' || c == '\t' {
        ScanStep { kind: None, fault: None, end: i + 1, line }
    } else if c == '\n' {
        ScanStep { kind: None, fault: None, end: i + 1, line: line + 1 }
    } else if c == '"' {
        let close = span(s, i + 1, CharClass::NotQuote);
        if close >= s.len() {
            ScanStep {
                kind: None,
                fault: Some(unterminated_message(line)),
                end: close,
                line: line + newlines(s, i + 1, close),
            }
        } else {
            ScanStep {
                kind: Some(TokenType::StringLiteral),
                fault: None,
                end: close + 1,
                line: line + newlines(s, i + 1, close),
            }
        }
    } else if is_digit_char(c) {
        plain(TokenType::Number, number_end(s, i))
    } else if is_alpha_char(c) {
        let end = span(s, i + 1, CharClass::Word);
        let w = s.subrange(i, end);
        plain(if keyword(w) is Some { keyword(w)->0 } else { TokenType::Identifier }, end)
    } else {
        ScanStep { kind: None, fault: Some(unrecognised_message(c, line)), end: i + 1, line }
    }
}

/// Each step of the scanner consumes at least one character and stays
/// within the input.
pub proof fn lemma_step_advances(s: Seq<char>, i: int, line: nat)
    requires
        0 <= i < s.len(),
    ensures
        i < scan_step(s, i, line).end <= s.len(),
        scan_step(s, i, line).kind != Some(TokenType::Eof),
{
    let c = s[i];
    if i + 2 <= s.len() {
        lemma_span_bounds(s, i + 2, CharClass::NotNewline);
    }
    lemma_span_bounds(s, i + 1, CharClass::NotQuote);
    lemma_span_bounds(s, i + 1, CharClass::Digit);
    lemma_span_bounds(s, i + 1, CharClass::Word);
    let j = span(s, i + 1, CharClass::Digit);
    if j + 1 < s.len() {
        lemma_span_bounds(s, j + 1, CharClass::Digit);
    }
    let w = s.subrange(i, span(s, i + 1, CharClass::Word));
    assert(keyword(w) != Some(TokenType::Eof));
}

/// Scanning yields exactly one end-of-input token, the last one, and its
/// lexeme is empty.
pub proof fn lemma_single_end_of_input(s: Seq<char>, i: int, line: nat)
    requires
        0 <= i,
    ensures
        scan_from(s, i, line).0.len() > 0,
        scan_from(s, i, line).0.last().0 == TokenType::Eof,
        scan_from(s, i, line).0.last().1.len() == 0,
        forall|j: int|
            0 <= j < scan_from(s, i, line).0.len() - 1 ==> #[trigger] scan_from(s, i, line).0[j].0
                != TokenType::Eof,
    decreases s.len() - i,
{
    if i < s.len() {
        lemma_step_advances(s, i, line);
        let st = scan_step(s, i, line);
        lemma_single_end_of_input(s, st.end, st.line);
        let rest = scan_from(s, st.end, st.line);
        let all = scan_from(s, i, line).0;
        if st.kind is Some {
            assert forall|j: int| 0 <= j < all.len() - 1 implies #[trigger] all[j].0
                != TokenType::Eof by {
                if j > 0 {
                    assert(all[j] == rest.0[j - 1]);
                }
            }
        }
    }
}

/// A token as the scanner's model sees it: kind, lexeme and line.
pub type TokenModel = (TokenType, Seq<char>, nat);

/// The tokens and errors that scanning `s` from position `i` on line `line`
/// produces, ending with one end-of-input token.
pub open spec fn scan_from(s: Seq<char>, i: int, line: nat) -> (Seq<TokenModel>, Seq<Seq<char>>)
    decreases s.len() - i,
{
    if i < 0 || i >= s.len() {
        (seq![(TokenType::Eof, Seq::<char>::empty(), line)], Seq::empty())
    } else {
        let st = scan_step(s, i, line);
        if st.end <= i || st.end > s.len() {
            (Seq::empty(), Seq::empty())
        } else {
            let rest = scan_from(s, st.end, st.line);
            let toks = if st.kind is Some {
                seq![(st.kind->0, s.subrange(i, st.end), st.line)] + rest.0
            } else {
                rest.0
            };
            let errs = if st.fault is Some {
                seq![st.fault->0] + rest.1
            } else {
                rest.1
            };
            (toks, errs)
        }
    }
}

/// The tokens of `s`, each with its kind, lexeme and line.
pub open spec fn scanned_tokens(s: Seq<char>) -> Seq<TokenModel> {
    scan_from(s, 0, 1).0
}

/// The lexical errors of `s`, in order.
pub open spec fn scan_errors(s: Seq<char>) -> Seq<Seq<char>> {
    scan_from(s, 0, 1).1
}

/// The token agrees with the model in kind, lexeme and line, and carries
/// the payload that its kind calls for: the text between the quotes of a
/// string, a value that `to_number` may return for the lexeme of a number.
pub open spec fn token_matches<P: Fn(String) -> u64>(t: Token, m: TokenModel, to_number: P) -> bool {
    &&& t.token_type == m.0
    &&& t.lexeme@ == m.1
    &&& t.line_number == m.2
    &&& match t.token_type {
        TokenType::StringLiteral => t.literal_option matches Some(LiteralValue::StringVal(v)) && v@
            == m.1.subrange(1, m.1.len() - 1),
        TokenType::Number => t.literal_option matches Some(LiteralValue::FVal(b))
            && to_number.ensures((t.lexeme,), b),
        _ => t.literal_option is None,
    }
}

pub struct Scanner {
    source: Vec<char>,
}

impl Scanner {
    pub closed spec fn source_chars(&self) -> Seq<char> {
        self.source@
    }

    pub fn new(source: String) -> (r: Self)
        ensures
            r.source_chars() == source@,
    {
        Scanner { source: chars_of(source.as_str()) }
    }

    /// Scans the whole source. Succeeds with every token, the last one the
    /// end of input, when there is no lexical error; else fails with every
    /// error message, each followed by a newline.
    pub fn scan_tokens<P: Fn(String) -> u64>(&self, to_number: &P) -> (r: Result<
        Vec<Token>,
        String,
    >)
        requires
            self.source_chars().len() < u64::MAX,
            forall|t: String| to_number.requires((t,)),
        ensures
            match r {
                Ok(toks) => {
                    &&& scan_errors(self.source_chars()).len() == 0
                    &&& toks@.len() > 0
                    &&& toks@.last().token_type == TokenType::Eof
                    &&& toks.len() == scanned_tokens(self.source_chars()).len()
                    &&& forall|j: int|
                        0 <= j < toks.len() ==> token_matches(
                            #[trigger] toks[j],
                            scanned_tokens(self.source_chars())[j],
                            *to_number,
                        )
                },
                Err(msg) => {
                    &&& scan_errors(self.source_chars()).len() > 0
                    &&& msg@ == terminated(scan_errors(self.source_chars()))
                },
            },
    {
        let s = &self.source;
        let mut tokens: Vec<Token> = Vec::new();
        let mut errors: Vec<Vec<char>> = Vec::new();
        let mut current: usize = 0;
        let mut line: u64 = 1;
        let ghost whole = scan_from(s@, 0, 1);
        while current < s.len()
            invariant
                s@ == self.source_chars(),
                s.len() < u64::MAX,
                current <= s.len(),
                1 <= line <= current + 1,
                forall|t: String| to_number.requires((t,)),
                whole == scan_from(s@, 0, 1),
                whole.1 == errors@.map_values(|m: Vec<char>| m@) + scan_from(
                    s@,
                    current as int,
                    line as nat,
                ).1,
                whole.0.len() == tokens.len() + scan_from(s@, current as int, line as nat).0.len(),
                forall|j: int|
                    0 <= j < tokens.len() ==> token_matches(#[trigger] tokens[j], whole.0[j], *to_number),
                forall|j: int|
                    0 <= j < scan_from(s@, current as int, line as nat).0.len() ==> whole.0[tokens.len()
                        + j] == #[trigger] scan_from(s@, current as int, line as nat).0[j],
            decreases s.len() - current,
        {
            let (tok, fault, end, next_line) = scan_token(s, current, line, to_number);
            let ghost st = scan_step(s@, current as int, line as nat);
            let ghost rest = scan_from(s@, end as int, next_line as nat);
            let ghost here = scan_from(s@, current as int, line as nat);
            let ghost old_errors = errors@.map_values(|m: Vec<char>| m@);
            let ghost old_len = tokens.len();
            match tok {
                Some(t) => {
                    tokens.push(t);
                },
                None => {},
            }
            match fault {
                Some(m) => {
                    errors.push(m);
                    assert(errors@.map_values(|m: Vec<char>| m@) == old_errors.push(st.fault->0));
                },
                None => {
                    assert(errors@.map_values(|m: Vec<char>| m@) == old_errors);
                },
            }
            assert forall|j: int| 0 <= j < tokens.len() implies token_matches(
                #[trigger] tokens[j],
                whole.0[j],
                *to_number,
            ) by {
                if j == old_len {
                    assert(here.0[0] == whole.0[old_len as int + 0]);
                }
            }
            assert forall|j: int| 0 <= j < rest.0.len() implies whole.0[tokens.len() + j]
                == #[trigger] rest.0[j] by {
                if st.kind is Some {
                    assert(here.0[j + 1] == rest.0[j]);
                    assert(whole.0[old_len + (j + 1)] == here.0[j + 1]);
                } else {
                    assert(here.0[j] == rest.0[j]);
                }
            }
            current = end;
            line = next_line;
        }
        let ghost tail = scan_from(s@, current as int, line as nat);
        assert(whole.0[tokens.len() + 0] == tail.0[0]);
        tokens.push(Token::new(TokenType::Eof, text_of(&Vec::new()), None, line));
        assert(errors@.map_values(|m: Vec<char>| m@) =~= whole.1);
        if errors.len() > 0 {
            let msg = terminate_all(&errors);
            Err(text_of(&msg))
        } else {
            Ok(tokens)
        }
    }
}

/// Scans one token (or skips one run of blank or comment text) at `i`.
fn scan_token<P: Fn(String) -> u64>(s: &Vec<char>, i: usize, line: u64, to_number: &P) -> (r: (
    Option<Token>,
    Option<Vec<char>>,
    usize,
    u64,
))
    requires
        i < s.len() < u64::MAX,
        1 <= line <= i + 1,
        forall|t: String| to_number.requires((t,)),
    ensures
        ({
            let st = scan_step(s@, i as int, line as nat);
            &&& r.2 == st.end
            &&& i < r.2 <= s.len()
            &&& r.3 == st.line
            &&& 1 <= r.3 <= r.2 + 1
            &&& (r.1 is Some) == (st.fault is Some)
            &&& r.1 is Some ==> r.1->0@ == st.fault->0
            &&& (r.0 is Some) == (st.kind is Some)
            &&& r.0 is Some ==> token_matches(
                r.0->0,
                (st.kind->0, s@.subrange(i as int, st.end), st.line),
                *to_number,
            )
        }),
{
    let c = s[i];
    let n = s.len();
    let single = single_kind_of(c);
    if let Some(k) = single {
        return (Some(plain_token(s, i, i + 1, k, line)), None, i + 1, line);
    }
    let ops = operator_kinds_of(c);
    if let Some((one, two)) = ops {
        if i + 1 < n && s[i + 1] == '=' {
            return (Some(plain_token(s, i, i + 2, two, line)), None, i + 2, line);
        } else {
            return (Some(plain_token(s, i, i + 1, one, line)), None, i + 1, line);
        }
    }
    if c == '/' {
        if i + 1 < n && s[i + 1] == '/' {
            let end = run_end(s, i + 2, CharClass::NotNewline);
            return (None, None, end, line);
        } else {
            return (Some(plain_token(s, i, i + 1, TokenType::Slash, line)), None, i + 1, line);
        }
    }
    if c == ' ' || c == '\r' || c == '\t' {
        return (None, None, i + 1, line);
    }
    if c == '\n' {
        return (None, None, i + 1, line + 1);
    }
    if c == '"' {
        let r = scan_string(s, i, line);
        proof {
            let close = span(s@, i + 1, CharClass::NotQuote);
            lemma_span_bounds(s@, i + 1, CharClass::NotQuote);
            if close < s.len() {
                assert(s@.subrange(i as int, close + 1).subrange(1, close - i) =~= s@.subrange(
                    i + 1,
                    close,
                ));
            }
        }
        return r;
    }
    if '0' <= c && c <= '9' {
        return scan_number(s, i, line, to_number);
    }
    if is_alpha(c) {
        let end = run_end(s, i + 1, CharClass::Word);
        let w = slice_chars(s, i, end);
        let kind = match keyword_of(&w) {
            Some(k) => k,
            None => TokenType::Identifier,
        };
        return (Some(plain_token(s, i, end, kind, line)), None, end, line);
    }
    let mut msg = chars_of("Unrecognised character: ");
    msg.push(c);
    append_str(&mut msg, " at line ");
    let num = decimal_text(line);
    append(&mut msg, &num);
    (None, Some(msg), i + 1, line)
}

/// A token without payload for `s[lo..hi]`.
fn plain_token(s: &Vec<char>, lo: usize, hi: usize, kind: TokenType, line: u64) -> (t: Token)
    requires
        lo <= hi <= s.len(),
    ensures
        t.token_type == kind,
        t.lexeme@ == s@.subrange(lo as int, hi as int),
        t.line_number == line,
        t.literal_option is None,
{
    let w = slice_chars(s, lo, hi);
    Token::new(kind, text_of(&w), None, line)
}

/// The end of the run of class `k` that starts at `i`.
fn run_end(s: &Vec<char>, i: usize, k: CharClass) -> (r: usize)
    requires
        i <= s.len(),
    ensures
        r == span(s@, i as int, k),
        i <= r <= s.len(),
{
    let mut j: usize = i;
    while j < s.len() && class_holds(s[j], &k)
        invariant
            i <= j <= s.len(),
            span(s@, j as int, k) == span(s@, i as int, k),
        decreases s.len() - j,
    {
        j = j + 1;
    }
    j
}

fn class_holds(c: char, k: &CharClass) -> (r: bool)
    ensures
        r == in_class(c, *k),
{
    match k {
        CharClass::Digit => '0' <= c && c <= '9',
        CharClass::Word => is_alphanumeric(c),
        CharClass::NotQuote => c != '"',
        CharClass::NotNewline => c != '\n',
    }
}

/// The newlines among `s[lo..hi]`, added to `line`.
fn count_lines(s: &Vec<char>, lo: usize, hi: usize, line: u64) -> (r: u64)
    requires
        lo <= hi <= s.len(),
        line + (hi - lo) <= u64::MAX,
    ensures
        r == line + newlines(s@, lo as int, hi as int),
        r <= line + (hi - lo),
{
    let mut r = line;
    let mut k: usize = lo;
    while k < hi
        invariant
            lo <= k <= hi <= s.len(),
            line + (hi - lo) <= u64::MAX,
            r == line + newlines(s@, lo as int, k as int),
            r <= line + (k - lo),
        decreases hi - k,
    {
        if s[k] == '\n' {
            r = r + 1;
        }
        k = k + 1;
    }
    r
}

fn scan_string(s: &Vec<char>, i: usize, line: u64) -> (r: (
    Option<Token>,
    Option<Vec<char>>,
    usize,
    u64,
))
    requires
        i < s.len() < u64::MAX,
        s@[i as int] == '"',
        1 <= line <= i + 1,
    ensures
        ({
            let close = span(s@, i + 1, CharClass::NotQuote);
            let next_line = line + newlines(s@, i + 1, close);
            &&& r.3 == next_line
            &&& 1 <= r.3 <= r.2 + 1
            &&& i < r.2 <= s.len()
            &&& if close >= s.len() {
                &&& r.0 is None
                &&& r.1 is Some && r.1->0@ == unterminated_message(line as nat)
                &&& r.2 == close
            } else {
                &&& r.1 is None
                &&& r.2 == close + 1
                &&& r.0 is Some
                &&& r.0->0.token_type == TokenType::StringLiteral
                &&& r.0->0.lexeme@ == s@.subrange(i as int, close + 1)
                &&& r.0->0.line_number == next_line
                &&& r.0->0.literal_option matches Some(LiteralValue::StringVal(v)) && v@
                    == s@.subrange(i + 1, close)
            }
        }),
{
    let close = run_end(s, i + 1, CharClass::NotQuote);
    let next_line = count_lines(s, i + 1, close, line);
    if close >= s.len() {
        let mut msg = chars_of("Unterminated string starting on line ");
        let num = decimal_text(line);
        append(&mut msg, &num);
        (None, Some(msg), close, next_line)
    } else {
        let lexeme = slice_chars(s, i, close + 1);
        let inner = slice_chars(s, i + 1, close);
        let t = Token::new(
            TokenType::StringLiteral,
            text_of(&lexeme),
            Some(LiteralValue::StringVal(text_of(&inner))),
            next_line,
        );
        (Some(t), None, close + 1, next_line)
    }
}

fn scan_number<P: Fn(String) -> u64>(s: &Vec<char>, i: usize, line: u64, to_number: &P) -> (r: (
    Option<Token>,
    Option<Vec<char>>,
    usize,
    u64,
))
    requires
        i < s.len(),
        is_digit_char(s@[i as int]),
        forall|t: String| to_number.requires((t,)),
    ensures
        r.2 == number_end(s@, i as int),
        i < r.2 <= s.len(),
        r.3 == line,
        r.1 is None,
        r.0 is Some,
        token_matches(
            r.0->0,
            (TokenType::Number, s@.subrange(i as int, r.2 as int), line as nat),
            *to_number,
        ),
{
    let j = run_end(s, i + 1, CharClass::Digit);
    let end = if j < s.len() - 1 && s[j] == '.' && '0' <= s[j + 1] && s[j + 1] <= '9' {
        run_end(s, j + 1, CharClass::Digit)
    } else {
        j
    };
    let w = slice_chars(s, i, end);
    let lexeme = text_of(&w);
    let bits = to_number(lexeme.clone());
    let t = Token::new(TokenType::Number, lexeme, Some(LiteralValue::FVal(bits)), line);
    (Some(t), None, end, line)
}

fn single_kind_of(c: char) -> (r: Option<TokenType>)
    ensures
        r == single_kind(c),
{
    if c == '(' {
        Some(TokenType::LeftParent)
    } else if c == ')' {
        Some(TokenType::RightParent)
    } else if c == '{' {
        Some(TokenType::LeftBrace)
    } else if c == '}' {
        Some(TokenType::RightBrace)
    } else if c == ',' {
        Some(TokenType::Comma)
    } else if c == '.' {
        Some(TokenType::Dot)
    } else if c == '-' {
        Some(TokenType::Minus)
    } else if c == '+' {
        Some(TokenType::Plus)
    } else if c == ';' {
        Some(TokenType::Semicolon)
    } else if c == '*' {
        Some(TokenType::Star)
    } else {
        None
    }
}

fn operator_kinds_of(c: char) -> (r: Option<(TokenType, TokenType)>)
    ensures
        r == operator_kinds(c),
{
    if c == '=' {
        Some((TokenType::Equal, TokenType::EqualEqual))
    } else if c == '!' {
        Some((TokenType::Bang, TokenType::BangEqual))
    } else if c == '<' {
        Some((TokenType::Less, TokenType::LessEqual))
    } else if c == '>' {
        Some((TokenType::Greater, TokenType::GreaterEqual))
    } else {
        None
    }
}

fn spells(w: &Vec<char>, k: &str) -> (r: bool)
    ensures
        r == (w@ == k@),
{
    let kc = chars_of(k);
    same_chars(w, &kc)
}

/// The keyword that `w` spells, if any.
fn keyword_of(w: &Vec<char>) -> (r: Option<TokenType>)
    ensures
        r == keyword(w@),
{
    if spells(w, "and") {
        Some(TokenType::And)
    } else if spells(w, "class") {
        Some(TokenType::Class)
    } else if spells(w, "else") {
        Some(TokenType::Else)
    } else if spells(w, "false") {
        Some(TokenType::False)
    } else if spells(w, "for") {
        Some(TokenType::For)
    } else if spells(w, "fun") {
        Some(TokenType::Fun)
    } else if spells(w, "if") {
        Some(TokenType::If)
    } else if spells(w, "nil") {
        Some(TokenType::Nil)
    } else if spells(w, "or") {
        Some(TokenType::Or)
    } else if spells(w, "print") {
        Some(TokenType::Print)
    } else if spells(w, "return") {
        Some(TokenType::Return)
    } else if spells(w, "super") {
        Some(TokenType::Super)
    } else if spells(w, "this") {
        Some(TokenType::This)
    } else if spells(w, "true") {
        Some(TokenType::True)
    } else if spells(w, "var") {
        Some(TokenType::Var)
    } else if spells(w, "while") {
        Some(TokenType::While)
    } else {
        None
    }
}

} // verus!
