//! The parser's reading of a token stream, as functions of its state.
//!
//! Each parsing function of [`crate::frontend::parser::Parser`] has here a
//! spec function of the same shape: it takes the parser's state and gives
//! the state after the call with the result. A call that would recurse
//! without the state getting smaller is answered with `Fail::Stuck`; the
//! contracts of the executable parser show that no call gets there.
use vstd::prelude::*;
use crate::ast::location::{LocationV, Position};
use crate::ast::lexer::{TokenV, TokenValueV, LexerError, spec_next, cur_position};
use crate::text::{nat_text, digit_char};
use crate::ast::ast::{ASTV, ValueV, LiteralV, PatternV, PatternValueV, ParamV, TypeParamV, PatternParamV, FunctionV};

verus! {

/// The content of a parse error.
pub enum ParseErrorV {
    UnexpectedToken(Seq<char>, TokenV),
    UnexpectedEOF,
    UnexpectedPattern(PatternV),
    CouldNotParseNumber(LocationV),
    LexerError(LexerError),
}

/// Why a parse gave no result: an error that the parser reports, a state in
/// which it panics, or a recursion that would not get smaller.
pub enum Fail {
    Error(ParseErrorV),
    Panic,
    Stuck,
}

/// A parsed expression, or a pattern where an expression may stand.
pub enum Node {
    Ast(ASTV),
    Pat(PatternV),
}

/// The state of a lexer together with the tokens read ahead of it.
pub struct LState {
    pub input: Seq<char>,
    pub file: Seq<char>,
    pub started: bool,
    pub cursor: int,
    pub lex_nl: bool,
    pub buffer: Seq<TokenV>,
}

/// The state of the parser: its token source, whether it has read a token
/// yet, whether a line break came before the current token, the current
/// token, and the location of the token before it.
pub struct PState {
    pub lx: LState,
    pub at_start: bool,
    pub newline: bool,
    pub t: TokenV,
    pub last: LocationV,
}

// ---------------------------------------------------------------------------
// Reading tokens.

/// The number of tokens in `s` other than `EOF`.
pub open spec fn non_eof_count(s: Seq<TokenV>) -> nat
    decreases s.len(),
{
    if s.len() == 0 {
        0
    } else {
        (if s[0].value is EOF { 0nat } else { 1nat }) + non_eof_count(s.drop_first())
    }
}

/// Twice the number of characters the lexer has left, plus twice the
/// number of tokens other than `EOF` read ahead.
pub open spec fn lex_measure(lx: LState) -> nat {
    let rest: int = if lx.cursor <= lx.input.len() { lx.input.len() - lx.cursor } else { 0 };
    (2 * rest + 2 * non_eof_count(lx.buffer)) as nat
}

/// The measure of a parser state: what its token source has left, and one
/// more while the current token is not `EOF`.
pub open spec fn pmeasure(st: PState) -> nat {
    lex_measure(st.lx) + if st.t.value is EOF { 0nat } else { 1nat }
}

/// `a` is smaller than `b`.
pub open spec fn dec(a: PState, b: PState) -> bool {
    pmeasure(a) < pmeasure(b)
}

/// `a` is no larger than `b`.
pub open spec fn le(a: PState, b: PState) -> bool {
    pmeasure(a) <= pmeasure(b)
}

/// The position of the lexer's current character.
pub open spec fn lexer_position(lx: LState) -> Position {
    if lx.started {
        cur_position(lx.input, lx.cursor)
    } else {
        Position { line: 0, column: -1i32 }
    }
}

/// The next token: the first one read ahead, else the lexer's next.
pub open spec fn lex_next(lx: LState) -> (LState, Result<TokenV, LexerError>) {
    if lx.buffer.len() > 0 {
        (LState { buffer: lx.buffer.drop_first(), ..lx }, Ok(lx.buffer[0]))
    } else {
        let (k, nl, r) = spec_next(lx.input, lx.file, lx.cursor, lx.lex_nl);
        (LState { started: true, cursor: k, lex_nl: nl, ..lx }, r)
    }
}

/// The error for an error of the lexer.
pub open spec fn lex_fail(e: LexerError) -> Fail {
    Fail::Error(ParseErrorV::LexerError(e))
}

/// An unexpected-token error.
pub open spec fn unexpected(msg: Seq<char>, t: TokenV) -> Fail {
    Fail::Error(ParseErrorV::UnexpectedToken(msg, t))
}

/// Reads tokens until one that is not a line break, noting in `newline`
/// that a line break was passed.
#[verifier::opaque]
pub open spec fn skip_newlines(st: PState) -> (PState, Result<TokenV, Fail>)
    decreases pmeasure(st),
{
    let (lx, r) = lex_next(st.lx);
    let s1 = PState { lx, ..st };
    match r {
        Err(e) => (s1, Err(lex_fail(e))),
        Ok(tok) => if tok.value is NewLine {
            let s2 = PState { newline: true, ..s1 };
            if dec(s2, st) {
                skip_newlines(s2)
            } else {
                (s2, Err(Fail::Stuck))
            }
        } else {
            (s1, Ok(tok))
        },
    }
}

/// Moves to the next token other than a line break and gives back the
/// current one. The first call notes the lexer's position as the location
/// before the first token.
#[verifier::opaque]
pub open spec fn p_read(st: PState) -> (PState, Result<TokenV, Fail>) {
    let (s1, r) = skip_newlines(PState { newline: false, ..st });
    match r {
        Err(f) => (s1, Err(f)),
        Ok(tok) => {
            let last = if s1.at_start {
                LocationV { file: s1.lx.file, from: lexer_position(s1.lx), to: lexer_position(s1.lx) }
            } else {
                s1.t.location
            };
            (PState { t: tok, at_start: false, last, ..s1 }, Ok(s1.t))
        },
    }
}

/// Reads a name, or fails with `msg` on the token read.
#[verifier::opaque]
pub open spec fn p_read_name(st: PState, msg: Seq<char>) -> (PState, Result<(Seq<char>, LocationV), Fail>) {
    let (s1, r) = p_read(st);
    match r {
        Err(f) => (s1, Err(f)),
        Ok(tok) => match tok.value {
            TokenValueV::Name(n) => (s1, Ok((n, tok.location))),
            _ => (s1, Err(unexpected(msg, tok))),
        },
    }
}

// ---------------------------------------------------------------------------
// Reading ahead.

/// The next token after `i` tokens read ahead; a token taken from the lexer
/// is kept in the buffer.
pub open spec fn la_next(lx: LState, i: int) -> (LState, int, Result<TokenV, LexerError>) {
    if i < lx.buffer.len() {
        (lx, i + 1, Ok(lx.buffer[i]))
    } else {
        let (k, nl, r) = spec_next(lx.input, lx.file, lx.cursor, lx.lex_nl);
        let l1 = LState { started: true, cursor: k, lex_nl: nl, ..lx };
        match r {
            Ok(t) => (LState { buffer: lx.buffer.push(t), ..l1 }, i + 1, Ok(t)),
            Err(e) => (l1, i, Err(e)),
        }
    }
}

/// What is left to read ahead after `i` tokens.
pub open spec fn la_rest(lx: LState, i: int) -> nat {
    let rest: int = if lx.cursor <= lx.input.len() { lx.input.len() - lx.cursor } else { 0 };
    let ahead: nat = if 0 <= i <= lx.buffer.len() { non_eof_count(lx.buffer.skip(i)) } else { 0 };
    (2 * rest + 2 * ahead) as nat
}

/// What is left to read ahead after `i` tokens, with `tok` in hand.
pub open spec fn la_measure(lx: LState, i: int, tok: TokenV) -> nat {
    la_rest(lx, i) + if tok.value is EOF { 0nat } else { 1nat }
}

/// Whether the token that follows a closed group of parentheses shows that
/// the group was a lambda's parameter list.
pub open spec fn follows_lambda_params(v: TokenValueV) -> bool {
    match v {
        TokenValueV::OpenBrace | TokenValueV::OpenBracket | TokenValueV::Colon | TokenValueV::Not
        | TokenValueV::Name(_) | TokenValueV::IntLiteral(_) | TokenValueV::DecimalLiteral(_)
        | TokenValueV::StringLiteral(_) | TokenValueV::BoolLiteral(_) => true,
        _ => false,
    }
}

/// Reads ahead over a group of parentheses, `level` of them still open,
/// with `tok` the token read last, and decides whether the group is a
/// lambda's parameter list. A group followed by another group is decided
/// by that one.
#[verifier::opaque]
pub open spec fn check_scan(lx: LState, i: int, level: int, tok: TokenV) -> (LState, Result<bool, Fail>)
    decreases la_measure(lx, i, tok),
{
    if level > 0 && tok.value is EOF {
        (lx, Ok(false))
    } else if level > 0 || tok.value is OpenParen {
        let level2 = if level <= 0 {
            1
        } else if tok.value is OpenParen {
            level + 1
        } else if tok.value is CloseParen {
            level - 1
        } else {
            level
        };
        let (l1, i1, r) = la_next(lx, i);
        match r {
            Err(e) => (l1, Err(lex_fail(e))),
            Ok(t2) => if la_measure(l1, i1, t2) < la_measure(lx, i, tok) {
                check_scan(l1, i1, level2, t2)
            } else {
                (l1, Err(Fail::Stuck))
            },
        }
    } else {
        (lx, Ok(follows_lambda_params(tok.value)))
    }
}

/// Whether the `(` read last opens a lambda's parameters, reading ahead
/// from `i` tokens past it.
#[verifier::opaque]
pub open spec fn check_from(lx: LState, i: int) -> (LState, Result<bool, Fail>) {
    let (l1, i1, r) = la_next(lx, i);
    match r {
        Err(e) => (l1, Err(lex_fail(e))),
        Ok(t) => check_scan(l1, i1, 1, t),
    }
}

// ---------------------------------------------------------------------------
// Operators and small helpers.

/// Whether the current expression may end before the current token.
pub open spec fn may_end(st: PState) -> bool {
    st.newline || match st.t.value {
        TokenValueV::EOF => true,
        TokenValueV::Plus | TokenValueV::Minus | TokenValueV::Asterisk | TokenValueV::Slash
        | TokenValueV::LessThan | TokenValueV::GreaterThan | TokenValueV::EqualEqual
        | TokenValueV::PlusEqual | TokenValueV::MinusEqual | TokenValueV::AsteriskEqual
        | TokenValueV::SlashEqual | TokenValueV::LessThanEqual | TokenValueV::GreaterThanEqual
        | TokenValueV::NotEqual | TokenValueV::And | TokenValueV::Or => true,
        TokenValueV::Colon | TokenValueV::Comma | TokenValueV::CloseParen | TokenValueV::Dot
        | TokenValueV::CloseBracket | TokenValueV::CloseBrace => true,
        TokenValueV::Equal => true,
        _ => false,
    }
}

/// The method a prefix operator calls.
pub open spec fn unary_name(v: TokenValueV) -> Option<Seq<char>> {
    match v {
        TokenValueV::Not => Some("!"@),
        TokenValueV::Minus => Some("-"@),
        _ => None,
    }
}

/// The method an infix operator calls.
pub open spec fn binary_name(v: TokenValueV) -> Option<Seq<char>> {
    match v {
        TokenValueV::Plus => Some("+"@),
        TokenValueV::Minus => Some("-"@),
        TokenValueV::Asterisk => Some("*"@),
        TokenValueV::Slash => Some("/"@),
        TokenValueV::LessThan => Some("<"@),
        TokenValueV::GreaterThan => Some(">"@),
        TokenValueV::EqualEqual => Some("=="@),
        TokenValueV::PlusEqual => Some("+="@),
        TokenValueV::MinusEqual => Some("-="@),
        TokenValueV::AsteriskEqual => Some("*="@),
        TokenValueV::SlashEqual => Some("/="@),
        TokenValueV::LessThanEqual => Some("<="@),
        TokenValueV::GreaterThanEqual => Some(">="@),
        TokenValueV::NotEqual => Some("!="@),
        TokenValueV::And => Some("and"@),
        TokenValueV::Or => Some("or"@),
        _ => None,
    }
}

/// The method an operator calls, as infix operator first.
pub open spec fn operator_name(v: TokenValueV) -> Option<Seq<char>> {
    match binary_name(v) {
        Some(n) => Some(n),
        None => unary_name(v),
    }
}

/// How tightly an infix operator binds; `:` binds tightest.
pub open spec fn precedence(v: TokenValueV) -> Option<i8> {
    match v {
        TokenValueV::Or => Some(2i8),
        TokenValueV::And => Some(3i8),
        TokenValueV::EqualEqual | TokenValueV::LessThan | TokenValueV::GreaterThan
        | TokenValueV::LessThanEqual | TokenValueV::GreaterThanEqual | TokenValueV::NotEqual => Some(4i8),
        TokenValueV::Plus | TokenValueV::Minus => Some(5i8),
        TokenValueV::Asterisk | TokenValueV::Slash => Some(6i8),
        TokenValueV::Colon => Some(7i8),
        _ => None,
    }
}

/// The binding strength of infix operators, loosest first: `or`, `and`,
/// the comparisons, `+` and `-`, `*` and `/`, then `:`. Operators of one
/// group bind alike; `=` and the compound assignments are no infix
/// operators.
pub proof fn lemma_precedence_order()
    ensures
        precedence(TokenValueV::Or)->Some_0 < precedence(TokenValueV::And)->Some_0,
        precedence(TokenValueV::And)->Some_0 < precedence(TokenValueV::EqualEqual)->Some_0,
        precedence(TokenValueV::EqualEqual) == precedence(TokenValueV::LessThan),
        precedence(TokenValueV::EqualEqual) == precedence(TokenValueV::GreaterThan),
        precedence(TokenValueV::EqualEqual) == precedence(TokenValueV::LessThanEqual),
        precedence(TokenValueV::EqualEqual) == precedence(TokenValueV::GreaterThanEqual),
        precedence(TokenValueV::EqualEqual) == precedence(TokenValueV::NotEqual),
        precedence(TokenValueV::EqualEqual)->Some_0 < precedence(TokenValueV::Plus)->Some_0,
        precedence(TokenValueV::Plus) == precedence(TokenValueV::Minus),
        precedence(TokenValueV::Plus)->Some_0 < precedence(TokenValueV::Asterisk)->Some_0,
        precedence(TokenValueV::Asterisk) == precedence(TokenValueV::Slash),
        precedence(TokenValueV::Asterisk)->Some_0 < precedence(TokenValueV::Colon)->Some_0,
        precedence(TokenValueV::Or) is Some,
        precedence(TokenValueV::Equal) is None,
        precedence(TokenValueV::PlusEqual) is None,
        precedence(TokenValueV::MinusEqual) is None,
        precedence(TokenValueV::AsteriskEqual) is None,
        precedence(TokenValueV::SlashEqual) is None,
        forall|v: TokenValueV| #[trigger] precedence(v) is Some ==> precedence(TokenValueV::Or)->Some_0 <= precedence(v)->Some_0 <= precedence(TokenValueV::Colon)->Some_0,
{
}

/// Every operator that binds as an infix operator, `:` aside, has a method
/// to call, so reading an infix expression never lacks a method name.
pub proof fn lemma_infix_operators_have_names(v: TokenValueV)
    requires
        precedence(v) is Some,
        !(v is Colon),
    ensures
        binary_name(v) is Some,
        operator_name(v) == binary_name(v),
{
}

/// The span from the start of `a` to the end of `b`, in the file of `a`.
pub open spec fn extend(a: LocationV, b: LocationV) -> LocationV {
    LocationV { file: a.file, from: a.from, to: b.to }
}

/// An expression, or the error for a pattern.
pub open spec fn assert_ast(n: Node) -> Result<ASTV, Fail> {
    match n {
        Node::Ast(a) => Ok(a),
        Node::Pat(p) => Err(Fail::Error(ParseErrorV::UnexpectedPattern(p))),
    }
}

/// A pattern, an expression standing for the value it matches.
pub open spec fn coerce(n: Node) -> PatternV {
    match n {
        Node::Ast(a) => PatternV { value: PatternValueV::SpecificValue(a), location: a.location },
        Node::Pat(p) => p,
    }
}

/// The expression of a node that is one.
pub open spec fn ast_of(n: Node) -> ASTV {
    match n {
        Node::Ast(a) => a,
        Node::Pat(p) => arbitrary(),
    }
}

/// Whether a node is an expression that names a variable.
pub open spec fn is_name_ref(n: Node) -> bool {
    n matches Node::Ast(a) && a.value is NameRef
}

/// Whether any of `args` is a pattern.
pub open spec fn has_pattern(args: Seq<Node>) -> bool {
    exists|i: int| 0 <= i < args.len() && args[i] is Pat
}

/// A call: a pattern when an argument is one, else an expression.
pub open spec fn build_call(target: Option<ASTV>, name: Seq<char>, args: Seq<Node>, loc: LocationV) -> Node {
    let target = match target {
        Some(t) => Some(Box::new(t)),
        None => None,
    };
    if has_pattern(args) {
        Node::Pat(PatternV {
            value: PatternValueV::Call { target, name, args: args.map_values(|a: Node| coerce(a)) },
            location: loc,
        })
    } else {
        Node::Ast(ASTV {
            value: ValueV::Call { target, name, args: args.map_values(|a: Node| ast_of(a)) },
            location: loc,
        })
    }
}

/// The expression or pattern that an infix operator `op` forms of `left`
/// and `right`: a type assertion for `:`, else a call of the operator's
/// method on `left`.
pub open spec fn combine(op: TokenV, left: ASTV, right: Node) -> Result<Node, Fail> {
    if op.value is Colon {
        match assert_ast(right) {
            Err(f) => Err(f),
            Ok(r) => Ok(Node::Ast(ASTV {
                value: ValueV::TypeAssert { value: Box::new(left), typ: Box::new(r) },
                location: extend(left.location, r.location),
            })),
        }
    } else {
        match binary_name(op.value) {
            None => Err(Fail::Panic),
            Some(name) => match right {
                Node::Pat(p) => Ok(Node::Pat(PatternV {
                    value: PatternValueV::Call { target: Some(Box::new(left)), name, args: seq![p] },
                    location: extend(left.location, p.location),
                })),
                Node::Ast(r) => Ok(Node::Ast(ASTV {
                    value: ValueV::Call { target: Some(Box::new(left)), name, args: seq![r] },
                    location: extend(left.location, r.location),
                })),
            },
        }
    }
}

/// The value of a string of decimal digits.
pub open spec fn digits_value(s: Seq<char>) -> int
    decreases s.len(),
{
    if s.len() == 0 {
        0
    } else {
        10 * digits_value(s.drop_last()) + (s.last() as int - '0' as int)
    }
}

/// `s` without a leading sign.
pub open spec fn unsigned_part(s: Seq<char>) -> Seq<char> {
    if s.len() > 0 && (s[0] == '-' || s[0] == '+') {
        s.drop_first()
    } else {
        s
    }
}

/// Every character of `s` is a decimal digit.
pub open spec fn all_digits(s: Seq<char>) -> bool {
    forall|i: int| 0 <= i < s.len() ==> '0' <= #[trigger] s[i] <= '9'
}

/// What reading `s` as an `i64` gives: an optional sign, then one or more
/// decimal digits, whose value fits.
pub open spec fn parse_i64(s: Seq<char>) -> Option<i64> {
    let digits = unsigned_part(s);
    if digits.len() == 0 || !all_digits(digits) {
        None
    } else {
        let v = if s[0] == '-' { -digits_value(digits) } else { digits_value(digits) };
        if i64::MIN <= v <= i64::MAX {
            Some(v as i64)
        } else {
            None
        }
    }
}

proof fn lemma_digits_value_positive(s: Seq<char>)
    requires
        s.len() > 0,
        all_digits(s),
        s[0] != '0',
    ensures
        digits_value(s) >= 1,
        digits_value(s) >= 0,
    decreases s.len(),
{
    if s.len() > 1 {
        let t = s.drop_last();
        assert(all_digits(t)) by {
            assert forall|i: int| 0 <= i < t.len() implies '0' <= #[trigger] t[i] <= '9' by {
                assert(t[i] == s[i]);
            }
        }
        assert(t[0] == s[0]);
        lemma_digits_value_positive(t);
        assert('0' <= s[s.len() - 1] <= '9');
        assert(digits_value(s) == 10 * digits_value(t) + (s.last() as int - '0' as int));
    } else {
        assert(s.drop_last() =~= Seq::<char>::empty());
        assert(digits_value(s.drop_last()) == 0);
        assert(s.last() == s[0]);
        assert('0' <= s[0] <= '9');
        assert(digits_value(s) == 10 * digits_value(s.drop_last()) + (s.last() as int - '0' as int));
    }
}

/// Reading digits as a number and writing the number back gives the same
/// digits, for digits with no leading zero (or the single digit `0`): the
/// value of an integer literal is the number its digits denote.
pub proof fn lemma_digits_value_round_trip(s: Seq<char>)
    requires
        s.len() > 0,
        all_digits(s),
        s[0] != '0' || s.len() == 1,
    ensures
        digits_value(s) >= 0,
        nat_text(digits_value(s) as nat) == s,
    decreases s.len(),
{
    let c = s.last();
    assert('0' <= s[s.len() - 1] <= '9');
    let d = c as int - '0' as int;
    assert(0 <= d <= 9);
    assert(digit_char(d as nat) == c);
    if s.len() == 1 {
        assert(s.drop_last() =~= Seq::<char>::empty());
        assert(digits_value(s.drop_last()) == 0);
        assert(digits_value(s) == 10 * digits_value(s.drop_last()) + d);
        assert(digits_value(s) == d);
        assert(nat_text(d as nat) =~= seq![c]);
        assert(s =~= seq![c]);
    } else {
        let t = s.drop_last();
        assert(all_digits(t)) by {
            assert forall|i: int| 0 <= i < t.len() implies '0' <= #[trigger] t[i] <= '9' by {
                assert(t[i] == s[i]);
            }
        }
        assert(t[0] == s[0]);
        lemma_digits_value_positive(t);
        lemma_digits_value_round_trip(t);
        let x = digits_value(t);
        let n = 10 * x + d;
        assert(digits_value(s) == n);
        assert(n >= 10);
        assert((n as nat) / 10 == x as nat);
        assert((n as nat) % 10 == d as nat);
        assert(nat_text(n as nat) == nat_text(x as nat).push(digit_char(d as nat)));
        assert(t.push(c) =~= s);
    }
}

/// An integer literal, digits with no leading zero whose value fits in an
/// `i64`, reads as the number whose decimal text it is.
pub proof fn lemma_int_literal_value(s: Seq<char>)
    requires
        s.len() > 0,
        all_digits(s),
        s[0] != '0' || s.len() == 1,
        digits_value(s) <= i64::MAX,
    ensures
        parse_i64(s) is Some,
        parse_i64(s)->Some_0 >= 0,
        nat_text(parse_i64(s)->Some_0 as nat) == s,
{
    lemma_digits_value_round_trip(s);
    assert('0' <= s[0] <= '9');
    assert(unsigned_part(s) == s);
}

/// A literal expression read from the current token.
#[verifier::opaque]
pub open spec fn p_literal(st: PState) -> (PState, Result<Node, Fail>) {
    let (s1, r) = p_read(st);
    match r {
        Err(f) => (s1, Err(f)),
        Ok(t) => {
            let lit = |v: ValueV| Ok(Node::Ast(ASTV { value: v, location: t.location }));
            match t.value {
                TokenValueV::BoolLiteral(b) => (s1, lit(ValueV::Literal(LiteralV::Bool(b)))),
                TokenValueV::IntLiteral(text) => match parse_i64(text) {
                    Some(v) => (s1, lit(ValueV::Literal(LiteralV::Int(v)))),
                    None => (s1, Err(Fail::Error(ParseErrorV::CouldNotParseNumber(t.location)))),
                },
                TokenValueV::DecimalLiteral(text) => (s1, lit(ValueV::Literal(LiteralV::Float(text)))),
                TokenValueV::StringLiteral(text) => (s1, lit(ValueV::Literal(LiteralV::String(text)))),
                TokenValueV::Name(n) => (s1, lit(ValueV::NameRef(n))),
                _ => (s1, Err(Fail::Panic)),
            }
        },
    }
}

} // verus!
verus! {

// ---------------------------------------------------------------------------
// The parsing functions. Each takes the state on entry and gives the state
// after it with its result. The decreases measure is the state's measure,
// then a rank that orders the functions that call each other without
// reading a token, then, for the loop over calls, whether the target is a
// bare name.

/// An expression whose operators bind at least as tightly as `min_prec`.
#[verifier::opaque]
pub open spec fn p_expression(st: PState, min_prec: int, rcp: bool, hlpt: bool) -> (PState, Result<Node, Fail>)
    decreases pmeasure(st), 11int, 0int,
{
    let (s1, r1) = p_primary(st, rcp, hlpt);
    match r1 {
        Err(f) => (s1, Err(f)),
        Ok(left) => if dec(s1, st) {
            p_expr_loop(s1, left, min_prec, rcp, hlpt)
        } else {
            (s1, Err(Fail::Stuck))
        },
    }
}

/// The infix operators that follow `left`.
#[verifier::opaque]
pub open spec fn p_expr_loop(st: PState, left: Node, min_prec: int, rcp: bool, hlpt: bool) -> (PState, Result<Node, Fail>)
    decreases pmeasure(st), 11int, 0int,
{
    if st.newline {
        (st, Ok(left))
    } else {
        match precedence(st.t.value) {
            None => (st, Ok(left)),
            Some(prec) => if prec < min_prec {
                (st, Ok(left))
            } else {
                let (s1, r1) = p_read(st);
                match r1 {
                    Err(f) => (s1, Err(f)),
                    Ok(op) => if dec(s1, st) {
                        let (s2, r2) = p_expression(s1, prec + 1, rcp, hlpt);
                        match r2 {
                            Err(f) => (s2, Err(f)),
                            Ok(right) => match assert_ast(left) {
                                Err(f) => (s2, Err(f)),
                                Ok(left_ast) => match combine(op, left_ast, right) {
                                    Err(f) => (s2, Err(f)),
                                    Ok(n) => if dec(s2, st) {
                                        p_expr_loop(s2, n, min_prec, rcp, hlpt)
                                    } else {
                                        (s2, Err(Fail::Stuck))
                                    },
                                },
                            },
                        }
                    } else {
                        (s1, Err(Fail::Stuck))
                    },
                }
            },
        }
    }
}

/// A `val` or `rec val`, a compile-time expression, a prefix operator, or a
/// call target with the calls on it.
#[verifier::opaque]
pub open spec fn p_primary(st: PState, rcp: bool, hlpt: bool) -> (PState, Result<Node, Fail>)
    decreases pmeasure(st), 10int, 0int,
{
    if st.t.value is Recursive || st.t.value is Val {
        p_val(st, st.t.location, false, rcp, hlpt)
    } else if st.t.value is At {
        let (s1, r1) = p_read(st);
        match r1 {
            Err(f) => (s1, Err(f)),
            Ok(at) => if dec(s1, st) {
                if s1.t.value is Recursive || s1.t.value is Val {
                    p_val(s1, at.location, true, rcp, hlpt)
                } else {
                    p_compile_time(s1, at.location, rcp, hlpt)
                }
            } else {
                (s1, Err(Fail::Stuck))
            },
        }
    } else if st.t.value is Minus {
        p_unary(st, rcp, hlpt)
    } else {
        let (s1, r1) = p_call_target(st, rcp, hlpt);
        match r1 {
            Err(f) => (s1, Err(f)),
            Ok(target) => if dec(s1, st) {
                p_primary_loop(s1, target, rcp, hlpt)
            } else {
                (s1, Err(Fail::Stuck))
            },
        }
    }
}

/// The calls made on `target`.
#[verifier::opaque]
pub open spec fn p_primary_loop(st: PState, target: Node, rcp: bool, hlpt: bool) -> (PState, Result<Node, Fail>)
    decreases pmeasure(st), 14int, if is_name_ref(target) { 1int } else { 0int },
{
    let (s1, r1) = p_try_call(st, target, rcp, hlpt);
    match r1 {
        Err(f) => (s1, Err(f)),
        Ok((next, more)) => if !more {
            (s1, Ok(next))
        } else if dec(s1, st) || (pmeasure(s1) == pmeasure(st) && is_name_ref(target) && !is_name_ref(next)) {
            p_primary_loop(s1, next, rcp, hlpt)
        } else {
            (s1, Err(Fail::Stuck))
        },
    }
}

/// One call on `target`, and whether one was made: a method call after
/// `.`, a call of a bare name, or a call of `target` with parentheses.
#[verifier::opaque]
pub open spec fn p_try_call(st: PState, target: Node, rcp: bool, hlpt: bool) -> (PState, Result<(Node, bool), Fail>)
    decreases pmeasure(st), 13int, 0int,
{
    if st.t.value is Dot {
        if st.t.whitespace_before && hlpt {
            (st, Ok((target, false)))
        } else {
            match assert_ast(target) {
                Err(f) => (st, Err(f)),
                Ok(ta) => {
                    let (s1, r1) = p_call_explicit(st, ta, rcp);
                    match r1 {
                        Err(f) => (s1, Err(f)),
                        Ok(n) => (s1, Ok((n, true))),
                    }
                },
            }
        }
    } else if is_name_ref(target) && !may_end(st) && (!rcp || st.t.value is OpenParen) {
        let name = ast_of(target).value->NameRef_0;
        let (s1, r1) = p_arguments(st, rcp, true);
        match r1 {
            Err(f) => (s1, Err(f)),
            Ok(args) => (s1, Ok((build_call(None, name, args, extend(ast_of(target).location, s1.last)), true))),
        }
    } else if st.t.value is OpenParen && !st.t.whitespace_before {
        let (s1, r1) = p_arguments(st, rcp, false);
        match r1 {
            Err(f) => (s1, Err(f)),
            Ok(args) => match assert_ast(target) {
                Err(f) => (s1, Err(f)),
                Ok(ta) => (s1, Ok((build_call(Some(ta), "call"@, args, extend(ta.location, s1.last)), true))),
            },
        }
    } else {
        (st, Ok((target, false)))
    }
}

/// A method call on `target`, standing on its `.`.
#[verifier::opaque]
pub open spec fn p_call_explicit(st: PState, target: ASTV, rcp: bool) -> (PState, Result<Node, Fail>)
    decreases pmeasure(st), 12int, 0int,
{
    let (s1, r1) = p_read(st);
    match r1 {
        Err(f) => (s1, Err(f)),
        Ok(_) => {
            let (s2, r2) = p_read(s1);
            match r2 {
                Err(f) => (s2, Err(f)),
                Ok(nt) => {
                    let name: Result<Seq<char>, Fail> = match nt.value {
                        TokenValueV::Name(s) => Ok(s),
                        v => match operator_name(v) {
                            None => Err(unexpected("Expected a valid method name"@, s2.t)),
                            Some(n) => Ok(n),
                        },
                    };
                    match name {
                        Err(f) => (s2, Err(f)),
                        Ok(name) => if dec(s2, st) {
                            let (s3, r3) = p_arguments(s2, rcp, true);
                            match r3 {
                                Err(f) => (s3, Err(f)),
                                Ok(args) => (s3, Ok(build_call(Some(target), name, args, extend(target.location, s3.last)))),
                            }
                        } else {
                            (s2, Err(Fail::Stuck))
                        },
                    }
                },
            }
        },
    }
}

/// The arguments of a call: in parentheses that follow without space, or
/// up to where the expression may end.
#[verifier::opaque]
pub open spec fn p_arguments(st: PState, rp: bool, hlpt: bool) -> (PState, Result<Seq<Node>, Fail>)
    decreases pmeasure(st), 12int, 0int,
{
    let with_parens = st.t.value is OpenParen && !st.t.whitespace_before;
    let (s1, r1) = if with_parens {
        let (s, r) = p_read(st);
        (s, match r {
            Ok(_) => Ok(()),
            Err(f) => Err(f),
        })
    } else {
        (st, Ok(()))
    };
    match r1 {
        Err(f) => (s1, Err(f)),
        Ok(_) => if !with_parens && may_end(s1) {
            (s1, Ok(Seq::empty()))
        } else if !with_parens && rp {
            (s1, Ok(Seq::empty()))
        } else if with_parens && s1.t.value is CloseParen {
            let (s2, r2) = p_read(s1);
            match r2 {
                Err(f) => (s2, Err(f)),
                Ok(_) => (s2, Ok(Seq::empty())),
            }
        } else if le(s1, st) {
            let inner = hlpt && !with_parens;
            let (s2, r2) = p_expression(s1, 0, false, inner);
            match r2 {
                Err(f) => (s2, Err(f)),
                Ok(e) => if dec(s2, st) {
                    args_close(p_args_loop(s2, seq![e], inner), with_parens)
                } else {
                    (s2, Err(Fail::Stuck))
                },
            }
        } else {
            (s1, Err(Fail::Stuck))
        },
    }
}

/// The end of a call's arguments: the closing `)`, or where the expression
/// may end.
pub open spec fn args_close(r: (PState, Result<Seq<Node>, Fail>), with_parens: bool) -> (PState, Result<Seq<Node>, Fail>) {
    let (s3, r3) = r;
    match r3 {
        Err(f) => (s3, Err(f)),
        Ok(args) => if with_parens {
            if !(s3.t.value is CloseParen) {
                (s3, Err(unexpected("Unexpected ')'"@, s3.t)))
            } else {
                let (s4, r4) = p_read(s3);
                match r4 {
                    Err(f) => (s4, Err(f)),
                    Ok(_) => (s4, Ok(args)),
                }
            }
        } else if !may_end(s3) {
            (s3, Err(unexpected("Expected current expression to end (either new line, ';' or ')')"@, s3.t)))
        } else {
            (s3, Ok(args))
        },
    }
}

/// The arguments after the first, each after a `,`.
#[verifier::opaque]
pub open spec fn p_args_loop(st: PState, acc: Seq<Node>, hlpt: bool) -> (PState, Result<Seq<Node>, Fail>)
    decreases pmeasure(st), 12int, 0int,
{
    if st.t.value is Comma {
        let (s1, r1) = p_read(st);
        match r1 {
            Err(f) => (s1, Err(f)),
            Ok(_) => if dec(s1, st) {
                let (s2, r2) = p_expression(s1, 0, false, hlpt);
                match r2 {
                    Err(f) => (s2, Err(f)),
                    Ok(e) => if dec(s2, st) {
                        p_args_loop(s2, acc.push(e), hlpt)
                    } else {
                        (s2, Err(Fail::Stuck))
                    },
                }
            } else {
                (s1, Err(Fail::Stuck))
            },
        }
    } else {
        (st, Ok(acc))
    }
}

/// A `val` or `rec val` from its first token: a binding pattern, or a
/// definition with an optional type.
pub open spec fn p_val(st: PState, start: LocationV, in_comptime: bool, rcp: bool, hlpt: bool) -> (PState, Result<Node, Fail>)
    decreases pmeasure(st), 9int, 0int,
{
    if st.t.value is Recursive {
        let (s, r) = p_read(st);
        match r {
            Err(f) => (s, Err(f)),
            Ok(_) => if s.t.value is Val {
                p_val_named(s, st, start, true, in_comptime, rcp, hlpt)
            } else {
                (s, Err(unexpected("rec must be followed by val"@, s.t)))
            },
        }
    } else {
        p_val_named(st, st, start, false, in_comptime, rcp, hlpt)
    }
}

/// A `val` from its `val` token: the name, then a binding pattern or the
/// rest of a definition.
pub open spec fn p_val_named(s1: PState, st: PState, start: LocationV, recursive: bool, in_comptime: bool, rcp: bool, hlpt: bool) -> (PState, Result<Node, Fail>)
    decreases pmeasure(st), 8int, 0int,
{
    let (s2, r2) = p_read(s1);
    match r2 {
        Err(f) => (s2, Err(f)),
        Ok(_) => {
            let (s3, r3) = p_read_name(s2, "val must be followed by a name"@);
            match r3 {
                Err(f) => (s3, Err(f)),
                Ok((name, name_loc)) => if !(s3.t.value is Colon || s3.t.value is Equal) {
                    if recursive {
                        let (s4, r4) = p_read(s3);
                        match r4 {
                            Ok(tok) => (s4, Err(unexpected("rec vals must be assignments"@, tok))),
                            Err(_) => (s4, Err(Fail::Panic)),
                        }
                    } else {
                        (s3, Ok(Node::Pat(PatternV { value: PatternValueV::Binding(name), location: extend(start, name_loc) })))
                    }
                } else {
                    p_val_def(s3, st, start, name, name_loc, recursive, in_comptime, rcp, hlpt)
                },
            }
        },
    }
}

/// The rest of a `val` definition after its name: an optional type after
/// `:`, then `=` and the value.
pub open spec fn p_val_def(s3: PState, st: PState, start: LocationV, name: Seq<char>, name_loc: LocationV, recursive: bool, in_comptime: bool, rcp: bool, hlpt: bool) -> (PState, Result<Node, Fail>)
    decreases pmeasure(st), 7int, 0int,
{
    let (s4, r4) = if s3.t.value is Colon {
        let (s, r) = p_read(s3);
        match r {
            Err(f) => (s, Err(f)),
            Ok(_) => if dec(s, st) {
                let (s5, r5) = p_expression(s, 0, true, false);
                match r5 {
                    Err(f) => (s5, Err(f)),
                    Ok(e) => match assert_ast(e) {
                        Err(f) => (s5, Err(f)),
                        Ok(a) => (s5, Ok(Some(a))),
                    },
                }
            } else {
                (s, Err(Fail::Stuck))
            },
        }
    } else {
        (s3, Ok(None))
    };
    match r4 {
        Err(f) => (s4, Err(f)),
        Ok(typ) => if !(s4.t.value is Equal) {
            (s4, Err(unexpected("val needs to have an ="@, s4.t)))
        } else {
            let (s5, r5) = p_read(s4);
            match r5 {
                Err(f) => (s5, Err(f)),
                Ok(_) => if dec(s5, st) {
                    let (s6, r6) = p_expression(s5, 0, rcp, hlpt);
                    match r6 {
                        Err(f) => (s6, Err(f)),
                        Ok(e) => match assert_ast(e) {
                            Err(f) => (s6, Err(f)),
                            Ok(v) => {
                                let value = match typ {
                                    None => v,
                                    Some(ty) => ASTV {
                                        value: ValueV::TypeAssert { value: Box::new(v), typ: Box::new(ty) },
                                        location: ty.location,
                                    },
                                };
                                (s6, Ok(Node::Ast(ASTV {
                                    value: ValueV::Let { name, value: Box::new(value), recursive, comptime: in_comptime },
                                    location: extend(start, s6.last),
                                })))
                            },
                        },
                    }
                } else {
                    (s5, Err(Fail::Stuck))
                },
            }
        },
    }
}

/// What a call can be made on: a literal, a name, a lambda or lambda type,
/// a compile-time expression, `!`, or an expression in parentheses.
#[verifier::opaque]
pub open spec fn p_call_target(st: PState, rcp: bool, hlpt: bool) -> (PState, Result<Node, Fail>)
    decreases pmeasure(st), 9int, 0int,
{
    match st.t.value {
        TokenValueV::BoolLiteral(_) | TokenValueV::IntLiteral(_) | TokenValueV::DecimalLiteral(_)
        | TokenValueV::StringLiteral(_) | TokenValueV::Name(_) => p_literal(st),
        TokenValueV::OpenBrace => p_lambda(st, hlpt),
        TokenValueV::At => {
            let (s1, r1) = p_read(st);
            match r1 {
                Err(f) => (s1, Err(f)),
                Ok(at) => if dec(s1, st) {
                    p_compile_time(s1, at.location, rcp, hlpt)
                } else {
                    (s1, Err(Fail::Stuck))
                },
            }
        },
        TokenValueV::Not => p_unary(st, rcp, hlpt),
        TokenValueV::OpenParen => p_paren(st, hlpt),
        _ => (st, Err(unexpected("Unexpected token"@, st.t))),
    }
}

/// A compile-time expression: `@` and the primary expression after it.
#[verifier::opaque]
pub open spec fn p_compile_time(st: PState, start: LocationV, rcp: bool, hlpt: bool) -> (PState, Result<Node, Fail>)
    decreases pmeasure(st), 12int, 0int,
{
    let (s1, r1) = p_primary(st, rcp, hlpt);
    match r1 {
        Err(f) => (s1, Err(f)),
        Ok(e) => match assert_ast(e) {
            Err(f) => (s1, Err(f)),
            Ok(a) => (s1, Ok(Node::Ast(ASTV { value: ValueV::CompileTimeExpr(Box::new(a)), location: extend(start, s1.last) }))),
        },
    }
}

/// A prefix operator applied to the primary expression after it.
#[verifier::opaque]
pub open spec fn p_unary(st: PState, rcp: bool, hlpt: bool) -> (PState, Result<Node, Fail>)
    decreases pmeasure(st), 8int, 0int,
{
    let start = st.t.location;
    let (s1, r1) = p_read(st);
    match r1 {
        Err(f) => (s1, Err(f)),
        Ok(op) => if dec(s1, st) {
            let (s2, r2) = p_primary(s1, rcp, hlpt);
            match r2 {
                Err(f) => (s2, Err(f)),
                Ok(e) => match assert_ast(e) {
                    Err(f) => (s2, Err(f)),
                    Ok(a) => match unary_name(op.value) {
                        None => (s2, Err(unexpected("Invalid unary operator"@, op))),
                        Some(name) => (s2, Ok(Node::Ast(ASTV {
                            value: ValueV::Call { target: Some(Box::new(a)), name, args: Seq::empty() },
                            location: extend(start, a.location),
                        }))),
                    },
                },
            }
        } else {
            (s1, Err(Fail::Stuck))
        },
    }
}

/// What starts with `(`: a lambda or lambda type, as reading ahead decides,
/// else expressions in parentheses, one per line; more than one make a
/// block.
#[verifier::opaque]
pub open spec fn p_paren(st: PState, hlpt: bool) -> (PState, Result<Node, Fail>)
    decreases pmeasure(st), 8int, 0int,
{
    let (lx, r) = check_from(st.lx, 0);
    let s1 = PState { lx, ..st };
    match r {
        Err(f) => (s1, Err(f)),
        Ok(true) => if le(s1, st) {
            p_lambda(s1, hlpt)
        } else {
            (s1, Err(Fail::Stuck))
        },
        Ok(false) => {
            let (s2, r2) = p_read(s1);
            match r2 {
                Err(f) => (s2, Err(f)),
                Ok(open) => if dec(s2, st) {
                    paren_close(p_paren_loop(s2, Seq::empty()), open.location)
                } else {
                    (s2, Err(Fail::Stuck))
                },
            }
        },
    }
}

/// The end of expressions in parentheses: the `)`, and one expression or a
/// block of them.
pub open spec fn paren_close(r: (PState, Result<Seq<ASTV>, Fail>), open: LocationV) -> (PState, Result<Node, Fail>) {
    let (s3, r3) = r;
    match r3 {
        Err(f) => (s3, Err(f)),
        Ok(values) => if !(s3.t.value is CloseParen) {
            (s3, Err(unexpected("Unmatched parentheses or extra expressions. Expected ')'"@, s3.t)))
        } else {
            let (s4, r4) = p_read(s3);
            match r4 {
                Err(f) => (s4, Err(f)),
                Ok(close) => if values.len() == 1 {
                    (s4, Ok(Node::Ast(values[0])))
                } else {
                    (s4, Ok(Node::Ast(ASTV { value: ValueV::Block(values), location: extend(open, close.location) })))
                },
            }
        },
    }
}

/// The expressions in parentheses: one, and more while each ends a line
/// before `)`.
#[verifier::opaque]
pub open spec fn p_paren_loop(st: PState, acc: Seq<ASTV>) -> (PState, Result<Seq<ASTV>, Fail>)
    decreases pmeasure(st), 12int, 0int,
{
    let (s1, r1) = p_expression(st, 0, false, false);
    match r1 {
        Err(f) => (s1, Err(f)),
        Ok(e) => match assert_ast(e) {
            Err(f) => (s1, Err(f)),
            Ok(a) => if s1.t.value is CloseParen || !s1.newline {
                (s1, Ok(acc.push(a)))
            } else if dec(s1, st) {
                p_paren_loop(s1, acc.push(a))
            } else {
                (s1, Err(Fail::Stuck))
            },
        },
    }
}

/// Every parameter has a type.
pub open spec fn all_typed(params: Seq<ParamV>) -> bool {
    forall|i: int| 0 <= i < params.len() ==> (#[trigger] params[i]).typ is Some
}

/// Some parameter's type is a pattern other than a plain value.
pub open spec fn has_pattern_param(params: Seq<ParamV>) -> bool {
    exists|i: int| 0 <= i < params.len() && ((#[trigger] params[i]).typ matches Some(p) && !(p.value is SpecificValue))
}

/// A function type of `params` returning `ret_node`: a pattern when a
/// parameter type or the return type is one.
pub open spec fn fn_type(params: Seq<ParamV>, ret_node: Node, loc: LocationV, t: TokenV) -> Result<Node, Fail> {
    if !all_typed(params) {
        Err(unexpected("Function types need to have explicit parameter types"@, t))
    } else if has_pattern_param(params) || ret_node is Pat {
        Ok(Node::Pat(PatternV {
            value: PatternValueV::FunctionType {
                params: params.map_values(|p: ParamV| PatternParamV { name: p.name, typ: p.typ->Some_0, location: p.location }),
                return_type: Box::new(coerce(ret_node)),
            },
            location: loc,
        }))
    } else {
        Ok(Node::Ast(ASTV {
            value: ValueV::FnType {
                params: params.map_values(|p: ParamV| TypeParamV { name: p.name, typ: p.typ->Some_0.value->SpecificValue_0, location: p.location }),
                return_type: Box::new(ast_of(ret_node)),
            },
            location: loc,
        }))
    }
}

/// A lambda, or a lambda type when no body follows: optional parameters in
/// parentheses, an optional return type after `:`, and a body in braces or
/// an expression.
#[verifier::opaque]
pub open spec fn p_lambda(st: PState, hlpt: bool) -> (PState, Result<Node, Fail>)
    decreases pmeasure(st), 7int, 0int,
{
    let s0 = PState { newline: false, ..st };
    let start = s0.last;
    let (s1, r1) = if s0.t.value is OpenParen {
        p_lambda_params(s0)
    } else {
        (s0, Ok(Seq::<ParamV>::empty()))
    };
    match r1 {
        Err(f) => (s1, Err(f)),
        Ok(params) => {
            let (s2, r2) = if s1.t.value is Colon {
                let (s, r) = p_read(s1);
                match r {
                    Err(f) => (s, Err(f)),
                    Ok(_) => if dec(s, st) {
                        let (s3, r3) = p_expression(s, 0, true, false);
                        match r3 {
                            Err(f) => (s3, Err(f)),
                            Ok(e) => (s3, Ok(Some(e))),
                        }
                    } else {
                        (s, Err(Fail::Stuck))
                    },
                }
            } else {
                (s1, Ok(None))
            };
            match r2 {
                Err(f) => (s2, Err(f)),
                Ok(return_type) => if !may_end(s2) {
                    let (s3, r3): (PState, Result<ASTV, Fail>) = if s2.t.value is OpenBrace {
                        let (s, r) = p_read(s2);
                        match r {
                            Err(f) => (s, Err(f)),
                            Ok(_) => if dec(s, st) {
                                let (s4, r4) = p_block(s);
                                match r4 {
                                    Err(f) => (s4, Err(f)),
                                    Ok(block) => if !(s4.t.value is CloseBrace) {
                                        (s4, Err(unexpected("Expected '}'"@, s4.t)))
                                    } else {
                                        let (s5, r5) = p_read(s4);
                                        match r5 {
                                            Err(f) => (s5, Err(f)),
                                            Ok(_) => (s5, Ok(block)),
                                        }
                                    },
                                }
                            } else {
                                (s, Err(Fail::Stuck))
                            },
                        }
                    } else if dec(s2, st) {
                        let (s, r) = p_expression(s2, 0, false, hlpt);
                        match r {
                            Err(f) => (s, Err(f)),
                            Ok(e) => (s, assert_ast(e)),
                        }
                    } else {
                        (s2, Err(Fail::Stuck))
                    };
                    match r3 {
                        Err(f) => (s3, Err(f)),
                        Ok(body) => {
                            let rt: Result<Option<Box<ASTV>>, Fail> = match return_type {
                                None => Ok(None),
                                Some(t) => match assert_ast(t) {
                                    Err(f) => Err(f),
                                    Ok(a) => Ok(Some(Box::new(a))),
                                },
                            };
                            match rt {
                                Err(f) => (s3, Err(f)),
                                Ok(rt) => (s3, Ok(Node::Ast(ASTV {
                                    value: ValueV::Function(FunctionV { params, body: Box::new(body), return_type: rt }),
                                    location: extend(start, s3.last),
                                }))),
                            }
                        },
                    }
                } else {
                    match return_type {
                        None => (s2, Err(unexpected("Function types need to have explicit return type"@, s2.t))),
                        Some(ret_node) => (s2, fn_type(params, ret_node, extend(start, s2.t.location), s2.t)),
                    }
                },
            }
        },
    }
}

/// A lambda's parameters, standing on its `(`.
#[verifier::opaque]
pub open spec fn p_lambda_params(st: PState) -> (PState, Result<Seq<ParamV>, Fail>)
    decreases pmeasure(st), 6int, 0int,
{
    let (s1, r1) = p_read(st);
    match r1 {
        Err(f) => (s1, Err(f)),
        Ok(_) => {
            if !(s1.t.value is CloseParen) {
                if dec(s1, st) {
                    params_close(p_params_loop(s1, Seq::empty()))
                } else {
                    (s1, Err(Fail::Stuck))
                }
            } else {
                params_close((s1, Ok(Seq::empty())))
            }
        },
    }
}

/// The `)` after a lambda's parameters.
pub open spec fn params_close(r: (PState, Result<Seq<ParamV>, Fail>)) -> (PState, Result<Seq<ParamV>, Fail>) {
    let (s2, r2) = r;
    match r2 {
        Err(f) => (s2, Err(f)),
        Ok(params) => if !(s2.t.value is CloseParen) {
            (s2, Err(unexpected("Expected ')'"@, s2.t)))
        } else {
            let (s3, r3) = p_read(s2);
            match r3 {
                Err(f) => (s3, Err(f)),
                Ok(_) => (s3, Ok(params)),
            }
        },
    }
}

/// Parameters separated by `,`: each a name and an optional type.
#[verifier::opaque]
pub open spec fn p_params_loop(st: PState, acc: Seq<ParamV>) -> (PState, Result<Seq<ParamV>, Fail>)
    decreases pmeasure(st), 5int, 0int,
{
    let (s1, r1) = p_read_name(st, "Expected parameter name"@);
    match r1 {
        Err(f) => (s1, Err(f)),
        Ok((name, name_loc)) => {
            let (s2, r2) = if s1.t.value is Colon {
                let (s, r) = p_read(s1);
                match r {
                    Err(f) => (s, Err(f)),
                    Ok(_) => if dec(s, st) {
                        let (s3, r3) = p_expression(s, 0, true, false);
                        match r3 {
                            Err(f) => (s3, Err(f)),
                            Ok(e) => (s3, Ok(Some(coerce(e)))),
                        }
                    } else {
                        (s, Err(Fail::Stuck))
                    },
                }
            } else {
                (s1, Ok(None))
            };
            match r2 {
                Err(f) => (s2, Err(f)),
                Ok(typ) => {
                    let acc2 = acc.push(ParamV { name, comptime: false, typ, location: extend(name_loc, s2.last) });
                    if !(s2.t.value is Comma) {
                        (s2, Ok(acc2))
                    } else {
                        let (s3, r3) = p_read(s2);
                        match r3 {
                            Err(f) => (s3, Err(f)),
                            Ok(_) => if dec(s3, st) {
                                p_params_loop(s3, acc2)
                            } else {
                                (s3, Err(Fail::Stuck))
                            },
                        }
                    }
                },
            }
        },
    }
}

/// The expressions of a block up to its `}`; a single one stands alone.
#[verifier::opaque]
pub open spec fn p_block(st: PState) -> (PState, Result<ASTV, Fail>)
    decreases pmeasure(st), 13int, 0int,
{
    block_close(p_block_loop(st, Seq::empty()), st.t.location)
}

/// The expressions of a block: a single one stands alone.
pub open spec fn block_close(r: (PState, Result<Seq<ASTV>, Fail>), start: LocationV) -> (PState, Result<ASTV, Fail>) {
    let (s1, r1) = r;
    match r1 {
        Err(f) => (s1, Err(f)),
        Ok(values) => if values.len() == 1 {
            (s1, Ok(values[0]))
        } else {
            (s1, Ok(ASTV { value: ValueV::Block(values), location: extend(start, s1.t.location) }))
        },
    }
}

/// Expressions up to a `}`.
#[verifier::opaque]
pub open spec fn p_block_loop(st: PState, acc: Seq<ASTV>) -> (PState, Result<Seq<ASTV>, Fail>)
    decreases pmeasure(st), 12int, 0int,
{
    if st.t.value is CloseBrace {
        (st, Ok(acc))
    } else {
        let (s1, r1) = p_expression(st, 0, false, false);
        match r1 {
            Err(f) => (s1, Err(f)),
            Ok(e) => match assert_ast(e) {
                Err(f) => (s1, Err(f)),
                Ok(a) => if dec(s1, st) {
                    p_block_loop(s1, acc.push(a))
                } else {
                    (s1, Err(Fail::Stuck))
                },
            },
        }
    }
}

// ---------------------------------------------------------------------------
// Reading a whole input.

/// Whether an expression follows; the first call reads the first token.
#[verifier::opaque]
pub open spec fn p_has_next(st: PState) -> (PState, Result<bool, Fail>) {
    if st.at_start {
        let (s1, r1) = p_read(st);
        match r1 {
            Err(f) => (s1, Err(f)),
            Ok(_) => (s1, Ok(!(s1.t.value is EOF))),
        }
    } else {
        (st, Ok(!(st.t.value is EOF)))
    }
}

/// Asking whether an expression follows consumes nothing: asked again
/// from the state the first answer left, the question gets the same answer
/// and leaves that state as it is.
pub proof fn lemma_has_next_is_stable(st: PState)
    requires
        p_has_next(st).1 is Ok,
    ensures
        p_has_next(p_has_next(st).0) == p_has_next(st),
{
    reveal(p_has_next);
    reveal(p_read);
}

/// The next top-level expression.
#[verifier::opaque]
pub open spec fn p_next(st: PState, rcp: bool) -> (PState, Result<ASTV, Fail>) {
    let (s1, r1) = if st.at_start {
        let (s, r) = p_read(st);
        (s, match r {
            Ok(_) => Ok(()),
            Err(f) => Err(f),
        })
    } else {
        (st, Ok(()))
    };
    match r1 {
        Err(f) => (s1, Err(f)),
        Ok(_) => {
            let (s2, r2) = p_expression(s1, 0, rcp, false);
            match r2 {
                Err(f) => (s2, Err(f)),
                Ok(e) => (s2, assert_ast(e)),
            }
        },
    }
}

/// The expressions up to the end of the input, after `acc`.
#[verifier::opaque]
pub open spec fn p_all_loop(st: PState, acc: Seq<ASTV>) -> (PState, Result<Seq<ASTV>, Fail>)
    decreases pmeasure(st),
{
    let (s1, r1) = p_has_next(st);
    match r1 {
        Err(f) => (s1, Err(f)),
        Ok(false) => (s1, Ok(acc)),
        Ok(true) => {
            let (s2, r2) = p_next(s1, false);
            match r2 {
                Err(f) => (s2, Err(f)),
                Ok(a) => if dec(s2, st) {
                    p_all_loop(s2, acc.push(a))
                } else {
                    (s2, Err(Fail::Stuck))
                },
            }
        },
    }
}

/// The top-level expressions as one block; none at all panics.
pub open spec fn all_close(r: (PState, Result<Seq<ASTV>, Fail>)) -> (PState, Result<ASTV, Fail>) {
    let (s1, r1) = r;
    match r1 {
        Err(f) => (s1, Err(f)),
        Ok(asts) => if asts.len() == 0 {
            (s1, Err(Fail::Panic))
        } else {
            (s1, Ok(ASTV { value: ValueV::Block(asts), location: extend(asts[0].location, asts.last().location) }))
        },
    }
}

/// The whole input as one block; an input with no expression panics.
#[verifier::opaque]
pub open spec fn p_read_all(st: PState) -> (PState, Result<ASTV, Fail>) {
    all_close(p_all_loop(st, Seq::empty()))
}

} // verus!
