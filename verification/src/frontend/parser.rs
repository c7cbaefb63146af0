use vstd::prelude::*;
use crate::ast::location::{Location, LocationV, Position};
use crate::ast::lexer::{Lexer, LexerError, Token, TokenV, TokenValue, TokenValueV, lemma_next_progress, spec_next};
use crate::ast::lookahead_token_iterator::{LookaheadTokenIterator, LookaheadIteratorIterator};
use crate::ast::ast::{value_view, ast_seq_view, function_view, AST, ASTV, Value, ValueV, Literal, Function, Param, TypeParam, Pattern, PatternValue, PatternParam, ParamV, PatternV, PatternParamV, TypeParamV};
use vstd::string::StrSliceExecFns;
use crate::frontend::grammar::{
    ParseErrorV, Fail, Node, LState, PState, non_eof_count, lex_measure, pmeasure, dec, le, lexer_position, lex_next, lex_fail, unexpected, skip_newlines, p_read, p_read_name, la_next, la_measure, check_scan, check_from, la_rest, may_end, unary_name, binary_name, operator_name, precedence, extend, assert_ast, coerce, ast_of, is_name_ref, has_pattern, build_call, combine, parse_i64, digits_value, unsigned_part, all_digits, p_literal, p_val_def, p_val_named, p_expression, p_expr_loop, p_primary, p_primary_loop, p_try_call, p_call_explicit, p_arguments, p_args_loop, p_val, p_call_target, p_compile_time, p_unary, p_paren, p_paren_loop, all_typed, has_pattern_param, fn_type, p_lambda, p_lambda_params, p_params_loop, p_block, p_block_loop, p_has_next, p_next, p_all_loop, p_read_all, args_close, paren_close, params_close, block_close, all_close,
};

verus! {

/// Why parsing failed.
#[derive(Debug)]
pub enum ParseError {
    UnexpectedToken(String, Token),
    UnexpectedEOF,
    UnexpectedPattern(Pattern),
    CouldNotParseNumber(Location),
    LexerError(LexerError),
}

impl View for ParseError {
    type V = ParseErrorV;

    open spec fn view(&self) -> ParseErrorV {
        match self {
            ParseError::UnexpectedToken(m, t) => ParseErrorV::UnexpectedToken(m@, t@),
            ParseError::UnexpectedEOF => ParseErrorV::UnexpectedEOF,
            ParseError::UnexpectedPattern(p) => ParseErrorV::UnexpectedPattern(p@),
            ParseError::CouldNotParseNumber(l) => ParseErrorV::CouldNotParseNumber(l@),
            ParseError::LexerError(e) => ParseErrorV::LexerError(*e),
        }
    }
}

/// An expression, or a pattern where one may stand.
#[derive(Debug)]
pub enum ASTOrPattern {
    AST(AST),
    Pattern(Pattern),
}

impl View for ASTOrPattern {
    type V = Node;

    open spec fn view(&self) -> Node {
        match self {
            ASTOrPattern::AST(a) => Node::Ast(a@),
            ASTOrPattern::Pattern(p) => Node::Pat(p@),
        }
    }
}

/// A result taken by its content.
pub open spec fn rv<T: View>(r: Result<T, ParseError>) -> Result<T::V, Fail> {
    match r {
        Ok(x) => Ok(x@),
        Err(e) => Err(Fail::Error(e@)),
    }
}

/// The outcome of a call that does not panic.
pub open spec fn no_panic<X>(r: (PState, Result<X, Fail>)) -> bool {
    !(r.1 matches Err(Fail::Panic))
}

/// The tokens a reader has read ahead, with its lexer.
pub open spec fn lstate(la: LookaheadTokenIterator) -> LState {
    let lx = la.lexer_state();
    LState {
        input: lx.input(),
        file: lx.file_name(),
        started: lx.started(),
        cursor: lx.cursor(),
        lex_nl: lx.had_newline(),
        buffer: la.buffer(),
    }
}

/// The lexer stands within its input.
pub open spec fn lvalid(lx: LState) -> bool {
    0 <= lx.cursor <= lx.input.len()
}

/// A sequence of optional strings taken by their content.
pub open spec fn opt_str(r: Option<&str>) -> Option<Seq<char>> {
    match r {
        Some(s) => Some(s@),
        None => None,
    }
}

/// Reads expressions from the tokens of a lexer.
pub struct Parser {
    lexer: LookaheadTokenIterator,
    at_start: bool,
    newline: bool,
    t: Token,
    last_location: Location,
}

// ---------------------------------------------------------------------------
// Facts about the measure.

proof fn lemma_non_eof_push(s: Seq<TokenV>, t: TokenV)
    ensures
        non_eof_count(s.push(t)) == non_eof_count(s) + if t.value is EOF { 0nat } else { 1nat },
    decreases s.len(),
{
    if s.len() > 0 {
        lemma_non_eof_push(s.drop_first(), t);
        assert(s.push(t).drop_first() =~= s.drop_first().push(t));
        assert(s.push(t)[0] == s[0]);
    } else {
        assert(s.push(t).drop_first() =~= Seq::<TokenV>::empty());
        assert(non_eof_count(s.push(t).drop_first()) == 0);
    }
}

proof fn lemma_non_eof_skip(s: Seq<TokenV>, i: int)
    requires
        0 <= i < s.len(),
    ensures
        non_eof_count(s.skip(i)) == (if s[i].value is EOF { 0nat } else { 1nat }) + non_eof_count(s.skip(i + 1)),
{
    assert(s.skip(i).drop_first() =~= s.skip(i + 1));
}

proof fn lemma_non_eof_skip_all(s: Seq<TokenV>)
    ensures
        non_eof_count(s.skip(0)) == non_eof_count(s),
        non_eof_count(s.skip(s.len() as int)) == 0,
{
    assert(s.skip(0) =~= s);
    assert(s.skip(s.len() as int) =~= Seq::<TokenV>::empty());
}

proof fn lemma_non_eof_le(s: Seq<TokenV>, i: int)
    requires
        0 <= i <= s.len(),
    ensures
        non_eof_count(s.skip(i)) <= non_eof_count(s),
    decreases i,
{
    if i == 0 {
        lemma_non_eof_skip_all(s);
    } else {
        lemma_non_eof_le(s, i - 1);
        lemma_non_eof_skip(s, i - 1);
    }
}

/// Taking the next token does not make the token source larger, and a token
/// other than `EOF` makes it smaller by two.
proof fn lemma_lex_next(lx: LState)
    requires
        lvalid(lx),
    ensures
        lvalid(lex_next(lx).0),
        lex_measure(lex_next(lx).0) <= lex_measure(lx),
        lex_next(lx).1 matches Ok(t) && !(t.value is EOF) ==> lex_measure(lex_next(lx).0) + 2 <= lex_measure(lx),
        lex_next(lx).0.input == lx.input,
        lex_next(lx).0.file == lx.file,
{
    if lx.buffer.len() == 0 {
        lemma_next_progress(lx.input, lx.file, lx.cursor, lx.lex_nl);
    }
}

/// Reading one token ahead keeps the measure of what is left to read
/// ahead, with the token in hand, from growing, and the whole measure too.
proof fn lemma_la_next(lx: LState, i: int, tok: TokenV)
    requires
        lvalid(lx),
        0 <= i <= lx.buffer.len(),
        !(tok.value is EOF),
    ensures
        ({
            let (l1, i1, r) = la_next(lx, i);
            &&& lvalid(l1)
            &&& 0 <= i1 <= l1.buffer.len()
            &&& lex_measure(l1) <= lex_measure(lx)
            &&& l1.input == lx.input
            &&& l1.file == lx.file
            &&& (r matches Ok(t2) ==> la_measure(l1, i1, t2) < la_measure(lx, i, tok))
        }),
{
    let (l1, i1, r) = la_next(lx, i);
    if i < lx.buffer.len() {
        lemma_non_eof_skip(lx.buffer, i);
    } else {
        lemma_next_progress(lx.input, lx.file, lx.cursor, lx.lex_nl);
        lemma_non_eof_skip_all(lx.buffer);
        if let Ok(t) = r {
            lemma_non_eof_push(lx.buffer, t);
            lemma_non_eof_skip_all(l1.buffer);
        }
    }
}


/// The optional expression of an optional syntax tree.
pub open spec fn opt_ast(t: Option<AST>) -> Option<ASTV> {
    match t {
        Some(a) => Some(a@),
        None => None,
    }
}

/// The nodes of a sequence of expressions or patterns.
pub open spec fn nodes(s: Seq<ASTOrPattern>) -> Seq<Node> {
    s.map_values(|a: ASTOrPattern| a@)
}

/// The expressions of a sequence of syntax trees.
pub open spec fn asts(s: Seq<AST>) -> Seq<ASTV> {
    s.map_values(|a: AST| a@)
}

/// The parameters of a sequence of lambda parameters.
pub open spec fn params_view(s: Seq<Param>) -> Seq<ParamV> {
    s.map_values(|p: Param| p@)
}

/// The value of the decimal digits `s`, as far as they go, is no larger than
/// theirs all.
proof fn lemma_digits_prefix(s: Seq<char>, k: int)
    requires
        0 <= k <= s.len(),
        forall|i: int| 0 <= i < s.len() ==> '0' <= #[trigger] s[i] <= '9',
    ensures
        0 <= digits_value(s.take(k)) <= digits_value(s),
    decreases s.len(),
{
    if k == s.len() {
        assert(s.take(k) =~= s);
        lemma_digits_nonneg(s);
    } else {
        let d = s.drop_last();
        lemma_digits_prefix(d, k);
        assert(d.take(k) =~= s.take(k));
        lemma_digits_nonneg(d);
    }
}

proof fn lemma_digits_nonneg(s: Seq<char>)
    requires
        forall|i: int| 0 <= i < s.len() ==> '0' <= #[trigger] s[i] <= '9',
    ensures
        0 <= digits_value(s),
    decreases s.len(),
{
    if s.len() > 0 {
        let d = s.drop_last();
        assert forall|i: int| 0 <= i < d.len() implies '0' <= #[trigger] d[i] <= '9' by {
            assert(d[i] == s[i]);
        }
        lemma_digits_nonneg(d);
    }
}

/// Reads `s` as an `i64`, as `str::parse` does: an optional sign, then one
/// or more decimal digits whose value fits.
fn parse_i64_text(s: &str) -> (r: Option<i64>)
    ensures
        r == parse_i64(s@),
{
    let n = s.unicode_len();
    let mut start: usize = 0;
    let mut neg = false;
    if n > 0 {
        let c = s.get_char(0);
        if c == '-' {
            neg = true;
            start = 1;
        } else if c == '+' {
            start = 1;
        }
    }
    let ghost digits = unsigned_part(s@);
    proof {
        assert(digits =~= s@.skip(start as int));
    }
    if start == n {
        return None;
    }
    let limit: i128 = 9223372036854775808;
    let mut v: i128 = 0;
    let mut over = false;
    let mut i: usize = start;
    while i < n
        invariant
            start <= i <= n,
            n == s@.len(),
            limit == 9223372036854775808,
            digits =~= s@.skip(start as int),
            digits == unsigned_part(s@),
            digits.len() > 0,
            neg == (s@.len() > 0 && s@[0] == '-'),
            forall|j: int| 0 <= j < i - start ==> '0' <= #[trigger] digits[j] <= '9',
            !over ==> v == digits_value(digits.take(i - start)),
            over ==> digits_value(digits.take(i - start)) > limit,
            0 <= v <= limit,
        decreases n - i,
    {
        let c = s.get_char(i);
        if !('0' <= c && c <= '9') {
            proof {
                assert(digits[i - start] == c);
                assert(!('0' <= digits[i - start] <= '9'));
                assert(!all_digits(digits));
            }
            return None;
        }
        let ghost j = i - start;
        proof {
            assert(digits[j] == c);
            assert(digits.take(j + 1).drop_last() =~= digits.take(j));
            assert(digits.take(j + 1).last() == c);
            assert forall|m: int| 0 <= m < j + 1 implies '0' <= #[trigger] digits.take(j + 1)[m] <= '9' by {
                assert(digits.take(j + 1)[m] == digits[m]);
            }
            lemma_digits_prefix(digits.take(j + 1), j);
            assert(digits.take(j + 1).take(j) =~= digits.take(j));
        }
        if !over {
            let d = (c as u32 - '0' as u32) as i128;
            assert(0 <= d <= 9);
            let w = v * 10 + d;
            if w > limit {
                over = true;
            } else {
                v = w;
            }
        }
        i += 1;
    }
    proof {
        assert(digits.take(n - start) =~= digits);
    }
    if over {
        return None;
    }
    if neg {
        Some((0 - v) as i64)
    } else if v == limit {
        None
    } else {
        Some(v as i64)
    }
}

/// Whether two token values are the same.
fn same_token_value(a: &TokenValue, b: &TokenValue) -> (r: bool)
    ensures
        r == (a@ == b@),
{
    match a {
        TokenValue::EOF => matches!(b, TokenValue::EOF),
        TokenValue::NewLine => matches!(b, TokenValue::NewLine),
        TokenValue::OpenParen => matches!(b, TokenValue::OpenParen),
        TokenValue::CloseParen => matches!(b, TokenValue::CloseParen),
        TokenValue::OpenBrace => matches!(b, TokenValue::OpenBrace),
        TokenValue::CloseBrace => matches!(b, TokenValue::CloseBrace),
        TokenValue::OpenBracket => matches!(b, TokenValue::OpenBracket),
        TokenValue::CloseBracket => matches!(b, TokenValue::CloseBracket),
        TokenValue::Comma => matches!(b, TokenValue::Comma),
        TokenValue::Dot => matches!(b, TokenValue::Dot),
        TokenValue::At => matches!(b, TokenValue::At),
        TokenValue::Colon => matches!(b, TokenValue::Colon),
        TokenValue::Val => matches!(b, TokenValue::Val),
        TokenValue::Recursive => matches!(b, TokenValue::Recursive),
        TokenValue::If => matches!(b, TokenValue::If),
        TokenValue::Else => matches!(b, TokenValue::Else),
        TokenValue::Then => matches!(b, TokenValue::Then),
        TokenValue::Equal => matches!(b, TokenValue::Equal),
        TokenValue::Plus => matches!(b, TokenValue::Plus),
        TokenValue::Minus => matches!(b, TokenValue::Minus),
        TokenValue::Asterisk => matches!(b, TokenValue::Asterisk),
        TokenValue::Slash => matches!(b, TokenValue::Slash),
        TokenValue::LessThan => matches!(b, TokenValue::LessThan),
        TokenValue::GreaterThan => matches!(b, TokenValue::GreaterThan),
        TokenValue::EqualEqual => matches!(b, TokenValue::EqualEqual),
        TokenValue::PlusEqual => matches!(b, TokenValue::PlusEqual),
        TokenValue::MinusEqual => matches!(b, TokenValue::MinusEqual),
        TokenValue::AsteriskEqual => matches!(b, TokenValue::AsteriskEqual),
        TokenValue::SlashEqual => matches!(b, TokenValue::SlashEqual),
        TokenValue::LessThanEqual => matches!(b, TokenValue::LessThanEqual),
        TokenValue::GreaterThanEqual => matches!(b, TokenValue::GreaterThanEqual),
        TokenValue::NotEqual => matches!(b, TokenValue::NotEqual),
        TokenValue::Not => matches!(b, TokenValue::Not),
        TokenValue::And => matches!(b, TokenValue::And),
        TokenValue::Or => matches!(b, TokenValue::Or),
        TokenValue::Name(x) => match b {
            TokenValue::Name(y) => *x == *y,
            _ => false,
        },
        TokenValue::IntLiteral(x) => match b {
            TokenValue::IntLiteral(y) => *x == *y,
            _ => false,
        },
        TokenValue::DecimalLiteral(x) => match b {
            TokenValue::DecimalLiteral(y) => *x == *y,
            _ => false,
        },
        TokenValue::StringLiteral(x) => match b {
            TokenValue::StringLiteral(y) => *x == *y,
            _ => false,
        },
        TokenValue::BoolLiteral(x) => match b {
            TokenValue::BoolLiteral(y) => *x == *y,
            _ => false,
        },
    }
}

impl Parser {
    /// The parser's state.
    pub closed spec fn state(&self) -> PState {
        PState {
            lx: lstate(self.lexer),
            at_start: self.at_start,
            newline: self.newline,
            t: self.t@,
            last: self.last_location@,
        }
    }

    /// The lexer is well formed.
    pub closed spec fn wf(&self) -> bool {
        self.lexer.lexer_state().wf()
    }

    /// A well-formed parser's lexer stands within its input.
    pub proof fn lemma_wf(&self)
        requires
            self.wf(),
        ensures
            lvalid(self.state().lx),
    {
        self.lexer.lexer_state().lemma_position();
    }

    /// A parser reading the tokens of `lexer`, before its first token.
    pub fn new(lexer: Lexer) -> (r: Self)
        requires
            lexer.wf(),
        ensures
            r.wf(),
            r.state().lx == (LState {
                input: lexer.input(),
                file: lexer.file_name(),
                started: lexer.started(),
                cursor: lexer.cursor(),
                lex_nl: lexer.had_newline(),
                buffer: Seq::empty(),
            }),
            r.state().at_start,
            !r.state().newline,
            r.state().t.value is EOF,
            !r.state().t.whitespace_before,
            r.state().t.location == null_location(),
            r.state().last == null_location(),
    {
        let null = Location {
            file: String::new(),
            from: Position { line: -1, column: -1 },
            to: Position { line: -1, column: -1 },
        };
        Parser {
            lexer: LookaheadTokenIterator::new(lexer),
            at_start: true,
            newline: false,
            t: Token { value: TokenValue::EOF, location: null.clone(), whitespace_before: false },
            last_location: null,
        }
    }

    /// Reads tokens until one that is not a line break, and gives it.
    #[verifier::spinoff_prover]
    fn next_token(&mut self) -> (r: Result<Token, ParseError>)
        requires
            old(self).wf(),
        ensures
            final(self).wf(),
            (final(self).state(), rv(r)) == skip_newlines(old(self).state()),
            final(self).state().t == old(self).state().t,
            final(self).state().at_start == old(self).state().at_start,
            final(self).state().last == old(self).state().last,
            lex_measure(final(self).state().lx) <= lex_measure(old(self).state().lx),
            r matches Ok(tok) && !(tok@.value is EOF) ==> lex_measure(final(self).state().lx) + 2 <= lex_measure(old(self).state().lx),
    {
        proof {
            reveal(skip_newlines);
        }
        loop
            invariant
                self.wf(),
                skip_newlines(self.state()) == skip_newlines(old(self).state()),
                self.state().t == old(self).state().t,
                self.state().at_start == old(self).state().at_start,
                self.state().last == old(self).state().last,
                lex_measure(self.state().lx) <= lex_measure(old(self).state().lx),
            decreases pmeasure(self.state()),
        {
            proof {
                reveal(skip_newlines);
            }
            proof {
                self.lemma_wf();
                lemma_lex_next(self.state().lx);
            }
            let token = match self.lexer.next() {
                Ok(token) => token,
                Err(lex_error) => {
                    return Err(ParseError::LexerError(lex_error));
                },
            };
            if matches!(token.value, TokenValue::NewLine) {
                self.newline = true;
            } else {
                return Ok(token);
            }
        }
    }

    /// Moves to the next token other than a line break and gives back the
    /// current one.
    #[verifier::spinoff_prover]
    fn read(&mut self) -> (r: Result<Token, ParseError>)
        requires
            old(self).wf(),
        ensures
            final(self).wf(),
            (final(self).state(), rv(r)) == p_read(old(self).state()),
            le(final(self).state(), old(self).state()),
            r is Ok && !(old(self).state().t.value is EOF) ==> dec(final(self).state(), old(self).state()),
            r matches Ok(tok) ==> tok@ == old(self).state().t,
            r is Ok ==> !final(self).state().at_start,
    {
        proof {
            reveal(p_read);
        }
        self.newline = false;
        let mut token = match self.next_token() {
            Ok(token) => token,
            Err(e) => return Err(e),
        };
        proof {
            self.lemma_wf();
        }
        let ghost mid = self.state();
        std::mem::swap(&mut self.t, &mut token);
        if self.at_start {
            self.at_start = false;
            proof {
                self.lexer.lexer_state().lemma_position();
            }
            let position = self.lexer.lexer_position();
            self.last_location = Location { file: self.lexer.lexer_file(), from: position, to: position };
        } else {
            self.last_location = token.location.clone();
        }
        Ok(token)
    }
}

impl Parser {
    /// Whether the current expression may end before the current token.
    fn current_expression_may_end(&self) -> (r: bool)
        ensures
            r == may_end(self.state()),
    {
        self.newline || match &self.t.value {
            TokenValue::EOF => true,
            TokenValue::Plus | TokenValue::Minus | TokenValue::Asterisk | TokenValue::Slash
            | TokenValue::LessThan | TokenValue::GreaterThan | TokenValue::EqualEqual
            | TokenValue::PlusEqual | TokenValue::MinusEqual | TokenValue::AsteriskEqual
            | TokenValue::SlashEqual | TokenValue::LessThanEqual | TokenValue::GreaterThanEqual
            | TokenValue::NotEqual | TokenValue::And | TokenValue::Or => true,
            TokenValue::Colon | TokenValue::Comma | TokenValue::CloseParen | TokenValue::Dot
            | TokenValue::CloseBracket | TokenValue::CloseBrace => true,
            TokenValue::Equal => true,
            _ => false,
        }
    }

    /// The method a prefix operator calls.
    fn unary_operator_method_name(operator: &TokenValue) -> (r: Option<&'static str>)
        ensures
            opt_str(r) == unary_name(operator@),
    {
        match operator {
            TokenValue::Not => Some("!"),
            TokenValue::Minus => Some("-"),
            _ => None,
        }
    }

    /// The method an infix operator calls.
    fn binary_operator_method_name(operator: &TokenValue) -> (r: Option<&'static str>)
        ensures
            opt_str(r) == binary_name(operator@),
    {
        match operator {
            TokenValue::Plus => Some("+"),
            TokenValue::Minus => Some("-"),
            TokenValue::Asterisk => Some("*"),
            TokenValue::Slash => Some("/"),
            TokenValue::LessThan => Some("<"),
            TokenValue::GreaterThan => Some(">"),
            TokenValue::EqualEqual => Some("=="),
            TokenValue::PlusEqual => Some("+="),
            TokenValue::MinusEqual => Some("-="),
            TokenValue::AsteriskEqual => Some("*="),
            TokenValue::SlashEqual => Some("/="),
            TokenValue::LessThanEqual => Some("<="),
            TokenValue::GreaterThanEqual => Some(">="),
            TokenValue::NotEqual => Some("!="),
            TokenValue::And => Some("and"),
            TokenValue::Or => Some("or"),
            _ => None,
        }
    }

    /// The method an operator calls, as infix operator first.
    fn operator_method_name(token: &TokenValue) -> (r: Option<&'static str>)
        ensures
            opt_str(r) == operator_name(token@),
    {
        match Self::binary_operator_method_name(token) {
            Some(name) => Some(name),
            None => Self::unary_operator_method_name(token),
        }
    }

    /// How tightly an infix operator binds; every such operator but `:` has
    /// a method to call.
    fn operator_precedence(token: &TokenValue) -> (r: Option<i8>)
        ensures
            r == precedence(token@),
            r is Some && !(token@ is Colon) ==> binary_name(token@) is Some,
    {
        match token {
            TokenValue::Or => Some(2),
            TokenValue::And => Some(3),
            TokenValue::EqualEqual | TokenValue::LessThan | TokenValue::GreaterThan
            | TokenValue::LessThanEqual | TokenValue::GreaterThanEqual | TokenValue::NotEqual => Some(4),
            TokenValue::Plus | TokenValue::Minus => Some(5),
            TokenValue::Asterisk | TokenValue::Slash => Some(6),
            TokenValue::Colon => Some(7),
            _ => None,
        }
    }

    /// The expression of a node, or the error for a pattern.
    fn assert_ast(value: ASTOrPattern) -> (r: Result<AST, ParseError>)
        ensures
            rv(r) == assert_ast(value@),
    {
        match value {
            ASTOrPattern::AST(ast) => Ok(ast),
            ASTOrPattern::Pattern(pattern) => Err(ParseError::UnexpectedPattern(pattern)),
        }
    }

    /// A node as a pattern: an expression matches its value.
    fn coerce_to_pattern(value: ASTOrPattern) -> (r: Pattern)
        ensures
            r@ == coerce(value@),
    {
        match value {
            ASTOrPattern::AST(ast) => {
                let location = ast.location.clone();
                Pattern { value: PatternValue::SpecificValue(ast), location }
            },
            ASTOrPattern::Pattern(pattern) => pattern,
        }
    }

    /// A call of `name` on `target` with `args`: a pattern when an argument is
    /// one, else an expression.
    #[verifier::spinoff_prover]
    fn build_call_ast_or_pattern(&self, target: Option<AST>, name: String, args: Vec<ASTOrPattern>, location: Location) -> (r: Result<ASTOrPattern, ParseError>)
        ensures
            r matches Ok(n) && n@ == build_call(opt_ast(target), name@, nodes(args@), location@),
    {
        let ghost orig = nodes(args@);
        let mut is_pattern = false;
        let mut i: usize = 0;
        while i < args.len()
            invariant
                i <= args@.len(),
                orig == nodes(args@),
                is_pattern == exists|j: int| 0 <= j < i && orig[j] is Pat,
            decreases args@.len() - i,
        {
            proof {
                assert(orig[i as int] == args@[i as int]@);
            }
            if matches!(args[i], ASTOrPattern::Pattern(_)) {
                is_pattern = true;
                proof {
                    assert(orig[i as int] is Pat);
                }
            } else {
                proof {
                    assert(!(orig[i as int] is Pat));
                    assert(forall|j: int| 0 <= j < i + 1 && orig[j] is Pat ==> 0 <= j < i);
                }
            }
            i += 1;
        }
        let target = match target {
            Some(t) => Some(Box::new(t)),
            None => None,
        };
        let mut args = args;
        if is_pattern {
            let mut out: Vec<Pattern> = Vec::new();
            while args.len() > 0
                invariant
                    out@.len() + args@.len() == orig.len(),
                    forall|k: int| 0 <= k < out@.len() ==> (#[trigger] out@[k])@ == coerce(orig[k]),
                    forall|k: int| 0 <= k < args@.len() ==> (#[trigger] args@[k])@ == orig[out@.len() + k],
                decreases args@.len(),
            {
                let a = args.remove(0);
                out.push(Self::coerce_to_pattern(a));
            }
            let r = Pattern { value: PatternValue::Call { target, name, args: out }, location };
            proof {
                assert(r@.value->Call_args =~= orig.map_values(|a: Node| coerce(a)));
            }
            Ok(ASTOrPattern::Pattern(r))
        } else {
            let mut out: Vec<AST> = Vec::new();
            while args.len() > 0
                invariant
                    out@.len() + args@.len() == orig.len(),
                    !has_pattern(orig),
                    forall|k: int| 0 <= k < out@.len() ==> (#[trigger] out@[k])@ == ast_of(orig[k]),
                    forall|k: int| 0 <= k < args@.len() ==> (#[trigger] args@[k])@ == orig[out@.len() + k],
                decreases args@.len(),
            {
                let a = args.remove(0);
                proof {
                    assert(orig[out@.len() as int] == a@);
                }
                match a {
                    ASTOrPattern::AST(ast) => out.push(ast),
                    ASTOrPattern::Pattern(_) => {
                        proof {
                            assert(orig[out@.len() as int] is Pat);
                        }
                        vstd::pervasive::unreached::<()>()
                    },
                }
            }
            let ghost outv = out@;
            let r = AST { value: Value::Call { target, name, args: out }, location };
            proof {
                assert(r@.value->Call_args == ast_seq_view(outv));
                assert(ast_seq_view(outv) =~= orig.map_values(|a: Node| ast_of(a)));
            }
            Ok(ASTOrPattern::AST(r))
        }
    }
}


/// A block of `values`.
#[verifier::spinoff_prover]
fn make_block(values: Vec<AST>, location: Location) -> (a: AST)
    ensures
        a@ == (ASTV { value: ValueV::Block(asts(values@)), location: location@ }),
{
    let ghost vs = values@;
    let a = AST { value: Value::Block(values), location };
    proof {
        assert(value_view(&a.value)->Block_0 == ast_seq_view(vs));
        assert(ast_seq_view(vs) =~= asts(vs));
        assert(a@.value == value_view(&a.value));
    }
    a
}

/// A result holding expressions or patterns, taken by its content.
pub open spec fn rv_nodes(r: Result<Vec<ASTOrPattern>, ParseError>) -> Result<Seq<Node>, Fail> {
    match r {
        Ok(v) => Ok(nodes(v@)),
        Err(e) => Err(Fail::Error(e@)),
    }
}

/// A result holding lambda parameters, taken by its content.
pub open spec fn rv_params(r: Result<Vec<Param>, ParseError>) -> Result<Seq<ParamV>, Fail> {
    match r {
        Ok(v) => Ok(params_view(v@)),
        Err(e) => Err(Fail::Error(e@)),
    }
}

impl Parser {
    /// Fails with `message` unless the current token is `value`.
    fn expect_token(&mut self, value: TokenValue, message: &str) -> (r: Result<(), ParseError>)
        ensures
            *final(self) == *old(self),
            r is Ok <==> old(self).state().t.value == value@,
            r matches Err(e) ==> e@ == ParseErrorV::UnexpectedToken(message@, old(self).state().t),
    {
        if same_token_value(&self.t.value, &value) {
            Ok(())
        } else {
            Err(ParseError::UnexpectedToken(message.to_string(), self.t.clone()))
        }
    }

    /// Reads a name, or fails with `message` on the token read.
    #[verifier::spinoff_prover]
    fn read_name(&mut self, message: &str) -> (r: Result<(String, Location), ParseError>)
        requires
            old(self).wf(),
        ensures
            final(self).wf(),
            (final(self).state(), rv(r)) == p_read_name(old(self).state(), message@),
            le(final(self).state(), old(self).state()),
            r is Ok ==> dec(final(self).state(), old(self).state()),
    {
        proof {
            reveal(p_read_name);
        }
        let t = self.read()?;
        match t.value {
            TokenValue::Name(name) => Ok((name, t.location)),
            _ => Err(ParseError::UnexpectedToken(message.to_string(), t)),
        }
    }

    /// A boolean literal.
    #[verifier::spinoff_prover]
    fn parse_bool(&mut self) -> (r: Result<ASTOrPattern, ParseError>)
        requires
            old(self).wf(),
            old(self).state().t.value is BoolLiteral,
        ensures
            final(self).wf(),
            (final(self).state(), rv(r)) == p_literal(old(self).state()),
            le(final(self).state(), old(self).state()),
            dec(final(self).state(), old(self).state()) || r is Err,
    {
        proof {
            reveal(p_literal);
        }
        let t = self.read()?;
        let value = match t.value {
            TokenValue::BoolLiteral(value) => value,
            _ => vstd::pervasive::unreached(),
        };
        Ok(ASTOrPattern::AST(AST { value: Value::Literal(Literal::Bool(value)), location: t.location }))
    }

    /// An integer literal, which must fit in an `i64`.
    #[verifier::spinoff_prover]
    fn parse_int(&mut self) -> (r: Result<ASTOrPattern, ParseError>)
        requires
            old(self).wf(),
            old(self).state().t.value is IntLiteral,
        ensures
            final(self).wf(),
            (final(self).state(), rv(r)) == p_literal(old(self).state()),
            le(final(self).state(), old(self).state()),
            dec(final(self).state(), old(self).state()) || r is Err,
    {
        proof {
            reveal(p_literal);
        }
        let t = self.read()?;
        let value = match &t.value {
            TokenValue::IntLiteral(value) => parse_i64_text(value.as_str()),
            _ => vstd::pervasive::unreached(),
        };
        match value {
            Some(value) => Ok(ASTOrPattern::AST(AST { value: Value::Literal(Literal::Int(value)), location: t.location })),
            None => Err(ParseError::CouldNotParseNumber(t.location.clone())),
        }
    }

    /// A decimal literal, kept as the text it was written as.
    #[verifier::spinoff_prover]
    fn parse_float(&mut self) -> (r: Result<ASTOrPattern, ParseError>)
        requires
            old(self).wf(),
            old(self).state().t.value is DecimalLiteral,
        ensures
            final(self).wf(),
            (final(self).state(), rv(r)) == p_literal(old(self).state()),
            le(final(self).state(), old(self).state()),
            dec(final(self).state(), old(self).state()) || r is Err,
    {
        proof {
            reveal(p_literal);
        }
        let t = self.read()?;
        let value = match t.value {
            TokenValue::DecimalLiteral(value) => value,
            _ => vstd::pervasive::unreached(),
        };
        Ok(ASTOrPattern::AST(AST { value: Value::Literal(Literal::Float(value)), location: t.location }))
    }

    /// A string literal.
    #[verifier::spinoff_prover]
    fn parse_string(&mut self) -> (r: Result<ASTOrPattern, ParseError>)
        requires
            old(self).wf(),
            old(self).state().t.value is StringLiteral,
        ensures
            final(self).wf(),
            (final(self).state(), rv(r)) == p_literal(old(self).state()),
            le(final(self).state(), old(self).state()),
            dec(final(self).state(), old(self).state()) || r is Err,
    {
        proof {
            reveal(p_literal);
        }
        let t = self.read()?;
        let value = match t.value {
            TokenValue::StringLiteral(value) => value,
            _ => vstd::pervasive::unreached(),
        };
        Ok(ASTOrPattern::AST(AST { value: Value::Literal(Literal::String(value)), location: t.location }))
    }

    /// A name.
    #[verifier::spinoff_prover]
    fn parse_name(&mut self) -> (r: Result<ASTOrPattern, ParseError>)
        requires
            old(self).wf(),
            old(self).state().t.value is Name,
        ensures
            final(self).wf(),
            (final(self).state(), rv(r)) == p_literal(old(self).state()),
            le(final(self).state(), old(self).state()),
            dec(final(self).state(), old(self).state()) || r is Err,
    {
        proof {
            reveal(p_literal);
        }
        let t = self.read()?;
        let value = match t.value {
            TokenValue::Name(name) => name,
            _ => vstd::pervasive::unreached(),
        };
        Ok(ASTOrPattern::AST(AST { value: Value::NameRef(value), location: t.location }))
    }
}


impl Parser {
    /// An expression whose operators bind at least as tightly as
    /// `min_precedence`.
    #[verifier::spinoff_prover]
    fn parse_expression(&mut self, min_precedence: i8, require_call_parens: bool, has_lower_priority_target: bool) -> (r: Result<ASTOrPattern, ParseError>)
        requires
            old(self).wf(),
            no_panic(p_expression(old(self).state(), min_precedence as int, require_call_parens, has_lower_priority_target)),
        ensures
            final(self).wf(),
            (final(self).state(), rv(r)) == p_expression(old(self).state(), min_precedence as int, require_call_parens, has_lower_priority_target),
            le(final(self).state(), old(self).state()),
            r is Ok ==> dec(final(self).state(), old(self).state()),
        decreases pmeasure(old(self).state()), 11int, 0int,
    {
        proof {
            reveal(p_expression);
            reveal(p_expr_loop);
        }
        let ghost st = old(self).state();
        let ghost spec_r = p_expression(st, min_precedence as int, require_call_parens, has_lower_priority_target);
        let mut left = self.parse_primary(require_call_parens, has_lower_priority_target)?;
        loop
            invariant
                self.wf(),
                spec_r == p_expr_loop(self.state(), left@, min_precedence as int, require_call_parens, has_lower_priority_target),
                no_panic(spec_r),
                dec(self.state(), st),
                pmeasure(st) == pmeasure(old(self).state()),
                spec_r == p_expression(old(self).state(), min_precedence as int, require_call_parens, has_lower_priority_target),
            decreases pmeasure(self.state()),
        {
            proof {
                reveal(p_expression);
                reveal(p_expr_loop);
            }
            if self.newline {
                return Ok(left);
            }
            let precedence = match Self::operator_precedence(&self.t.value) {
                None => return Ok(left),
                Some(precedence) => precedence,
            };
            if precedence < min_precedence {
                return Ok(left);
            }
            let operator = self.read()?;
            let right = self.parse_expression(precedence + 1, require_call_parens, has_lower_priority_target)?;
            let left_ast = Self::assert_ast(left)?;
            left = if matches!(operator.value, TokenValue::Colon) {
                let right = Self::assert_ast(right)?;
                let location = left_ast.location.extend(&right.location);
                ASTOrPattern::AST(AST {
                    value: Value::TypeAssert { value: Box::new(left_ast), typ: Box::new(right) },
                    location,
                })
            } else {
                let method_name = match Self::binary_operator_method_name(&operator.value) {
                    Some(name) => name,
                    None => vstd::pervasive::unreached(),
                };
                match right {
                    ASTOrPattern::Pattern(right) => {
                        let location = left_ast.location.extend(&right.location);
                        let args = vec![right];
                        let p = Pattern {
                            value: PatternValue::Call {
                                target: Some(Box::new(left_ast)),
                                name: method_name.to_string(),
                                args,
                            },
                            location,
                        };
                        proof {
                            assert(p@.value->Call_args =~= seq![args@[0]@]);
                        }
                        ASTOrPattern::Pattern(p)
                    },
                    ASTOrPattern::AST(right) => {
                        let location = left_ast.location.extend(&right.location);
                        let args = vec![right];
                        let a = AST {
                            value: Value::Call {
                                target: Some(Box::new(left_ast)),
                                name: method_name.to_string(),
                                args,
                            },
                            location,
                        };
                        proof {
                            assert(a@.value->Call_args == ast_seq_view(args@));
                            assert(ast_seq_view(args@) =~= seq![args@[0]@]);
                        }
                        ASTOrPattern::AST(a)
                    },
                }
            };
        }
    }

    /// A `val`, a compile-time expression, a prefix operator, or a call
    /// target with the calls made on it.
    #[verifier::spinoff_prover]
    fn parse_primary(&mut self, require_call_parens: bool, has_lower_priority_target: bool) -> (r: Result<ASTOrPattern, ParseError>)
        requires
            old(self).wf(),
            no_panic(p_primary(old(self).state(), require_call_parens, has_lower_priority_target)),
        ensures
            final(self).wf(),
            (final(self).state(), rv(r)) == p_primary(old(self).state(), require_call_parens, has_lower_priority_target),
            le(final(self).state(), old(self).state()),
            r is Ok ==> dec(final(self).state(), old(self).state()),
        decreases pmeasure(old(self).state()), 10int, 0int,
    {
        proof {
            reveal(p_primary);
            reveal(p_primary_loop);
        }
        let ghost st = old(self).state();
        let ghost spec_r = p_primary(st, require_call_parens, has_lower_priority_target);
        if matches!(self.t.value, TokenValue::Recursive) || matches!(self.t.value, TokenValue::Val) {
            let start_loc = self.t.location.clone();
            return self.parse_val(start_loc, false, require_call_parens, has_lower_priority_target);
        }
        if matches!(self.t.value, TokenValue::At) {
            let at = self.read()?;
            if matches!(self.t.value, TokenValue::Recursive) || matches!(self.t.value, TokenValue::Val) {
                return self.parse_val(at.location, true, require_call_parens, has_lower_priority_target);
            }
            return self.parse_compile_time_expression(at.location, require_call_parens, has_lower_priority_target);
        }
        if matches!(self.t.value, TokenValue::Minus) {
            return self.parse_unary_operator(require_call_parens, has_lower_priority_target);
        }
        let mut target = self.parse_call_target(require_call_parens, has_lower_priority_target)?;
        loop
            invariant
                self.wf(),
                spec_r == p_primary_loop(self.state(), target@, require_call_parens, has_lower_priority_target),
                no_panic(spec_r),
                dec(self.state(), st),
                st == old(self).state(),
                spec_r == p_primary(old(self).state(), require_call_parens, has_lower_priority_target),
            decreases pmeasure(self.state()), if is_name_ref(target@) { 1int } else { 0int },
        {
            proof {
                reveal(p_primary);
                reveal(p_primary_loop);
            }
            let (new_target, has_more) = self.try_to_parse_call(target, require_call_parens, has_lower_priority_target)?;
            if has_more {
                target = new_target;
            } else {
                return Ok(new_target);
            }
        }
    }

    /// A `val` or `rec val` from its first token: a binding pattern, or a
    /// definition with an optional type.
    #[verifier::spinoff_prover]
    fn parse_val(&mut self, start_loc: Location, comptime: bool, require_call_parens: bool, has_lower_priority_target: bool) -> (r: Result<ASTOrPattern, ParseError>)
        requires
            old(self).wf(),
            old(self).state().t.value is Val || old(self).state().t.value is Recursive,
            no_panic(p_val(old(self).state(), start_loc@, comptime, require_call_parens, has_lower_priority_target)),
        ensures
            final(self).wf(),
            (final(self).state(), rv(r)) == p_val(old(self).state(), start_loc@, comptime, require_call_parens, has_lower_priority_target),
            le(final(self).state(), old(self).state()),
            r is Ok ==> dec(final(self).state(), old(self).state()),
        decreases pmeasure(old(self).state()), 9int, 0int,
    {
        proof {
        }
        let ghost s0 = self.state();
        let recursive = matches!(self.t.value, TokenValue::Recursive);
        if recursive {
            self.read()?;
            self.expect_token(TokenValue::Val, "rec must be followed by val")?;
        }
        let ghost s1 = self.state();
        proof {
            if recursive {
                assert(p_read(s0).0 == s1);
                assert(s1.t.value is Val);
                assert(p_read(s0).1 is Ok);
            } else {
                assert(s1 == s0);
                assert(!(s0.t.value is Recursive));
            }
            assert(p_val(s0, start_loc@, comptime, require_call_parens, has_lower_priority_target)
                == p_val_named(s1, s0, start_loc@, recursive, comptime, require_call_parens, has_lower_priority_target));
        }
        self.read()?;
        let (name, name_loc) = self.read_name("val must be followed by a name")?;
        let is_assignment = matches!(self.t.value, TokenValue::Colon) || matches!(self.t.value, TokenValue::Equal);
        if !is_assignment {
            if recursive {
                let t = match self.read() {
                    Ok(t) => t,
                    Err(_) => vstd::pervasive::unreached(),
                };
                return Err(ParseError::UnexpectedToken("rec vals must be assignments".to_string(), t));
            }
            return Ok(ASTOrPattern::Pattern(Pattern { value: PatternValue::Binding(name), location: start_loc.extend(&name_loc) }));
        }
        let ghost s3 = self.state();
        proof {
            assert(p_val_named(s1, s0, start_loc@, recursive, comptime, require_call_parens, has_lower_priority_target)
                == p_val_def(s3, s0, start_loc@, name@, name_loc@, recursive, comptime, require_call_parens, has_lower_priority_target));
        }
        let type_ast = if matches!(self.t.value, TokenValue::Colon) {
            self.read()?;
            let expr = self.parse_expression(0, true, false)?;
            Some(Self::assert_ast(expr)?)
        } else {
            None
        };
        let ghost s4 = self.state();
        let ghost typ_view = opt_ast(type_ast);
        self.expect_token(TokenValue::Equal, "val needs to have an =")?;
        self.read()?;
        let ghost s5 = self.state();
        let value_ast = Self::assert_ast(self.parse_expression(0, require_call_parens, has_lower_priority_target)?)?;
        let ghost v = value_ast@;
        let value_with_type = match type_ast {
            None => value_ast,
            Some(typ) => {
                let location = typ.location.clone();
                AST { value: Value::TypeAssert { value: Box::new(value_ast), typ: Box::new(typ) }, location }
            },
        };
        let ghost vt = value_with_type@;
        proof {
            assert(vt == (match typ_view {
                None => v,
                Some(ty) => ASTV { value: ValueV::TypeAssert { value: Box::new(v), typ: Box::new(ty) }, location: ty.location },
            }));
        }
        let location = start_loc.extend(&self.last_location);
        let result = AST {
            value: Value::Let { name, value: Box::new(value_with_type), recursive, comptime },
            location,
        };
        proof {
            assert(result@ == ASTV {
                value: ValueV::Let { name: name@, value: Box::new(vt), recursive, comptime },
                location: extend(start_loc@, self.state().last),
            });
        }
        Ok(ASTOrPattern::AST(result))
    }

    /// What a call can be made on.
    #[verifier::spinoff_prover]
    fn parse_call_target(&mut self, require_call_parens: bool, has_lower_priority_target: bool) -> (r: Result<ASTOrPattern, ParseError>)
        requires
            old(self).wf(),
            no_panic(p_call_target(old(self).state(), require_call_parens, has_lower_priority_target)),
        ensures
            final(self).wf(),
            (final(self).state(), rv(r)) == p_call_target(old(self).state(), require_call_parens, has_lower_priority_target),
            le(final(self).state(), old(self).state()),
            r is Ok ==> dec(final(self).state(), old(self).state()),
        decreases pmeasure(old(self).state()), 9int, 0int,
    {
        proof {
            reveal(p_call_target);
        }
        match &self.t.value {
            TokenValue::BoolLiteral(_) => self.parse_bool(),
            TokenValue::IntLiteral(_) => self.parse_int(),
            TokenValue::DecimalLiteral(_) => self.parse_float(),
            TokenValue::StringLiteral(_) => self.parse_string(),
            TokenValue::Name(_) => self.parse_name(),
            TokenValue::OpenBrace => self.parse_lambda_or_lambda_type(has_lower_priority_target),
            TokenValue::At => {
                let at = self.read()?;
                self.parse_compile_time_expression(at.location, require_call_parens, has_lower_priority_target)
            },
            TokenValue::Not => self.parse_unary_operator(require_call_parens, has_lower_priority_target),
            TokenValue::OpenParen => self.parse_expression_starting_with_open_paren(has_lower_priority_target),
            _ => Err(ParseError::UnexpectedToken("Unexpected token".to_string(), self.t.clone())),
        }
    }

    /// A compile-time expression: the primary expression after an `@`.
    #[verifier::spinoff_prover]
    fn parse_compile_time_expression(&mut self, start_loc: Location, require_call_parens: bool, has_lower_priority_target: bool) -> (r: Result<ASTOrPattern, ParseError>)
        requires
            old(self).wf(),
            no_panic(p_compile_time(old(self).state(), start_loc@, require_call_parens, has_lower_priority_target)),
        ensures
            final(self).wf(),
            (final(self).state(), rv(r)) == p_compile_time(old(self).state(), start_loc@, require_call_parens, has_lower_priority_target),
            le(final(self).state(), old(self).state()),
            r is Ok ==> dec(final(self).state(), old(self).state()),
        decreases pmeasure(old(self).state()), 12int, 0int,
    {
        proof {
            reveal(p_compile_time);
        }
        let expr = self.parse_primary(require_call_parens, has_lower_priority_target)?;
        let expr = Self::assert_ast(expr)?;
        let location = start_loc.extend(&self.last_location);
        Ok(ASTOrPattern::AST(AST { value: Value::CompileTimeExpr(Box::new(expr)), location }))
    }

    /// A prefix operator applied to the primary expression after it.
    #[verifier::spinoff_prover]
    fn parse_unary_operator(&mut self, require_call_parens: bool, has_lower_priority_target: bool) -> (r: Result<ASTOrPattern, ParseError>)
        requires
            old(self).wf(),
            old(self).state().t.value is Minus || old(self).state().t.value is Not,
            no_panic(p_unary(old(self).state(), require_call_parens, has_lower_priority_target)),
        ensures
            final(self).wf(),
            (final(self).state(), rv(r)) == p_unary(old(self).state(), require_call_parens, has_lower_priority_target),
            le(final(self).state(), old(self).state()),
            r is Ok ==> dec(final(self).state(), old(self).state()),
        decreases pmeasure(old(self).state()), 8int, 0int,
    {
        proof {
            reveal(p_unary);
        }
        let start_loc = self.t.location.clone();
        let t = self.read()?;
        let expression = Self::assert_ast(self.parse_primary(require_call_parens, has_lower_priority_target)?)?;
        let location = start_loc.extend(&expression.location);
        let name = match Self::unary_operator_method_name(&t.value) {
            Some(name) => name,
            None => return Err(ParseError::UnexpectedToken("Invalid unary operator".to_string(), t.clone())),
        };
        let a = AST {
            value: Value::Call { target: Some(Box::new(expression)), name: name.to_string(), args: Vec::new() },
            location,
        };
        proof {
            assert(a@.value->Call_args == ast_seq_view(Seq::<AST>::empty()));
            assert(ast_seq_view(Seq::<AST>::empty()) =~= Seq::<ASTV>::empty());
        }
        Ok(ASTOrPattern::AST(a))
    }
}

impl Parser {
    /// What starts with `(`: a lambda or lambda type, as reading ahead
    /// decides, else expressions in parentheses, one per line; more than one
    /// make a block.
    #[verifier::spinoff_prover]
    fn parse_expression_starting_with_open_paren(&mut self, has_lower_priority_target: bool) -> (r: Result<ASTOrPattern, ParseError>)
        requires
            old(self).wf(),
            old(self).state().t.value is OpenParen,
            no_panic(p_paren(old(self).state(), has_lower_priority_target)),
        ensures
            final(self).wf(),
            (final(self).state(), rv(r)) == p_paren(old(self).state(), has_lower_priority_target),
            le(final(self).state(), old(self).state()),
            r is Ok ==> dec(final(self).state(), old(self).state()),
        decreases pmeasure(old(self).state()), 8int, 0int,
    {
        proof {
            reveal(p_paren);
            reveal(p_paren_loop);
        }
        let ghost st = old(self).state();
        let check = Self::check_if_open_paren_for_lambda(&mut self.lexer, 0);
        let is_lambda = match check {
            Ok(b) => b,
            Err(e) => {
                return Err(e);
            },
        };
        if is_lambda {
            return self.parse_lambda_or_lambda_type(has_lower_priority_target);
        }
        let start_token = self.read()?;
        let start_location = start_token.location;
        let ghost s2 = self.state();
        let mut values: Vec<AST> = Vec::new();
        proof {
            assert(asts(values@) =~= Seq::<ASTV>::empty());
        }
        loop
            invariant_except_break
                p_paren_loop(s2, Seq::empty()) == p_paren_loop(self.state(), asts(values@)),
                no_panic(p_paren_loop(self.state(), asts(values@))),
            invariant
                self.wf(),
                p_paren(old(self).state(), has_lower_priority_target) == paren_close(p_paren_loop(s2, Seq::empty()), start_location@),
                le(self.state(), s2),
                dec(s2, old(self).state()),
            ensures
                self.wf(),
                p_paren_loop(s2, Seq::empty()) == (self.state(), Ok::<Seq<ASTV>, Fail>(asts(values@))),
                le(self.state(), s2),
            decreases pmeasure(self.state()),
        {
            proof {
                reveal(p_paren);
                reveal(p_paren_loop);
            }
            let ghost acc = asts(values@);
            let expr = self.parse_expression(0, false, false)?;
            let expr = Self::assert_ast(expr)?;
            let ghost ev = expr@;
            values.push(expr);
            proof {
                assert(asts(values@) =~= acc.push(ev));
            }
            if matches!(self.t.value, TokenValue::CloseParen) || !self.newline {
                break;
            }
        }
        if !matches!(self.t.value, TokenValue::CloseParen) {
            return Err(ParseError::UnexpectedToken(
                "Unmatched parentheses or extra expressions. Expected ')'".to_string(),
                self.t.clone(),
            ));
        }
        let t = self.read()?;
        if values.len() == 1 {
            let v = values.pop().unwrap();
            Ok(ASTOrPattern::AST(v))
        } else {
            let location = start_location.extend(&t.location);
            Ok(ASTOrPattern::AST(make_block(values, location)))
        }
    }

    /// Reads ahead past the `(` read last, from `position` tokens after the
    /// current one, and decides whether it opens a lambda's parameters, by
    /// the token after the matching `)`.
    #[verifier::spinoff_prover]
    fn check_if_open_paren_for_lambda(lookahead: &mut LookaheadTokenIterator, position: usize) -> (r: Result<bool, ParseError>)
        requires
            old(lookahead).lexer_state().wf(),
            position <= old(lookahead).buffer().len(),
        ensures
            final(lookahead).lexer_state().wf(),
            (lstate(*final(lookahead)), rv(r)) == check_from(lstate(*old(lookahead)), position as int),
            lex_measure(lstate(*final(lookahead))) <= lex_measure(lstate(*old(lookahead))),
        decreases la_rest(lstate(*old(lookahead)), position as int),
    {
        proof {
            reveal(check_from);
            reveal(check_scan);
        }
        let ghost lx0 = lstate(*lookahead);
        let ghost i0 = position as int;
        let ghost any_token = TokenV { value: TokenValueV::OpenParen, location: arbitrary(), whitespace_before: false };
        proof {
            lookahead.lexer_state().lemma_position();
            lemma_la_next(lx0, i0, any_token);
        }
        let mut nested_paren_level: u128 = 1;
        let mut token: Token = match lookahead.read_ahead(position) {
            Ok(token) => token,
            Err(e) => {
                return Err(ParseError::LexerError(e));
            },
        };
        let mut pos = position + 1;
        while nested_paren_level > 0
            invariant
                lookahead.lexer_state().wf(),
                pos <= lookahead.buffer().len(),
                lookahead.buffer().len() <= usize::MAX,
                i0 + 1 <= pos,
                nested_paren_level <= pos - i0,
                i0 == position as int,
                check_from(lx0, i0) == check_scan(lstate(*lookahead), pos as int, nested_paren_level as int, token@),
                la_measure(lstate(*lookahead), pos as int, token@) <= la_rest(lx0, i0),
                lex_measure(lstate(*lookahead)) <= lex_measure(lx0),
                lx0 == lstate(*old(lookahead)),
            decreases la_measure(lstate(*lookahead), pos as int, token@),
        {
            proof {
                reveal(check_from);
                reveal(check_scan);
            }
            if matches!(token.value, TokenValue::EOF) {
                return Ok(false);
            }
            match token.value {
                TokenValue::OpenParen => nested_paren_level += 1,
                TokenValue::CloseParen => nested_paren_level -= 1,
                _ => (),
            }
            proof {
                lookahead.lexer_state().lemma_position();
                lemma_la_next(lstate(*lookahead), pos as int, token@);
            }
            token = match lookahead.read_ahead(pos) {
                Ok(token) => token,
                Err(e) => {
                    return Err(ParseError::LexerError(e));
                },
            };
            pos = pos + 1;
        }
        proof {
            lookahead.lexer_state().lemma_position();
        }
        match token.value {
            TokenValue::OpenParen => {
                proof {
                    lemma_la_next(lstate(*lookahead), pos as int, token@);
                }
                Self::check_if_open_paren_for_lambda(lookahead, pos)
            },
            TokenValue::EOF => Ok(false),
            TokenValue::NewLine => Ok(false),
            TokenValue::CloseParen => Ok(false),
            TokenValue::CloseBrace => Ok(false),
            TokenValue::CloseBracket => Ok(false),
            TokenValue::Comma => Ok(false),
            TokenValue::Dot => Ok(false),
            TokenValue::At => Ok(false),
            TokenValue::Equal => Ok(false),
            TokenValue::Val => Ok(false),
            TokenValue::Recursive => Ok(false),
            TokenValue::If => Ok(false),
            TokenValue::Else => Ok(false),
            TokenValue::Then => Ok(false),
            TokenValue::Plus => Ok(false),
            TokenValue::Minus => Ok(false),
            TokenValue::Asterisk => Ok(false),
            TokenValue::Slash => Ok(false),
            TokenValue::LessThan => Ok(false),
            TokenValue::GreaterThan => Ok(false),
            TokenValue::EqualEqual => Ok(false),
            TokenValue::PlusEqual => Ok(false),
            TokenValue::MinusEqual => Ok(false),
            TokenValue::AsteriskEqual => Ok(false),
            TokenValue::SlashEqual => Ok(false),
            TokenValue::LessThanEqual => Ok(false),
            TokenValue::GreaterThanEqual => Ok(false),
            TokenValue::NotEqual => Ok(false),
            TokenValue::And => Ok(false),
            TokenValue::Or => Ok(false),
            TokenValue::OpenBrace => Ok(true),
            TokenValue::OpenBracket => Ok(true),
            TokenValue::Colon => Ok(true),
            TokenValue::Not => Ok(true),
            TokenValue::Name(_) => Ok(true),
            TokenValue::IntLiteral(_) => Ok(true),
            TokenValue::DecimalLiteral(_) => Ok(true),
            TokenValue::StringLiteral(_) => Ok(true),
            TokenValue::BoolLiteral(_) => Ok(true),
        }
    }
}

impl Parser {
    /// One call made on `target`, and whether one was made: a method call
    /// after `.`, a call of a bare name, or a call of `target` with
    /// parentheses that follow it without space.
    #[verifier::spinoff_prover]
    fn try_to_parse_call(&mut self, target: ASTOrPattern, require_call_parens: bool, has_lower_priority_target: bool) -> (r: Result<(ASTOrPattern, bool), ParseError>)
        requires
            old(self).wf(),
            no_panic(p_try_call(old(self).state(), target@, require_call_parens, has_lower_priority_target)),
        ensures
            final(self).wf(),
            (final(self).state(), rv(r)) == p_try_call(old(self).state(), target@, require_call_parens, has_lower_priority_target),
            le(final(self).state(), old(self).state()),
            r matches Ok(res) ==> (res.1 ==> (dec(final(self).state(), old(self).state())
                || (pmeasure(final(self).state()) == pmeasure(old(self).state()) && is_name_ref(target@) && !is_name_ref(res.0@)))),
        decreases pmeasure(old(self).state()), 13int, 0int,
    {
        proof {
            reveal(p_try_call);
        }
        if matches!(self.t.value, TokenValue::Dot) {
            if self.t.whitespace_before && has_lower_priority_target {
                return Ok((target, false));
            }
            let target = Self::assert_ast(target)?;
            let call = self.parse_call_with_explicit_target(target, require_call_parens)?;
            return Ok((call, true));
        }
        if matches!(target, ASTOrPattern::AST(AST { value: Value::NameRef(_), .. })) {
            let is_definitely_a_call = matches!(self.t.value, TokenValue::OpenParen);
            if !self.current_expression_may_end() && (!require_call_parens || is_definitely_a_call) {
                let (name, name_location) = match target {
                    ASTOrPattern::AST(AST { value: Value::NameRef(name), location }) => (name, location),
                    _ => vstd::pervasive::unreached(),
                };
                let args = self.parse_arguments(require_call_parens, true)?;
                let location = name_location.extend(&self.last_location);
                let call = self.build_call_ast_or_pattern(None, name, args, location)?;
                return Ok((call, true));
            }
        }
        if matches!(self.t.value, TokenValue::OpenParen) && !self.t.whitespace_before {
            let args = self.parse_arguments(require_call_parens, false)?;
            let target = Self::assert_ast(target)?;
            let location = target.location.extend(&self.last_location);
            let call = self.build_call_ast_or_pattern(Some(target), "call".to_string(), args, location)?;
            return Ok((call, true));
        }
        Ok((target, false))
    }

    /// A method call on `target`, standing on its `.`: a name, or an
    /// operator that names its method.
    #[verifier::spinoff_prover]
    fn parse_call_with_explicit_target(&mut self, target: AST, require_call_parens: bool) -> (r: Result<ASTOrPattern, ParseError>)
        requires
            old(self).wf(),
            old(self).state().t.value is Dot,
            no_panic(p_call_explicit(old(self).state(), target@, require_call_parens)),
        ensures
            final(self).wf(),
            (final(self).state(), rv(r)) == p_call_explicit(old(self).state(), target@, require_call_parens),
            le(final(self).state(), old(self).state()),
            r is Ok ==> dec(final(self).state(), old(self).state()),
        decreases pmeasure(old(self).state()), 12int, 0int,
    {
        proof {
            reveal(p_call_explicit);
        }
        self.read()?;
        let name = self.read()?;
        let name = match name.value {
            TokenValue::Name(string) => string,
            value => match Self::operator_method_name(&value) {
                None => {
                    return Err(ParseError::UnexpectedToken("Expected a valid method name".to_string(), self.t.clone()));
                },
                Some(name) => name.to_string(),
            },
        };
        let args = self.parse_arguments(require_call_parens, true)?;
        let location = target.location.extend(&self.last_location);
        self.build_call_ast_or_pattern(Some(target), name, args, location)
    }

    /// The arguments of a call: in parentheses that follow without space, or
    /// up to where the expression may end.
    #[verifier::spinoff_prover]
    fn parse_arguments(&mut self, require_parens: bool, has_lower_priority_target: bool) -> (r: Result<Vec<ASTOrPattern>, ParseError>)
        requires
            old(self).wf(),
            no_panic(p_arguments(old(self).state(), require_parens, has_lower_priority_target)),
        ensures
            final(self).wf(),
            (final(self).state(), rv_nodes(r)) == p_arguments(old(self).state(), require_parens, has_lower_priority_target),
            le(final(self).state(), old(self).state()),
            old(self).state().t.value is OpenParen && !old(self).state().t.whitespace_before && r is Ok
                ==> dec(final(self).state(), old(self).state()),
        decreases pmeasure(old(self).state()), 12int, 0int,
    {
        proof {
            reveal(p_arguments);
            reveal(p_args_loop);
        }
        let ghost st = old(self).state();
        let with_parens = if matches!(self.t.value, TokenValue::OpenParen) && !self.t.whitespace_before {
            self.read()?;
            true
        } else {
            false
        };
        let mut args: Vec<ASTOrPattern> = Vec::new();
        proof {
            assert(nodes(args@) =~= Seq::<Node>::empty());
        }
        if !with_parens && self.current_expression_may_end() {
            return Ok(args);
        }
        if !with_parens && require_parens {
            return Ok(args);
        }
        if with_parens && matches!(self.t.value, TokenValue::CloseParen) {
            self.read()?;
            return Ok(args);
        }
        let inner = has_lower_priority_target && !with_parens;
        let expr = self.parse_expression(0, false, inner)?;
        let ghost e0 = expr@;
        args.push(expr);
        let ghost s2 = self.state();
        proof {
            assert(nodes(args@) =~= seq![e0]);
        }
        while matches!(self.t.value, TokenValue::Comma)
            invariant
                self.wf(),
                p_args_loop(s2, seq![e0], inner) == p_args_loop(self.state(), nodes(args@), inner),
                p_arguments(old(self).state(), require_parens, has_lower_priority_target) == args_close(p_args_loop(s2, seq![e0], inner), with_parens),
                no_panic(p_args_loop(self.state(), nodes(args@), inner)),
                le(self.state(), s2),
                dec(s2, old(self).state()),
            decreases pmeasure(self.state()),
        {
            proof {
                reveal(p_arguments);
                reveal(p_args_loop);
            }
            let ghost acc = nodes(args@);
            self.read()?;
            let expr = self.parse_expression(0, false, inner)?;
            let ghost ev = expr@;
            args.push(expr);
            proof {
                assert(nodes(args@) =~= acc.push(ev));
            }
        }
        if with_parens {
            if !matches!(self.t.value, TokenValue::CloseParen) {
                return Err(ParseError::UnexpectedToken("Unexpected ')'".to_string(), self.t.clone()));
            }
            self.read()?;
        } else if !self.current_expression_may_end() {
            return Err(ParseError::UnexpectedToken(
                "Expected current expression to end (either new line, ';' or ')')".to_string(),
                self.t.clone(),
            ));
        }
        Ok(args)
    }
}

impl Parser {
    /// A lambda, or a lambda type when no body follows: optional parameters
    /// in parentheses, an optional return type after `:`, and a body in
    /// braces or an expression.
    #[verifier::spinoff_prover]
    fn parse_lambda_or_lambda_type(&mut self, has_lower_priority_target: bool) -> (r: Result<ASTOrPattern, ParseError>)
        requires
            old(self).wf(),
            old(self).state().t.value is OpenParen || old(self).state().t.value is OpenBrace,
            no_panic(p_lambda(old(self).state(), has_lower_priority_target)),
        ensures
            final(self).wf(),
            (final(self).state(), rv(r)) == p_lambda(old(self).state(), has_lower_priority_target),
            le(final(self).state(), old(self).state()),
            r is Ok ==> dec(final(self).state(), old(self).state()),
        decreases pmeasure(old(self).state()), 7int, 0int,
    {
        proof {
            reveal(p_lambda);
        }
        // A lambda in braces may stand on a line of its own: the line break
        // before it does not end it.
        self.newline = false;
        let start_location = self.last_location.clone();
        let has_param_parens = matches!(self.t.value, TokenValue::OpenParen);
        let params = if has_param_parens {
            self.parse_lambda_params()?
        } else {
            Vec::new()
        };
        proof {
            assert(params_view(params@) =~= (if has_param_parens { params_view(params@) } else { Seq::<ParamV>::empty() }));
        }
        let has_return_type = matches!(self.t.value, TokenValue::Colon);
        let return_type = if has_return_type {
            self.read()?;
            Some(self.parse_expression(0, true, false)?)
        } else {
            None
        };
        let has_body = !self.current_expression_may_end();
        if has_body {
            let has_block = matches!(self.t.value, TokenValue::OpenBrace);
            let body = if has_block {
                self.read()?;
                let block = self.parse_block()?;
                if !matches!(self.t.value, TokenValue::CloseBrace) {
                    return Err(ParseError::UnexpectedToken("Expected '}'".to_string(), self.t.clone()));
                }
                self.read()?;
                block
            } else {
                let expr = self.parse_expression(0, false, has_lower_priority_target)?;
                Self::assert_ast(expr)?
            };
            let return_type = match return_type {
                None => None,
                Some(typ) => Some(Box::new(Self::assert_ast(typ)?)),
            };
            let location = start_location.extend(&self.last_location);
            let ghost pv = params@;
            let func = Function { params, body: Box::new(body), return_type };
            proof {
                assert(function_view(&func).params =~= params_view(pv));
            }
            let a = AST { value: Value::Function(func), location };
            proof {
                assert(a@.value->Function_0 == function_view(&func));
            }
            Ok(ASTOrPattern::AST(a))
        } else {
            let ret = match return_type {
                None => {
                    return Err(ParseError::UnexpectedToken(
                        "Function types need to have explicit return type".to_string(),
                        self.t.clone(),
                    ));
                },
                Some(typ) => typ,
            };
            let location = start_location.extend(&self.t.location);
            let ghost pv = params_view(params@);
            let ghost ret_view = ret@;
            proof {
                assert(p_lambda(old(self).state(), has_lower_priority_target) == (self.state(), fn_type(pv, ret_view, location@, self.state().t)));
            }
            let mut has_pattern_params = false;
            let mut i: usize = 0;
            while i < params.len()
                invariant
                    self.wf(),
                    le(self.state(), old(self).state()),
                    p_lambda(old(self).state(), has_lower_priority_target) == (self.state(), fn_type(pv, ret_view, location@, self.state().t)),
                    i <= params@.len(),
                    pv == params_view(params@),
                    forall|j: int| 0 <= j < i ==> (#[trigger] pv[j]).typ is Some,
                    has_pattern_params == exists|j: int| 0 <= j < i && ((#[trigger] pv[j]).typ matches Some(p) && !(p.value is SpecificValue)),
                decreases params@.len() - i,
            {
                proof {
                    reveal(p_lambda);
                }
                proof {
                    assert(pv[i as int] == params@[i as int]@);
                }
                match &params[i].typ {
                    Some(Pattern { value: PatternValue::SpecificValue(_), .. }) => {},
                    Some(_) => has_pattern_params = true,
                    None => {
                        proof {
                            assert(!all_typed(pv));
                        }
                        return Err(ParseError::UnexpectedToken(
                            "Function types need to have explicit parameter types".to_string(),
                            self.t.clone(),
                        ));
                    },
                }
                proof {
                    assert(forall|j: int| 0 <= j < i + 1 && ((#[trigger] pv[j]).typ matches Some(p) && !(p.value is SpecificValue)) ==> 0 <= j < i || j == i);
                }
                i += 1;
            }
            let has_return_type_pattern = matches!(ret, ASTOrPattern::Pattern(_));
            let mut params = params;
            if has_pattern_params || has_return_type_pattern {
                let mut out: Vec<PatternParam> = Vec::new();
                while params.len() > 0
                    invariant
                        out@.len() + params@.len() == pv.len(),
                        all_typed(pv),
                        forall|k: int| 0 <= k < out@.len() ==> (#[trigger] out@[k])@ == (PatternParamV {
                            name: pv[k].name,
                            typ: pv[k].typ->Some_0,
                            location: pv[k].location,
                        }),
                        forall|k: int| 0 <= k < params@.len() ==> (#[trigger] params@[k])@ == pv[out@.len() + k],
                    decreases params@.len(),
                {
                    proof {
                        reveal(p_lambda);
                    }
                    let it = params.remove(0);
                    proof {
                        assert(pv[out@.len() as int].typ is Some);
                    }
                    let typ = match it.typ {
                        Some(typ) => typ,
                        None => vstd::pervasive::unreached(),
                    };
                    out.push(PatternParam { name: it.name, typ, location: it.location });
                }
                let return_type = Box::new(Self::coerce_to_pattern(ret));
                let p = Pattern { value: PatternValue::FunctionType { params: out, return_type }, location };
                proof {
                    assert(p@.value->FunctionType_params =~= pv.map_values(|q: ParamV| PatternParamV {
                        name: q.name,
                        typ: q.typ->Some_0,
                        location: q.location,
                    }));
                }
                Ok(ASTOrPattern::Pattern(p))
            } else {
                let mut ast_params: Vec<TypeParam> = Vec::new();
                while params.len() > 0
                    invariant
                        ast_params@.len() + params@.len() == pv.len(),
                        all_typed(pv),
                        !has_pattern_param(pv),
                        forall|k: int| 0 <= k < ast_params@.len() ==> (#[trigger] ast_params@[k])@ == (TypeParamV {
                            name: pv[k].name,
                            typ: pv[k].typ->Some_0.value->SpecificValue_0,
                            location: pv[k].location,
                        }),
                        forall|k: int| 0 <= k < params@.len() ==> (#[trigger] params@[k])@ == pv[ast_params@.len() + k],
                    decreases params@.len(),
                {
                    proof {
                        reveal(p_lambda);
                    }
                    let it = params.remove(0);
                    let ghost k = ast_params@.len() as int;
                    proof {
                        assert(pv[k].typ is Some);
                        assert(!(pv[k].typ matches Some(p) && !(p.value is SpecificValue)));
                    }
                    let typ = match it.typ {
                        Some(Pattern { value: PatternValue::SpecificValue(ast), .. }) => ast,
                        None => vstd::pervasive::unreached(),
                        Some(_) => vstd::pervasive::unreached(),
                    };
                    ast_params.push(TypeParam { name: it.name, typ, location: it.location });
                }
                let return_type = Box::new(Self::assert_ast(ret)?);
                let a = AST { value: Value::FnType { params: ast_params, return_type }, location };
                proof {
                    assert(a@.value->FnType_params =~= pv.map_values(|q: ParamV| TypeParamV {
                        name: q.name,
                        typ: q.typ->Some_0.value->SpecificValue_0,
                        location: q.location,
                    }));
                }
                Ok(ASTOrPattern::AST(a))
            }
        }
    }

    /// A lambda's parameters, standing on its `(`: names with optional types
    /// after `:`, separated by `,`.
    #[verifier::spinoff_prover]
    fn parse_lambda_params(&mut self) -> (r: Result<Vec<Param>, ParseError>)
        requires
            old(self).wf(),
            old(self).state().t.value is OpenParen,
            no_panic(p_lambda_params(old(self).state())),
        ensures
            final(self).wf(),
            (final(self).state(), rv_params(r)) == p_lambda_params(old(self).state()),
            le(final(self).state(), old(self).state()),
            r is Ok ==> dec(final(self).state(), old(self).state()),
        decreases pmeasure(old(self).state()), 6int, 0int,
    {
        proof {
            reveal(p_lambda_params);
            reveal(p_params_loop);
        }
        let ghost st = old(self).state();
        let mut params: Vec<Param> = Vec::new();
        self.read()?;
        let ghost s1 = self.state();
        proof {
            assert(params_view(params@) =~= Seq::<ParamV>::empty());
        }
        let has_params = !matches!(self.t.value, TokenValue::CloseParen);
        if has_params {
            loop
                invariant_except_break
                    p_params_loop(s1, Seq::empty()) == p_params_loop(self.state(), params_view(params@)),
                    no_panic(p_params_loop(self.state(), params_view(params@))),
                invariant
                    self.wf(),
                    p_lambda_params(old(self).state()) == params_close(p_params_loop(s1, Seq::empty())),
                    le(self.state(), s1),
                    dec(s1, st),
                    st == old(self).state(),
                ensures
                    self.wf(),
                    p_params_loop(s1, Seq::empty()) == (self.state(), Ok::<Seq<ParamV>, Fail>(params_view(params@))),
                    le(self.state(), s1),
                decreases pmeasure(self.state()),
            {
                proof {
                    reveal(p_lambda_params);
                    reveal(p_params_loop);
                }
                let ghost acc = params_view(params@);
                let (name, name_location) = self.read_name("Expected parameter name")?;
                let typ = if matches!(self.t.value, TokenValue::Colon) {
                    self.read()?;
                    let expr = self.parse_expression(0, true, false)?;
                    Some(Self::coerce_to_pattern(expr))
                } else {
                    None
                };
                let location = name_location.extend(&self.last_location);
                let param = Param { name, comptime: false, typ, location };
                let ghost pv = param@;
                params.push(param);
                proof {
                    assert(params_view(params@) =~= acc.push(pv));
                }
                if !matches!(self.t.value, TokenValue::Comma) {
                    break;
                }
                self.read()?;
            }
        }
        proof {
            assert(params_view(params@) =~= Seq::<ParamV>::empty() || has_params);
        }
        if !matches!(self.t.value, TokenValue::CloseParen) {
            return Err(ParseError::UnexpectedToken("Expected ')'".to_string(), self.t.clone()));
        }
        self.read()?;
        Ok(params)
    }

    /// The expressions of a block up to its `}`; a single one stands alone.
    #[verifier::spinoff_prover]
    fn parse_block(&mut self) -> (r: Result<AST, ParseError>)
        requires
            old(self).wf(),
            no_panic(p_block(old(self).state())),
        ensures
            final(self).wf(),
            (final(self).state(), rv(r)) == p_block(old(self).state()),
            le(final(self).state(), old(self).state()),
        decreases pmeasure(old(self).state()), 13int, 0int,
    {
        proof {
            reveal(p_block);
            reveal(p_block_loop);
        }
        let ghost st = old(self).state();
        let mut values: Vec<AST> = Vec::new();
        let start_location = self.t.location.clone();
        proof {
            assert(asts(values@) =~= Seq::<ASTV>::empty());
        }
        while !matches!(self.t.value, TokenValue::CloseBrace)
            invariant
                self.wf(),
                p_block_loop(st, Seq::empty()) == p_block_loop(self.state(), asts(values@)),
                p_block(old(self).state()) == block_close(p_block_loop(st, Seq::empty()), start_location@),
                no_panic(p_block_loop(self.state(), asts(values@))),
                le(self.state(), st),
                st == old(self).state(),
            decreases pmeasure(self.state()),
        {
            proof {
                reveal(p_block);
                reveal(p_block_loop);
            }
            let ghost acc = asts(values@);
            let expr = self.parse_expression(0, false, false)?;
            let ast = Self::assert_ast(expr)?;
            let ghost av = ast@;
            values.push(ast);
            proof {
                assert(asts(values@) =~= acc.push(av));
            }
        }
        if values.len() == 1 {
            Ok(values.pop().unwrap())
        } else {
            let location = start_location.extend(&self.t.location);
            Ok(make_block(values, location))
        }
    }
}

impl Parser {
    /// Whether an expression follows. The first call reads the first token.
    #[verifier::spinoff_prover]
    pub fn has_next(&mut self) -> (r: Result<bool, ParseError>)
        requires
            old(self).wf(),
        ensures
            final(self).wf(),
            (final(self).state(), rv(r)) == p_has_next(old(self).state()),
            le(final(self).state(), old(self).state()),
    {
        proof {
            reveal(p_has_next);
        }
        if self.at_start {
            self.read()?;
        }
        Ok(!matches!(self.t.value, TokenValue::EOF))
    }

    /// The next top-level expression; with `require_call_parens`, a name
    /// followed by an argument is a call only with parentheses.
    #[verifier::spinoff_prover]
    pub fn next(&mut self, require_call_parens: bool) -> (r: Result<AST, ParseError>)
        requires
            old(self).wf(),
            no_panic(p_next(old(self).state(), require_call_parens)),
        ensures
            final(self).wf(),
            (final(self).state(), rv(r)) == p_next(old(self).state(), require_call_parens),
            le(final(self).state(), old(self).state()),
            r is Ok ==> dec(final(self).state(), old(self).state()),
    {
        proof {
            reveal(p_next);
        }
        if self.at_start {
            self.read()?;
        }
        let expr = self.parse_expression(0, require_call_parens, false)?;
        Self::assert_ast(expr)
    }

    /// The whole input as one block of its top-level expressions. An input
    /// with no expression in it is refused by the contract: it panics.
    #[verifier::spinoff_prover]
    pub fn read_all_as_block(&mut self) -> (r: Result<AST, ParseError>)
        requires
            old(self).wf(),
            no_panic(p_read_all(old(self).state())),
        ensures
            final(self).wf(),
            (final(self).state(), rv(r)) == p_read_all(old(self).state()),
    {
        proof {
            reveal(p_read_all);
            reveal(p_all_loop);
        }
        let ghost st = old(self).state();
        let mut asts_read: Vec<AST> = Vec::new();
        proof {
            assert(asts(asts_read@) =~= Seq::<ASTV>::empty());
        }
        loop
            invariant_except_break
                p_all_loop(st, Seq::empty()) == p_all_loop(self.state(), asts(asts_read@)),
            invariant
                self.wf(),
                no_panic(p_read_all(st)),
                p_read_all(st) == p_read_all(old(self).state()),
                p_read_all(st) == all_close(p_all_loop(st, Seq::empty())),
            ensures
                self.wf(),
                p_all_loop(st, Seq::empty()) == (self.state(), Ok::<Seq<ASTV>, Fail>(asts(asts_read@))),
            decreases pmeasure(self.state()),
        {
            proof {
                reveal(p_read_all);
                reveal(p_all_loop);
            }
            let ghost acc = asts(asts_read@);
            let more = self.has_next()?;
            if !more {
                break;
            }
            let ast = self.next(false)?;
            let ghost av = ast@;
            asts_read.push(ast);
            proof {
                assert(asts(asts_read@) =~= acc.push(av));
            }
        }
        if asts_read.len() == 0 {
            return vstd::pervasive::unreached();
        }
        let n = asts_read.len();
        let location = asts_read[0].location.extend(&asts_read[n - 1].location);
        Ok(make_block(asts_read, location))
    }
}

/// The location a parser starts with: no file, and no position.
pub open spec fn null_location() -> LocationV {
    LocationV { file: Seq::empty(), from: Position { line: -1i32, column: -1i32 }, to: Position { line: -1i32, column: -1i32 } }
}

} // verus!
