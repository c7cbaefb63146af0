use vstd::prelude::*;
use crate::ast::chars::{
    is_digit, is_part_of_name, is_start_of_name, is_whitespace, spec_is_digit, spec_is_part_of_name,
    spec_is_start_of_name, spec_is_whitespace, string_from_chars,
};
use crate::ast::location::{Location, LocationV, Position};

verus! {

/// A lexical token with its location and whether whitespace came before it.
#[derive(Debug)]
pub struct Token {
    pub value: TokenValue,
    pub location: Location,
    pub whitespace_before: bool,
}

#[derive(Debug, PartialEq, Eq)]
pub enum TokenValue {
    EOF, NewLine,
    OpenParen, CloseParen, OpenBrace, CloseBrace, OpenBracket, CloseBracket,
    Comma, Dot, At, Colon,
    Val, Recursive, If, Else, Then,
    Equal, Plus, Minus, Asterisk, Slash, LessThan, GreaterThan,
    EqualEqual, PlusEqual, MinusEqual, AsteriskEqual, SlashEqual, LessThanEqual, GreaterThanEqual, NotEqual,
    Not, And, Or,
    Name(String), IntLiteral(String), DecimalLiteral(String), StringLiteral(String), BoolLiteral(bool),
}

/// The content of a [`TokenValue`].
pub enum TokenValueV {
    EOF, NewLine,
    OpenParen, CloseParen, OpenBrace, CloseBrace, OpenBracket, CloseBracket,
    Comma, Dot, At, Colon,
    Val, Recursive, If, Else, Then,
    Equal, Plus, Minus, Asterisk, Slash, LessThan, GreaterThan,
    EqualEqual, PlusEqual, MinusEqual, AsteriskEqual, SlashEqual, LessThanEqual, GreaterThanEqual, NotEqual,
    Not, And, Or,
    Name(Seq<char>), IntLiteral(Seq<char>), DecimalLiteral(Seq<char>), StringLiteral(Seq<char>), BoolLiteral(bool),
}

/// The content of a [`Token`].
pub struct TokenV {
    pub value: TokenValueV,
    pub location: LocationV,
    pub whitespace_before: bool,
}

impl View for TokenValue {
    type V = TokenValueV;

    open spec fn view(&self) -> TokenValueV {
        match self {
            TokenValue::EOF => TokenValueV::EOF,
            TokenValue::NewLine => TokenValueV::NewLine,
            TokenValue::OpenParen => TokenValueV::OpenParen,
            TokenValue::CloseParen => TokenValueV::CloseParen,
            TokenValue::OpenBrace => TokenValueV::OpenBrace,
            TokenValue::CloseBrace => TokenValueV::CloseBrace,
            TokenValue::OpenBracket => TokenValueV::OpenBracket,
            TokenValue::CloseBracket => TokenValueV::CloseBracket,
            TokenValue::Comma => TokenValueV::Comma,
            TokenValue::Dot => TokenValueV::Dot,
            TokenValue::At => TokenValueV::At,
            TokenValue::Colon => TokenValueV::Colon,
            TokenValue::Val => TokenValueV::Val,
            TokenValue::Recursive => TokenValueV::Recursive,
            TokenValue::If => TokenValueV::If,
            TokenValue::Else => TokenValueV::Else,
            TokenValue::Then => TokenValueV::Then,
            TokenValue::Equal => TokenValueV::Equal,
            TokenValue::Plus => TokenValueV::Plus,
            TokenValue::Minus => TokenValueV::Minus,
            TokenValue::Asterisk => TokenValueV::Asterisk,
            TokenValue::Slash => TokenValueV::Slash,
            TokenValue::LessThan => TokenValueV::LessThan,
            TokenValue::GreaterThan => TokenValueV::GreaterThan,
            TokenValue::EqualEqual => TokenValueV::EqualEqual,
            TokenValue::PlusEqual => TokenValueV::PlusEqual,
            TokenValue::MinusEqual => TokenValueV::MinusEqual,
            TokenValue::AsteriskEqual => TokenValueV::AsteriskEqual,
            TokenValue::SlashEqual => TokenValueV::SlashEqual,
            TokenValue::LessThanEqual => TokenValueV::LessThanEqual,
            TokenValue::GreaterThanEqual => TokenValueV::GreaterThanEqual,
            TokenValue::NotEqual => TokenValueV::NotEqual,
            TokenValue::Not => TokenValueV::Not,
            TokenValue::And => TokenValueV::And,
            TokenValue::Or => TokenValueV::Or,
            TokenValue::Name(s) => TokenValueV::Name(s@),
            TokenValue::IntLiteral(s) => TokenValueV::IntLiteral(s@),
            TokenValue::DecimalLiteral(s) => TokenValueV::DecimalLiteral(s@),
            TokenValue::StringLiteral(s) => TokenValueV::StringLiteral(s@),
            TokenValue::BoolLiteral(b) => TokenValueV::BoolLiteral(*b),
        }
    }
}

impl View for Token {
    type V = TokenV;

    open spec fn view(&self) -> TokenV {
        TokenV { value: self.value@, location: self.location@, whitespace_before: self.whitespace_before }
    }
}

impl Clone for TokenValue {
    fn clone(&self) -> (r: Self)
        ensures
            r@ == self@,
    {
        match self {
            TokenValue::EOF => TokenValue::EOF,
            TokenValue::NewLine => TokenValue::NewLine,
            TokenValue::OpenParen => TokenValue::OpenParen,
            TokenValue::CloseParen => TokenValue::CloseParen,
            TokenValue::OpenBrace => TokenValue::OpenBrace,
            TokenValue::CloseBrace => TokenValue::CloseBrace,
            TokenValue::OpenBracket => TokenValue::OpenBracket,
            TokenValue::CloseBracket => TokenValue::CloseBracket,
            TokenValue::Comma => TokenValue::Comma,
            TokenValue::Dot => TokenValue::Dot,
            TokenValue::At => TokenValue::At,
            TokenValue::Colon => TokenValue::Colon,
            TokenValue::Val => TokenValue::Val,
            TokenValue::Recursive => TokenValue::Recursive,
            TokenValue::If => TokenValue::If,
            TokenValue::Else => TokenValue::Else,
            TokenValue::Then => TokenValue::Then,
            TokenValue::Equal => TokenValue::Equal,
            TokenValue::Plus => TokenValue::Plus,
            TokenValue::Minus => TokenValue::Minus,
            TokenValue::Asterisk => TokenValue::Asterisk,
            TokenValue::Slash => TokenValue::Slash,
            TokenValue::LessThan => TokenValue::LessThan,
            TokenValue::GreaterThan => TokenValue::GreaterThan,
            TokenValue::EqualEqual => TokenValue::EqualEqual,
            TokenValue::PlusEqual => TokenValue::PlusEqual,
            TokenValue::MinusEqual => TokenValue::MinusEqual,
            TokenValue::AsteriskEqual => TokenValue::AsteriskEqual,
            TokenValue::SlashEqual => TokenValue::SlashEqual,
            TokenValue::LessThanEqual => TokenValue::LessThanEqual,
            TokenValue::GreaterThanEqual => TokenValue::GreaterThanEqual,
            TokenValue::NotEqual => TokenValue::NotEqual,
            TokenValue::Not => TokenValue::Not,
            TokenValue::And => TokenValue::And,
            TokenValue::Or => TokenValue::Or,
            TokenValue::Name(s) => TokenValue::Name(s.clone()),
            TokenValue::IntLiteral(s) => TokenValue::IntLiteral(s.clone()),
            TokenValue::DecimalLiteral(s) => TokenValue::DecimalLiteral(s.clone()),
            TokenValue::StringLiteral(s) => TokenValue::StringLiteral(s.clone()),
            TokenValue::BoolLiteral(b) => TokenValue::BoolLiteral(*b),
        }
    }
}

impl Clone for Token {
    fn clone(&self) -> (r: Self)
        ensures
            r@ == self@,
    {
        Token { value: self.value.clone(), location: self.location.clone(), whitespace_before: self.whitespace_before }
    }
}

#[derive(Debug, Clone, Copy, PartialEq, Eq, Structural)]
pub enum LexerError {
    UnclosedStringLiteral(Position),
    UnexpectedToken(char, Position),
}

/// The character that stands for the end of the input.
pub const EOF: char = '\0';

// ---------------------------------------------------------------------------
// The lexer's reading of its input, as functions of the input.

/// The character at index `j` of the input, or the end marker past its end.
pub open spec fn char_at(input: Seq<char>, j: int) -> char {
    if 0 <= j < input.len() {
        input[j]
    } else {
        EOF
    }
}

/// The position that follows a character at position `p`.
pub open spec fn step(p: Position, ch: char) -> Position {
    if ch == '\n' {
        Position { line: (p.line + 1) as i32, column: 0 }
    } else {
        Position { line: p.line, column: (p.column + 1) as i32 }
    }
}

/// The position the lexer records when it reads the character at index
/// `j` from its input: the first character is at line 0, column 0, and
/// each later one is a step past the previous one by that later character.
pub open spec fn read_position(input: Seq<char>, j: int) -> Position
    decreases j,
{
    if j <= 0 {
        Position { line: 0, column: 0 }
    } else {
        step(read_position(input, j - 1), input[j])
    }
}

/// The position of the current character when the lexer stands at index
/// `k`. The position is not updated once the input is used up.
pub open spec fn cur_position(input: Seq<char>, k: int) -> Position {
    if input.len() >= 2 {
        read_position(input, if k < input.len() - 2 { k } else { input.len() - 2 })
    } else {
        Position { line: 0, column: -1i32 }
    }
}

/// The position of the character after the current one when the lexer
/// stands at index `k`.
pub open spec fn next_position_at(input: Seq<char>, k: int) -> Position {
    read_position(input, if k + 1 < input.len() - 1 { k + 1 } else { input.len() - 1 })
}

/// Where skipping whitespace and comments from index `k` stops. A comment
/// starts with `#` followed by whitespace and runs through the end of its
/// line; a line break outside a comment is not skipped.
pub open spec fn skip_end(input: Seq<char>, k: int, in_comment: bool) -> int
    decreases input.len() - k,
{
    let c = char_at(input, k);
    if c == EOF || k < 0 || k >= input.len() {
        k
    } else if in_comment {
        skip_end(input, k + 1, c != '\n')
    } else if c == '#' && spec_is_whitespace(char_at(input, k + 1)) {
        skip_end(input, k + 1, true)
    } else if !spec_is_whitespace(c) || c == '\n' {
        k
    } else {
        skip_end(input, k + 1, false)
    }
}

/// A comment runs to the end of its line: inside a comment, every character
/// before the next line break (or the end of the input) is skipped, spaces
/// and `#` and anything else alike, so no token is read from comment text.
pub proof fn lemma_comment_runs_to_line_end(input: Seq<char>, k: int, j: int)
    requires
        0 <= k <= j <= input.len(),
        forall|m: int| k <= m < j ==> #[trigger] input[m] != '\n' && input[m] != EOF,
    ensures
        skip_end(input, k, true) == skip_end(input, j, true),
    decreases j - k,
{
    if k < j {
        assert(char_at(input, k) == input[k]);
        lemma_comment_runs_to_line_end(input, k + 1, j);
    }
}

/// A `#` followed by whitespace starts a comment that is skipped through
/// the end of its line: skipping from the `#` gets past every character up
/// to the next line break.
pub proof fn lemma_comment_is_skipped(input: Seq<char>, k: int, j: int)
    requires
        0 <= k < j <= input.len(),
        input[k] == '#',
        spec_is_whitespace(char_at(input, k + 1)),
        forall|m: int| k < m < j ==> #[trigger] input[m] != '\n' && input[m] != EOF,
    ensures
        skip_end(input, k, false) == skip_end(input, j, true),
        skip_end(input, k, false) >= j,
{
    assert(char_at(input, k) == input[k]);
    lemma_comment_runs_to_line_end(input, k + 1, j);
    lemma_skip_end_bounds(input, j, true);
}

/// The character an escape sequence `\c` stands for.
pub open spec fn unescape(c: char) -> char {
    if c == 'r' {
        '\r'
    } else if c == 'n' {
        '\n'
    } else if c == 't' {
        '\t'
    } else if c == '0' {
        '\0'
    } else {
        c
    }
}

/// Scans the body of a string literal from index `j`, after `acc` has been
/// read: the index of the closing quote and the characters of the literal,
/// or, when the input ends first, the index of the end.
pub open spec fn string_scan(input: Seq<char>, j: int, escaped: bool, acc: Seq<char>) -> (bool, int, Seq<char>)
    decreases input.len() - j,
{
    let c = char_at(input, j);
    if !escaped && c == '"' {
        (true, j, acc)
    } else if c == EOF || j < 0 || j >= input.len() {
        (false, j, acc)
    } else if escaped {
        string_scan(input, j + 1, false, acc.push(unescape(c)))
    } else if c == '\\' {
        string_scan(input, j + 1, true, acc)
    } else {
        string_scan(input, j + 1, false, acc.push(c))
    }
}

/// Where a number starting at or before index `j` ends, and whether it has
/// a decimal point: digits, and at most one `.` that a digit follows.
pub open spec fn number_end(input: Seq<char>, j: int, decimal: bool) -> (int, bool)
    decreases input.len() - j,
{
    let c = char_at(input, j);
    if j < 0 || j >= input.len() {
        (j, decimal)
    } else if spec_is_digit(c) {
        number_end(input, j + 1, decimal)
    } else if c == '.' && !decimal && spec_is_digit(char_at(input, j + 1)) {
        number_end(input, j + 1, true)
    } else {
        (j, decimal)
    }
}

/// The first index at or after `j` whose character cannot continue a name.
pub open spec fn name_end(input: Seq<char>, j: int) -> int
    decreases input.len() - j,
{
    if 0 <= j < input.len() && spec_is_part_of_name(input[j]) {
        name_end(input, j + 1)
    } else {
        j
    }
}

/// Where a word starting at index `k` ends: the name, and a trailing `!` or
/// `?` if there is one.
pub open spec fn atom_end(input: Seq<char>, k: int) -> int {
    let e = name_end(input, k + 1);
    if char_at(input, e) == '!' || char_at(input, e) == '?' {
        e + 1
    } else {
        e
    }
}

/// The token a word stands for: a keyword, a boolean, or a name.
pub open spec fn word_token(text: Seq<char>) -> TokenValueV {
    if text == seq!['v', 'a', 'l'] {
        TokenValueV::Val
    } else if text == seq!['r', 'e', 'c'] {
        TokenValueV::Recursive
    } else if text == seq!['i', 'f'] {
        TokenValueV::If
    } else if text == seq!['e', 'l', 's', 'e'] {
        TokenValueV::Else
    } else if text == seq!['t', 'h', 'e', 'n'] {
        TokenValueV::Then
    } else if text == seq!['a', 'n', 'd'] {
        TokenValueV::And
    } else if text == seq!['o', 'r'] {
        TokenValueV::Or
    } else if text == seq!['t', 'r', 'u', 'e'] {
        TokenValueV::BoolLiteral(true)
    } else if text == seq!['f', 'a', 'l', 's', 'e'] {
        TokenValueV::BoolLiteral(false)
    } else {
        TokenValueV::Name(text)
    }
}

/// The tokens of one punctuation character.
pub open spec fn punctuation_token(c: char) -> Option<TokenValueV> {
    if c == '(' {
        Some(TokenValueV::OpenParen)
    } else if c == ')' {
        Some(TokenValueV::CloseParen)
    } else if c == '[' {
        Some(TokenValueV::OpenBracket)
    } else if c == ']' {
        Some(TokenValueV::CloseBracket)
    } else if c == '{' {
        Some(TokenValueV::OpenBrace)
    } else if c == '}' {
        Some(TokenValueV::CloseBrace)
    } else if c == ',' {
        Some(TokenValueV::Comma)
    } else if c == '.' {
        Some(TokenValueV::Dot)
    } else if c == '@' {
        Some(TokenValueV::At)
    } else if c == ':' {
        Some(TokenValueV::Colon)
    } else {
        None
    }
}

/// The operator a character forms followed by `=`.
pub open spec fn compound_operator_token(c: char) -> Option<TokenValueV> {
    if c == '=' {
        Some(TokenValueV::EqualEqual)
    } else if c == '+' {
        Some(TokenValueV::PlusEqual)
    } else if c == '-' {
        Some(TokenValueV::MinusEqual)
    } else if c == '*' {
        Some(TokenValueV::AsteriskEqual)
    } else if c == '/' {
        Some(TokenValueV::SlashEqual)
    } else if c == '<' {
        Some(TokenValueV::LessThanEqual)
    } else if c == '>' {
        Some(TokenValueV::GreaterThanEqual)
    } else if c == '!' {
        Some(TokenValueV::NotEqual)
    } else {
        None
    }
}

/// The operator a character forms alone.
pub open spec fn operator_token(c: char) -> Option<TokenValueV> {
    if c == '=' {
        Some(TokenValueV::Equal)
    } else if c == '+' {
        Some(TokenValueV::Plus)
    } else if c == '-' {
        Some(TokenValueV::Minus)
    } else if c == '*' {
        Some(TokenValueV::Asterisk)
    } else if c == '/' {
        Some(TokenValueV::Slash)
    } else if c == '<' {
        Some(TokenValueV::LessThan)
    } else if c == '>' {
        Some(TokenValueV::GreaterThan)
    } else if c == '!' {
        Some(TokenValueV::Not)
    } else {
        None
    }
}

/// The outcome of one call of `next`: the index the lexer stands at after
/// the call, whether the token read was a line break, and the token or
/// error, for a lexer standing at index `k` of `input` in file `file`.
pub open spec fn spec_next(input: Seq<char>, file: Seq<char>, k: int, had_newline: bool) -> (int, bool, Result<TokenV, LexerError>) {
    let s = skip_end(input, k, false);
    let ws = s > k || had_newline;
    let c = char_at(input, s);
    let d = char_at(input, s + 1);
    let tok = |value: TokenValueV, from: Position, to: Position|
        TokenV { value, location: LocationV { file, from, to }, whitespace_before: ws };
    let one = |value: TokenValueV|
        Ok(tok(value, cur_position(input, s + 1), next_position_at(input, s + 1)));
    if c == EOF {
        (s, false, Ok(tok(TokenValueV::EOF, cur_position(input, s), cur_position(input, s))))
    } else if c == '\n' || c == ';' {
        (s + 1, true, one(TokenValueV::NewLine))
    } else if punctuation_token(c) is Some {
        (s + 1, false, one(punctuation_token(c)->0))
    } else if d == '=' && compound_operator_token(c) is Some {
        (s + 2, false, Ok(tok(compound_operator_token(c)->0, cur_position(input, s), next_position_at(input, s + 2))))
    } else if operator_token(c) is Some {
        (s + 1, false, one(operator_token(c)->0))
    } else if c == '"' {
        let (closed, e, text) = string_scan(input, s + 1, false, Seq::empty());
        if closed {
            (e + 1, false, Ok(tok(TokenValueV::StringLiteral(text), cur_position(input, s), next_position_at(input, e + 1))))
        } else {
            (e, false, Err(LexerError::UnclosedStringLiteral(cur_position(input, s))))
        }
    } else if spec_is_digit(c) {
        let (e, decimal) = number_end(input, s, false);
        let text = input.subrange(s, e);
        (e, false, Ok(tok(
            if decimal { TokenValueV::DecimalLiteral(text) } else { TokenValueV::IntLiteral(text) },
            cur_position(input, s),
            next_position_at(input, e),
        )))
    } else if spec_is_start_of_name(c) {
        let e = atom_end(input, s);
        (e, false, Ok(tok(word_token(input.subrange(s, e)), cur_position(input, s), next_position_at(input, e))))
    } else {
        (s, false, Err(LexerError::UnexpectedToken(c, cur_position(input, s))))
    }
}

/// A result of `next` taken by its content.
pub open spec fn token_result_view(r: Result<Token, LexerError>) -> Result<TokenV, LexerError> {
    match r {
        Ok(t) => Ok(t@),
        Err(e) => Err(e),
    }
}

/// The line and column of a read position stay within the number of
/// characters read.
pub proof fn lemma_read_position_bounds(input: Seq<char>, j: int)
    requires
        j < i32::MAX,
    ensures
        j <= 0 ==> read_position(input, j) == (Position { line: 0, column: 0 }),
        0 <= read_position(input, j).line <= (if j < 0 { 0 } else { j }),
        0 <= read_position(input, j).column <= (if j < 0 { 0 } else { j }),
    decreases j,
{
    if j > 0 {
        lemma_read_position_bounds(input, j - 1);
    }
}

/// The lexer of one source file.
pub struct Lexer {
    chars: Vec<char>,
    read: usize,
    pub file: String,
    c: char,
    pub position: Position,
    next_c: char,
    next_position: Position,
    at_start: bool,
    had_newline: bool,
    cursor: Ghost<int>,
}

/// The exec form of `punctuation_token`.
fn punctuation_token_of(c: char) -> (r: Option<TokenValue>)
    ensures
        match r {
            Some(v) => punctuation_token(c) == Some(v@),
            None => punctuation_token(c) is None,
        },
{
    if c == '(' {
        Some(TokenValue::OpenParen)
    } else if c == ')' {
        Some(TokenValue::CloseParen)
    } else if c == '[' {
        Some(TokenValue::OpenBracket)
    } else if c == ']' {
        Some(TokenValue::CloseBracket)
    } else if c == '{' {
        Some(TokenValue::OpenBrace)
    } else if c == '}' {
        Some(TokenValue::CloseBrace)
    } else if c == ',' {
        Some(TokenValue::Comma)
    } else if c == '.' {
        Some(TokenValue::Dot)
    } else if c == '@' {
        Some(TokenValue::At)
    } else if c == ':' {
        Some(TokenValue::Colon)
    } else {
        None
    }
}

/// The exec form of `compound_operator_token`.
fn compound_operator_token_of(c: char) -> (r: Option<TokenValue>)
    ensures
        match r {
            Some(v) => compound_operator_token(c) == Some(v@),
            None => compound_operator_token(c) is None,
        },
{
    if c == '=' {
        Some(TokenValue::EqualEqual)
    } else if c == '+' {
        Some(TokenValue::PlusEqual)
    } else if c == '-' {
        Some(TokenValue::MinusEqual)
    } else if c == '*' {
        Some(TokenValue::AsteriskEqual)
    } else if c == '/' {
        Some(TokenValue::SlashEqual)
    } else if c == '<' {
        Some(TokenValue::LessThanEqual)
    } else if c == '>' {
        Some(TokenValue::GreaterThanEqual)
    } else if c == '!' {
        Some(TokenValue::NotEqual)
    } else {
        None
    }
}

/// The exec form of `operator_token`.
fn operator_token_of(c: char) -> (r: Option<TokenValue>)
    ensures
        match r {
            Some(v) => operator_token(c) == Some(v@),
            None => operator_token(c) is None,
        },
{
    if c == '=' {
        Some(TokenValue::Equal)
    } else if c == '+' {
        Some(TokenValue::Plus)
    } else if c == '-' {
        Some(TokenValue::Minus)
    } else if c == '*' {
        Some(TokenValue::Asterisk)
    } else if c == '/' {
        Some(TokenValue::Slash)
    } else if c == '<' {
        Some(TokenValue::LessThan)
    } else if c == '>' {
        Some(TokenValue::GreaterThan)
    } else if c == '!' {
        Some(TokenValue::Not)
    } else {
        None
    }
}

/// Whether `text` spells `word`.
fn is_word(text: &Vec<char>, word: &[char]) -> (r: bool)
    ensures
        r == (text@ == word@),
{
    if text.len() != word.len() {
        return false;
    }
    let mut i: usize = 0;
    while i < text.len()
        invariant
            text@.len() == word@.len(),
            i <= text@.len(),
            forall|j: int| 0 <= j < i ==> text@[j] == word@[j],
        decreases text@.len() - i,
    {
        if text[i] != word[i] {
            return false;
        }
        i += 1;
    }
    assert(text@ =~= word@);
    true
}

/// The exec form of `word_token`.
fn word_token_of(text: Vec<char>) -> (r: TokenValue)
    ensures
        r@ == word_token(text@),
{
    if is_word(&text, &['v', 'a', 'l']) {
        proof { assert(seq!['v', 'a', 'l'] =~= ['v', 'a', 'l']@); }
        TokenValue::Val
    } else if is_word(&text, &['r', 'e', 'c']) {
        proof { assert(seq!['r', 'e', 'c'] =~= ['r', 'e', 'c']@); }
        TokenValue::Recursive
    } else if is_word(&text, &['i', 'f']) {
        proof { assert(seq!['i', 'f'] =~= ['i', 'f']@); }
        TokenValue::If
    } else if is_word(&text, &['e', 'l', 's', 'e']) {
        proof { assert(seq!['e', 'l', 's', 'e'] =~= ['e', 'l', 's', 'e']@); }
        TokenValue::Else
    } else if is_word(&text, &['t', 'h', 'e', 'n']) {
        proof { assert(seq!['t', 'h', 'e', 'n'] =~= ['t', 'h', 'e', 'n']@); }
        TokenValue::Then
    } else if is_word(&text, &['a', 'n', 'd']) {
        proof { assert(seq!['a', 'n', 'd'] =~= ['a', 'n', 'd']@); }
        TokenValue::And
    } else if is_word(&text, &['o', 'r']) {
        proof { assert(seq!['o', 'r'] =~= ['o', 'r']@); }
        TokenValue::Or
    } else if is_word(&text, &['t', 'r', 'u', 'e']) {
        proof { assert(seq!['t', 'r', 'u', 'e'] =~= ['t', 'r', 'u', 'e']@); }
        TokenValue::BoolLiteral(true)
    } else if is_word(&text, &['f', 'a', 'l', 's', 'e']) {
        proof { assert(seq!['f', 'a', 'l', 's', 'e'] =~= ['f', 'a', 'l', 's', 'e']@); }
        TokenValue::BoolLiteral(false)
    } else {
        proof {
            assert(seq!['v', 'a', 'l'] =~= ['v', 'a', 'l']@);
            assert(seq!['r', 'e', 'c'] =~= ['r', 'e', 'c']@);
            assert(seq!['i', 'f'] =~= ['i', 'f']@);
            assert(seq!['e', 'l', 's', 'e'] =~= ['e', 'l', 's', 'e']@);
            assert(seq!['t', 'h', 'e', 'n'] =~= ['t', 'h', 'e', 'n']@);
            assert(seq!['a', 'n', 'd'] =~= ['a', 'n', 'd']@);
            assert(seq!['o', 'r'] =~= ['o', 'r']@);
            assert(seq!['t', 'r', 'u', 'e'] =~= ['t', 'r', 'u', 'e']@);
            assert(seq!['f', 'a', 'l', 's', 'e'] =~= ['f', 'a', 'l', 's', 'e']@);
        }
        TokenValue::Name(string_from_chars(&text))
    }
}

impl Lexer {
    /// The characters being read.
    pub closed spec fn input(&self) -> Seq<char> {
        self.chars@
    }

    /// The index of the current character; 0 before the first token.
    pub closed spec fn cursor(&self) -> int {
        if self.at_start {
            0
        } else {
            self.cursor@
        }
    }

    /// The name of the file being read.
    pub closed spec fn file_name(&self) -> Seq<char> {
        self.file@
    }

    /// The position of the current character.
    pub closed spec fn current_position(&self) -> Position {
        self.position
    }

    /// Whether the last token read was a line break.
    pub closed spec fn had_newline(&self) -> bool {
        self.had_newline
    }

    /// Whether a token has been read.
    pub closed spec fn started(&self) -> bool {
        !self.at_start
    }

    /// The fields agree with the index of the current character.
    pub closed spec fn wf(&self) -> bool {
        let n = self.chars@.len();
        let k = self.cursor@;
        &&& n < i32::MAX
        &&& if self.at_start {
            &&& self.read == 0
            &&& self.c == EOF
            &&& self.next_c == EOF
            &&& self.position == (Position { line: 0, column: -1i32 })
            &&& self.next_position == (Position { line: 0, column: 0 })
            &&& !self.had_newline
        } else {
            &&& 0 <= k <= n
            &&& self.c == char_at(self.chars@, k)
            &&& self.next_c == char_at(self.chars@, k + 1)
            &&& self.read == (if k + 2 < n { k + 2 } else { n as int })
            &&& self.position == cur_position(self.chars@, k)
            &&& self.next_position == next_position_at(self.chars@, k)
        }
    }

    /// The position of the current character of a well-formed lexer, which
    /// is where the last token read ends.
    pub proof fn lemma_position(&self)
        requires
            self.wf(),
        ensures
            self.current_position() == (if self.started() {
                cur_position(self.input(), self.cursor())
            } else {
                Position { line: 0, column: -1i32 }
            }),
            0 <= self.cursor() <= self.input().len(),
    {
    }

    /// The name of the file being read.
    pub fn file_text(&self) -> (r: String)
        ensures
            r@ == self.file_name(),
    {
        self.file.clone()
    }

    /// The position of the current character.
    pub fn position_now(&self) -> (r: Position)
        ensures
            r == self.current_position(),
    {
        self.position
    }

    /// A lexer for `chars`, the text of `file`.
    pub fn new(file: &str, chars: Vec<char>) -> (r: Self)
        requires
            chars@.len() < i32::MAX,
        ensures
            r.wf(),
            r.input() == chars@,
            r.file_name() == file@,
            !r.started(),
            r.cursor() == 0,
            !r.had_newline(),
    {
        Lexer {
            chars,
            read: 0,
            file: file.to_string(),
            c: EOF,
            position: Position { line: 0, column: -1 },
            next_c: EOF,
            next_position: Position { line: 0, column: 0 },
            at_start: true,
            had_newline: false,
            cursor: Ghost(0),
        }
    }

    /// Moves to the next character and returns the one left behind.
    fn advance(&mut self) -> (r: char)
        requires
            old(self).wf(),
            old(self).started(),
        ensures
            final(self).wf(),
            final(self).started(),
            final(self).input() == old(self).input(),
            final(self).file_name() == old(self).file_name(),
            final(self).had_newline() == old(self).had_newline(),
            final(self).cursor() == (if old(self).cursor() < old(self).input().len() { old(self).cursor() + 1 } else { old(self).cursor() }),
            r == char_at(old(self).input(), old(self).cursor()),
    {
        let ghost n = self.chars@.len();
        let ghost k = self.cursor@;
        let old_c = self.c;
        if self.read < self.chars.len() {
            let c = self.chars[self.read];
            self.read = self.read + 1;
            self.c = self.next_c;
            self.position = self.next_position;
            self.next_c = c;
            proof {
                lemma_read_position_bounds(self.chars@, k + 1);
            }
            if c == '\n' {
                self.next_position = Position { line: self.next_position.line + 1, column: 0 };
            } else {
                self.next_position = Position { line: self.next_position.line, column: self.next_position.column + 1 };
            }
            self.cursor = Ghost(k + 1);
            proof {
                assert(k + 2 < n);
                assert(self.next_position == read_position(self.chars@, k + 2));
            }
        } else {
            self.c = self.next_c;
            self.next_c = EOF;
            self.cursor = Ghost(if k < n { k + 1 } else { k });
        }
        old_c
    }

    /// Reads the first character of the input, before the first token.
    fn init_read(&mut self)
        requires
            old(self).wf(),
            !old(self).started(),
        ensures
            final(self).wf(),
            final(self).started(),
            final(self).input() == old(self).input(),
            final(self).file_name() == old(self).file_name(),
            final(self).cursor() == 0,
            !final(self).had_newline(),
    {
        self.at_start = false;
        if self.chars.len() > 0 {
            self.next_c = self.chars[0];
            self.read = 1;
        }
        self.cursor = Ghost(-1);
        proof {
            lemma_read_position_bounds(self.chars@, 0);
        }
        self.advance_from_start();
    }

    /// The first move, from before the input to its first character.
    fn advance_from_start(&mut self)
        requires
            !old(self).at_start,
            old(self).cursor@ == -1,
            old(self).chars@.len() < i32::MAX,
            old(self).c == EOF,
            old(self).next_c == char_at(old(self).chars@, 0),
            old(self).read == (if old(self).chars@.len() > 0 { 1usize } else { 0usize }),
            old(self).position == (Position { line: 0, column: -1i32 }),
            old(self).next_position == (Position { line: 0, column: 0 }),
            !old(self).had_newline,
        ensures
            final(self).wf(),
            final(self).started(),
            final(self).input() == old(self).input(),
            final(self).file_name() == old(self).file_name(),
            final(self).cursor() == 0,
            !final(self).had_newline(),
    {
        let ghost n = self.chars@.len();
        if self.read < self.chars.len() {
            let c = self.chars[self.read];
            self.read = self.read + 1;
            self.c = self.next_c;
            self.position = self.next_position;
            self.next_c = c;
            if c == '\n' {
                self.next_position = Position { line: self.next_position.line + 1, column: 0 };
            } else {
                self.next_position = Position { line: self.next_position.line, column: self.next_position.column + 1 };
            }
            proof {
                lemma_read_position_bounds(self.chars@, 0);
                lemma_read_position_bounds(self.chars@, 1);
            }
        } else {
            self.c = self.next_c;
            self.next_c = EOF;
            proof {
                lemma_read_position_bounds(self.chars@, 0);
                lemma_read_position_bounds(self.chars@, -1);
            }
        }
        self.cursor = Ghost(0);
    }

    /// A location from `from` to `to` in this lexer's file.
    fn location(&self, from: Position, to: Position) -> (r: Location)
        ensures
            r@ == (LocationV { file: self.file_name(), from, to }),
    {
        Location { file: self.file.clone(), from, to }
    }

    /// Skips whitespace and comments; whether anything was skipped.
    fn skip_whitespace_and_comments(&mut self) -> (r: bool)
        requires
            old(self).wf(),
            old(self).started(),
        ensures
            final(self).wf(),
            final(self).started(),
            final(self).input() == old(self).input(),
            final(self).file_name() == old(self).file_name(),
            final(self).had_newline() == old(self).had_newline(),
            final(self).cursor() == skip_end(old(self).input(), old(self).cursor(), false),
            r == (final(self).cursor() > old(self).cursor()),
    {
        let mut in_comment = false;
        let mut had_whitespace = false;
        let ghost k0 = self.cursor();
        loop
            invariant
                self.wf(),
                self.started(),
                self.input() == old(self).input(),
                self.file_name() == old(self).file_name(),
                self.had_newline() == old(self).had_newline(),
                k0 <= self.cursor() <= self.input().len(),
                k0 == old(self).cursor(),
                skip_end(self.input(), k0, false) == skip_end(self.input(), self.cursor(), in_comment),
                had_whitespace == (self.cursor() > k0),
            ensures
                skip_end(self.input(), self.cursor(), in_comment) == self.cursor(),
            decreases self.input().len() - self.cursor(),
        {
            if self.c == EOF {
                proof {
                    assert(skip_end(self.input(), self.cursor(), in_comment) == self.cursor());
                }
                break;
            } else if in_comment {
                if self.c == '\n' {
                    in_comment = false;
                }
            } else if self.c == '#' && is_whitespace(self.next_c) {
                in_comment = true;
            } else if !is_whitespace(self.c) || self.c == '\n' {
                proof {
                    assert(skip_end(self.input(), self.cursor(), in_comment) == self.cursor());
                }
                break;
            }
            self.advance();
            had_whitespace = true;
        }
        had_whitespace
    }

    /// A token of one character.
    fn one_char_token(&mut self, value: TokenValue, had_whitespace: bool) -> (r: Result<Token, LexerError>)
        requires
            old(self).wf(),
            old(self).started(),
            old(self).cursor() < old(self).input().len(),
        ensures
            final(self).wf(),
            final(self).started(),
            final(self).input() == old(self).input(),
            final(self).file_name() == old(self).file_name(),
            final(self).had_newline() == old(self).had_newline(),
            final(self).cursor() == old(self).cursor() + 1,
            token_result_view(r) == Ok::<TokenV, LexerError>(TokenV {
                value: value@,
                location: LocationV {
                    file: old(self).file_name(),
                    from: cur_position(old(self).input(), old(self).cursor() + 1),
                    to: next_position_at(old(self).input(), old(self).cursor() + 1),
                },
                whitespace_before: had_whitespace,
            }),
    {
        self.advance();
        let location = self.location(self.position, self.next_position);
        Ok(Token { value, location, whitespace_before: had_whitespace })
    }

    /// A token of two characters.
    fn two_char_token(&mut self, value: TokenValue, had_whitespace: bool) -> (r: Result<Token, LexerError>)
        requires
            old(self).wf(),
            old(self).started(),
            old(self).cursor() + 1 < old(self).input().len(),
        ensures
            final(self).wf(),
            final(self).started(),
            final(self).input() == old(self).input(),
            final(self).file_name() == old(self).file_name(),
            final(self).had_newline() == old(self).had_newline(),
            final(self).cursor() == old(self).cursor() + 2,
            token_result_view(r) == Ok::<TokenV, LexerError>(TokenV {
                value: value@,
                location: LocationV {
                    file: old(self).file_name(),
                    from: cur_position(old(self).input(), old(self).cursor()),
                    to: next_position_at(old(self).input(), old(self).cursor() + 2),
                },
                whitespace_before: had_whitespace,
            }),
    {
        let from = self.position;
        self.advance();
        self.advance();
        let location = self.location(from, self.next_position);
        Ok(Token { value, location, whitespace_before: had_whitespace })
    }

    /// A string literal starting at the current `"`.
    fn read_string(&mut self, had_whitespace: bool) -> (r: Result<Token, LexerError>)
        requires
            old(self).wf(),
            old(self).started(),
            char_at(old(self).input(), old(self).cursor()) == '"',
        ensures
            final(self).wf(),
            final(self).started(),
            final(self).input() == old(self).input(),
            final(self).file_name() == old(self).file_name(),
            final(self).had_newline() == old(self).had_newline(),
            ({
                let input = old(self).input();
                let s = old(self).cursor();
                let (closed, e, text) = string_scan(input, s + 1, false, Seq::empty());
                if closed {
                    &&& final(self).cursor() == e + 1
                    &&& token_result_view(r) == Ok::<TokenV, LexerError>(TokenV {
                        value: TokenValueV::StringLiteral(text),
                        location: LocationV { file: old(self).file_name(), from: cur_position(input, s), to: next_position_at(input, e + 1) },
                        whitespace_before: had_whitespace,
                    })
                } else {
                    &&& final(self).cursor() == e
                    &&& token_result_view(r) == Err::<TokenV, LexerError>(LexerError::UnclosedStringLiteral(cur_position(input, s)))
                }
            }),
    {
        let mut string: Vec<char> = Vec::new();
        let from = self.position;
        let ghost input = self.input();
        let ghost s = self.cursor();
        self.advance();
        let mut in_escape_sequence = false;
        while in_escape_sequence || self.c != '"'
            invariant
                self.wf(),
                self.started(),
                self.input() == input,
                input == old(self).input(),
                s == old(self).cursor(),
                0 <= s,
                from == cur_position(input, s),
                self.file_name() == old(self).file_name(),
                self.had_newline() == old(self).had_newline(),
                self.cursor() <= input.len(),
                string_scan(input, s + 1, false, Seq::empty()) == string_scan(input, self.cursor(), in_escape_sequence, string@),
            decreases input.len() - self.cursor(),
        {
            if self.c == EOF {
                return Err(LexerError::UnclosedStringLiteral(from));
            } else if in_escape_sequence {
                let c = self.c;
                let u = if c == 'r' {
                    '\r'
                } else if c == 'n' {
                    '\n'
                } else if c == 't' {
                    '\t'
                } else if c == '0' {
                    '\0'
                } else {
                    c
                };
                string.push(u);
                in_escape_sequence = false;
            } else if self.c == '\\' {
                in_escape_sequence = true;
            } else {
                string.push(self.c);
            }
            self.advance();
        }
        self.advance();
        let location = self.location(from, self.next_position);
        Ok(Token { value: TokenValue::StringLiteral(string_from_chars(&string)), location, whitespace_before: had_whitespace })
    }

    /// A number starting at the current digit.
    fn read_number(&mut self, had_whitespace: bool) -> (r: Result<Token, LexerError>)
        requires
            old(self).wf(),
            old(self).started(),
            spec_is_digit(char_at(old(self).input(), old(self).cursor())),
        ensures
            final(self).wf(),
            final(self).started(),
            final(self).input() == old(self).input(),
            final(self).file_name() == old(self).file_name(),
            final(self).had_newline() == old(self).had_newline(),
            ({
                let input = old(self).input();
                let s = old(self).cursor();
                let (e, decimal) = number_end(input, s, false);
                let text = input.subrange(s, e);
                &&& final(self).cursor() == e
                &&& token_result_view(r) == Ok::<TokenV, LexerError>(TokenV {
                    value: if decimal { TokenValueV::DecimalLiteral(text) } else { TokenValueV::IntLiteral(text) },
                    location: LocationV { file: old(self).file_name(), from: cur_position(input, s), to: next_position_at(input, e) },
                    whitespace_before: had_whitespace,
                })
            }),
    {
        let from = self.position;
        let ghost input = self.input();
        let ghost s = self.cursor();
        let mut string: Vec<char> = Vec::new();
        let mut is_decimal = false;
        while is_digit(self.c) || self.c == '.'
            invariant
                self.wf(),
                self.started(),
                self.input() == input,
                input == old(self).input(),
                s == old(self).cursor(),
                0 <= s,
                from == cur_position(input, s),
                self.file_name() == old(self).file_name(),
                self.had_newline() == old(self).had_newline(),
                s <= self.cursor() <= input.len(),
                number_end(input, s, false) == number_end(input, self.cursor(), is_decimal),
                string@ == input.subrange(s, self.cursor()),
            ensures
                number_end(input, self.cursor(), is_decimal) == (self.cursor(), is_decimal),
            decreases input.len() - self.cursor(),
        {
            if self.c == '.' {
                if is_decimal || !is_digit(self.next_c) {
                    break;
                }
                is_decimal = true;
            }
            let ghost k = self.cursor();
            assert(k < input.len());
            assert(self.c == input[k]);
            string.push(self.c);
            self.advance();
            proof {
                assert(self.cursor() == k + 1);
                assert(input.subrange(s, k + 1) =~= input.subrange(s, k).push(input[k]));
            }
        }
        let location = self.location(from, self.next_position);
        let value = if is_decimal {
            TokenValue::DecimalLiteral(string_from_chars(&string))
        } else {
            TokenValue::IntLiteral(string_from_chars(&string))
        };
        Ok(Token { value, location, whitespace_before: had_whitespace })
    }

    /// A keyword, boolean or name starting at the current character.
    fn read_atom(&mut self, had_whitespace: bool) -> (r: Result<Token, LexerError>)
        requires
            old(self).wf(),
            old(self).started(),
            old(self).cursor() < old(self).input().len(),
            char_at(old(self).input(), old(self).cursor()) != EOF,
        ensures
            final(self).wf(),
            final(self).started(),
            final(self).input() == old(self).input(),
            final(self).file_name() == old(self).file_name(),
            final(self).had_newline() == old(self).had_newline(),
            ({
                let input = old(self).input();
                let s = old(self).cursor();
                let e = atom_end(input, s);
                &&& final(self).cursor() == e
                &&& token_result_view(r) == Ok::<TokenV, LexerError>(TokenV {
                    value: word_token(input.subrange(s, e)),
                    location: LocationV { file: old(self).file_name(), from: cur_position(input, s), to: next_position_at(input, e) },
                    whitespace_before: had_whitespace,
                })
            }),
    {
        let from = self.position;
        let ghost input = self.input();
        let ghost s = self.cursor();
        let mut string: Vec<char> = Vec::new();
        loop
            invariant_except_break
                self.cursor() > s ==> name_end(input, s + 1) == name_end(input, self.cursor()) && spec_is_part_of_name(char_at(input, self.cursor())),
                char_at(input, self.cursor()) != EOF,
            invariant
                self.wf(),
                self.started(),
                self.input() == input,
                input == old(self).input(),
                s == old(self).cursor(),
                0 <= s,
                s < input.len(),
                from == cur_position(input, s),
                self.file_name() == old(self).file_name(),
                self.had_newline() == old(self).had_newline(),
                s <= self.cursor() <= input.len(),
                string@ == input.subrange(s, self.cursor()),
            ensures
                self.cursor() == name_end(input, s + 1),
            decreases input.len() - self.cursor(),
        {
            let ghost k = self.cursor();
            assert(k < input.len());
            assert(self.c == input[k]);
            string.push(self.c);
            self.advance();
            proof {
                assert(self.cursor() == k + 1);
                assert(input.subrange(s, k + 1) =~= input.subrange(s, k).push(input[k]));
                if k > s {
                    assert(name_end(input, k) == name_end(input, k + 1));
                }
            }
            if !is_part_of_name(self.c) {
                proof {
                    assert(name_end(input, k + 1) == k + 1);
                }
                break;
            }
        }
        if self.c == '!' || self.c == '?' {
            let ghost k = self.cursor();
            assert(k < input.len());
            string.push(self.c);
            self.advance();
            proof {
                assert(input.subrange(s, k + 1) =~= input.subrange(s, k).push(input[k]));
            }
        }
        let value = word_token_of(string);
        let location = self.location(from, self.next_position);
        Ok(Token { value, location, whitespace_before: had_whitespace })
    }

    /// Reads the next token. At the end of the input it returns `EOF`, again
    /// on every later call.
    pub fn next(&mut self) -> (r: Result<Token, LexerError>)
        requires
            old(self).wf(),
        ensures
            final(self).wf(),
            final(self).started(),
            final(self).input() == old(self).input(),
            final(self).file_name() == old(self).file_name(),
            ({
                let (k, nl, res) = spec_next(old(self).input(), old(self).file_name(), old(self).cursor(), old(self).had_newline());
                &&& final(self).cursor() == k
                &&& final(self).had_newline() == nl
                &&& token_result_view(r) == res
            }),
    {
        if self.at_start {
            self.init_read();
        }
        let ghost input = self.input();
        let ghost k = self.cursor();
        let skipped = self.skip_whitespace_and_comments();
        let had_whitespace = skipped || self.had_newline;
        self.had_newline = false;
        let ghost s = self.cursor();
        let c = self.c;
        let d = self.next_c;
        if c == EOF {
            let location = self.location(self.position, self.position);
            return Ok(Token { value: TokenValue::EOF, location, whitespace_before: had_whitespace });
        }
        if c == '\n' || c == ';' {
            self.had_newline = true;
            return self.one_char_token(TokenValue::NewLine, had_whitespace);
        }
        match punctuation_token_of(c) {
            Some(value) => return self.one_char_token(value, had_whitespace),
            None => {},
        }
        if d == '=' {
            match compound_operator_token_of(c) {
                Some(value) => return self.two_char_token(value, had_whitespace),
                None => {},
            }
        }
        match operator_token_of(c) {
            Some(value) => return self.one_char_token(value, had_whitespace),
            None => {},
        }
        if c == '"' {
            return self.read_string(had_whitespace);
        }
        if is_digit(c) {
            return self.read_number(had_whitespace);
        }
        if is_start_of_name(c) {
            return self.read_atom(had_whitespace);
        }
        Err(LexerError::UnexpectedToken(c, self.position))
    }
}

} // verus!
verus! {

proof fn lemma_skip_end_bounds(input: Seq<char>, k: int, in_comment: bool)
    requires
        0 <= k,
    ensures
        k <= skip_end(input, k, in_comment),
        k <= input.len() ==> skip_end(input, k, in_comment) <= input.len(),
    decreases input.len() - k,
{
    let c = char_at(input, k);
    if c == EOF || k >= input.len() {
    } else if in_comment {
        lemma_skip_end_bounds(input, k + 1, c != '\n');
    } else if c == '#' && spec_is_whitespace(char_at(input, k + 1)) {
        lemma_skip_end_bounds(input, k + 1, true);
    } else if !spec_is_whitespace(c) || c == '\n' {
    } else {
        lemma_skip_end_bounds(input, k + 1, false);
    }
}

proof fn lemma_string_scan_bounds(input: Seq<char>, j: int, escaped: bool, acc: Seq<char>)
    requires
        0 <= j,
    ensures
        j <= string_scan(input, j, escaped, acc).1,
    decreases input.len() - j,
{
    let c = char_at(input, j);
    if !escaped && c == '"' {
    } else if c == EOF || j >= input.len() {
    } else if escaped {
        lemma_string_scan_bounds(input, j + 1, false, acc.push(unescape(c)));
    } else if c == '\\' {
        lemma_string_scan_bounds(input, j + 1, true, acc);
    } else {
        lemma_string_scan_bounds(input, j + 1, false, acc.push(c));
    }
}

proof fn lemma_number_end_bounds(input: Seq<char>, j: int, decimal: bool)
    requires
        0 <= j,
    ensures
        j <= number_end(input, j, decimal).0,
        spec_is_digit(char_at(input, j)) ==> j < number_end(input, j, decimal).0,
    decreases input.len() - j,
{
    let c = char_at(input, j);
    if j >= input.len() {
    } else if spec_is_digit(c) {
        lemma_number_end_bounds(input, j + 1, decimal);
    } else if c == '.' && !decimal && spec_is_digit(char_at(input, j + 1)) {
        lemma_number_end_bounds(input, j + 1, true);
    }
}

proof fn lemma_name_end_bounds(input: Seq<char>, j: int)
    ensures
        j <= name_end(input, j),
    decreases input.len() - j,
{
    if 0 <= j < input.len() && spec_is_part_of_name(input[j]) {
        lemma_name_end_bounds(input, j + 1);
    }
}

/// The lexer makes progress: a token other than `EOF` moves it forward,
/// and nothing moves it backward.
pub proof fn lemma_next_progress(input: Seq<char>, file: Seq<char>, k: int, had_newline: bool)
    requires
        0 <= k,
    ensures
        ({
            let (k2, nl, res) = spec_next(input, file, k, had_newline);
            &&& k <= k2
            &&& k <= input.len() ==> k2 <= input.len()
            &&& (res matches Ok(t) && !(t.value is EOF)) ==> k < k2
        }),
{
    lemma_skip_end_bounds(input, k, false);
    let s = skip_end(input, k, false);
    lemma_string_scan_bounds(input, s + 1, false, Seq::empty());
    lemma_number_end_bounds(input, s, false);
    lemma_name_end_bounds(input, s + 1);
    lemma_upper_bounds(input, s);
}

proof fn lemma_upper_bounds(input: Seq<char>, s: int)
    requires
        0 <= s,
    ensures
        s < input.len() ==> string_scan(input, s + 1, false, Seq::empty()).1 <= input.len(),
        s < input.len() && string_scan(input, s + 1, false, Seq::empty()).0
            ==> string_scan(input, s + 1, false, Seq::empty()).1 < input.len(),
        s <= input.len() ==> number_end(input, s, false).0 <= input.len(),
        s < input.len() ==> name_end(input, s + 1) <= input.len(),
        s < input.len() ==> atom_end(input, s) <= input.len(),
{
    if s <= input.len() {
        lemma_number_end_upper(input, s, false);
    }
    if s < input.len() {
        lemma_string_scan_upper(input, s + 1, false, Seq::empty());
        lemma_name_end_upper(input, s + 1);
        let e = name_end(input, s + 1);
        if e == input.len() {
            assert(char_at(input, e) == EOF);
        }
    }
}

proof fn lemma_string_scan_upper(input: Seq<char>, j: int, escaped: bool, acc: Seq<char>)
    requires
        0 <= j <= input.len(),
    ensures
        string_scan(input, j, escaped, acc).1 <= input.len(),
        string_scan(input, j, escaped, acc).0 ==> string_scan(input, j, escaped, acc).1 < input.len(),
    decreases input.len() - j,
{
    let c = char_at(input, j);
    if !escaped && c == '"' {
    } else if c == EOF || j >= input.len() {
    } else if escaped {
        lemma_string_scan_upper(input, j + 1, false, acc.push(unescape(c)));
    } else if c == '\\' {
        lemma_string_scan_upper(input, j + 1, true, acc);
    } else {
        lemma_string_scan_upper(input, j + 1, false, acc.push(c));
    }
}

proof fn lemma_number_end_upper(input: Seq<char>, j: int, decimal: bool)
    requires
        0 <= j <= input.len(),
    ensures
        number_end(input, j, decimal).0 <= input.len(),
    decreases input.len() - j,
{
    let c = char_at(input, j);
    if j >= input.len() {
    } else if spec_is_digit(c) {
        lemma_number_end_upper(input, j + 1, decimal);
    } else if c == '.' && !decimal && spec_is_digit(char_at(input, j + 1)) {
        lemma_number_end_upper(input, j + 1, true);
    }
}

proof fn lemma_name_end_upper(input: Seq<char>, j: int)
    requires
        0 <= j <= input.len(),
    ensures
        name_end(input, j) <= input.len(),
    decreases input.len() - j,
{
    if 0 <= j < input.len() && spec_is_part_of_name(input[j]) {
        lemma_name_end_upper(input, j + 1);
    }
}

/// Once the lexer has reached the end of its input it stays there: the call
/// after an `EOF` token gives `EOF` again at the same place, with no
/// whitespace before it, and does not move.
pub proof fn lemma_eof_is_sticky(input: Seq<char>, file: Seq<char>, k: int, had_newline: bool)
    requires
        0 <= k,
        spec_next(input, file, k, had_newline).2 matches Ok(t) && t.value is EOF,
    ensures
        ({
            let (k2, nl, res) = spec_next(input, file, k, had_newline);
            let (k3, nl3, res3) = spec_next(input, file, k2, nl);
            &&& k3 == k2
            &&& !nl3
            &&& res3 matches Ok(t3) && t3.value is EOF && !t3.whitespace_before
                && t3.location == res->Ok_0.location
        }),
{
}

} // verus!
