use std::collections::VecDeque;
use vstd::prelude::*;
use crate::ast::location::Position;
use crate::ast::lexer::{Lexer, LexerError, Token, TokenV, spec_next, token_result_view};

verus! {

/// A lexer with a buffer of tokens read ahead.
pub struct LookaheadTokenIterator {
    pub lexer: Lexer,
    buffer: VecDeque<Token>,
}

/// A cursor that reads tokens ahead of a [`LookaheadTokenIterator`]
/// without consuming them.
pub struct LookaheadIteratorIterator<'a> {
    lookahead: &'a mut LookaheadTokenIterator,
    i: usize,
}

/// The result of one step of a lexer standing at `lexer`, seen from the
/// outside: whether it changed, and how.
pub open spec fn lexer_stepped(before: Lexer, after: Lexer, r: Result<TokenV, LexerError>) -> bool {
    let (k, nl, res) = spec_next(before.input(), before.file_name(), before.cursor(), before.had_newline());
    &&& after.wf()
    &&& after.started()
    &&& after.input() == before.input()
    &&& after.file_name() == before.file_name()
    &&& after.cursor() == k
    &&& after.had_newline() == nl
    &&& r == res
}

/// The first `n` tokens that a lexer reading `input` from `cursor`
/// hands out, or `None` when it fails before.
pub open spec fn lexer_tokens(input: Seq<char>, file: Seq<char>, cursor: int, nl: bool, n: nat) -> Option<Seq<TokenV>>
    decreases n,
{
    if n == 0 {
        Some(Seq::empty())
    } else {
        let (k, nl2, res) = spec_next(input, file, cursor, nl);
        match res {
            Ok(t) => match lexer_tokens(input, file, k, nl2, (n - 1) as nat) {
                Some(rest) => Some(seq![t] + rest),
                None => None,
            },
            Err(_) => None,
        }
    }
}

/// `s` with `t` in front, when there is an `s`.
pub open spec fn prepend(t: TokenV, s: Option<Seq<TokenV>>) -> Option<Seq<TokenV>> {
    match s {
        Some(s) => Some(seq![t] + s),
        None => None,
    }
}

impl LookaheadTokenIterator {
    /// The first `n` tokens this reader will hand out: those read ahead,
    /// then those its lexer reads; `None` when the lexer fails before.
    pub open spec fn upcoming(&self, n: nat) -> Option<Seq<TokenV>> {
        let b = self.buffer();
        if n <= b.len() {
            Some(b.take(n as int))
        } else {
            let lx = self.lexer_state();
            match lexer_tokens(lx.input(), lx.file_name(), lx.cursor(), lx.had_newline(), (n - b.len()) as nat) {
                Some(rest) => Some(b + rest),
                None => None,
            }
        }
    }

    /// The lexer tokens are read from.
    pub closed spec fn lexer_state(&self) -> Lexer {
        self.lexer
    }

    /// The tokens read ahead, in order.
    pub closed spec fn buffer(&self) -> Seq<TokenV> {
        self.buffer@.map_values(|t: Token| t@)
    }

    /// The name of the file the lexer reads.
    pub fn lexer_file(&self) -> (r: String)
        ensures
            r@ == self.lexer_state().file_name(),
    {
        self.lexer.file_text()
    }

    /// The position of the lexer's current character.
    pub fn lexer_position(&self) -> (r: Position)
        ensures
            r == self.lexer_state().current_position(),
    {
        self.lexer.position_now()
    }

    /// A reader over `lexer` with nothing read ahead.
    pub fn new(lexer: Lexer) -> (r: Self)
        ensures
            r.lexer_state() == lexer,
            r.buffer() == Seq::<TokenV>::empty(),
    {
        let r = Self { lexer, buffer: VecDeque::new() };
        proof {
            assert(r.buffer() =~= Seq::<TokenV>::empty());
        }
        r
    }

    /// The next token: the first one read ahead, else the lexer's next.
    /// The token handed out is the first upcoming one, and the ones after it
    /// stay upcoming in order.
    pub fn next(&mut self) -> (r: Result<Token, LexerError>)
        requires
            old(self).lexer_state().wf(),
        ensures
            final(self).lexer_state().wf(),
            if old(self).buffer().len() > 0 {
                &&& r matches Ok(t) && t@ == old(self).buffer()[0]
                &&& final(self).buffer() == old(self).buffer().drop_first()
                &&& final(self).lexer_state() == old(self).lexer_state()
            } else {
                &&& final(self).buffer() == old(self).buffer()
                &&& lexer_stepped(old(self).lexer_state(), final(self).lexer_state(), token_result_view(r))
            },
            r matches Ok(t) ==> forall|n: nat| #[trigger] old(self).upcoming(n + 1) == prepend(t@, final(self).upcoming(n)),
            r matches Ok(t) ==> reader_step(*old(self), *final(self), Some(t@)),
    {
        match self.buffer.pop_front() {
            Some(token) => {
                proof {
                    assert(self.buffer() =~= old(self).buffer().drop_first());
                    lemma_take_from_buffer(*old(self), *self);
                }
                Ok(token)
            },
            None => {
                let r = self.lexer.next();
                proof {
                    if r is Ok {
                        lemma_take_from_lexer(*old(self), *self, r->Ok_0@);
                    }
                }
                r
            },
        }
    }

    /// The token `i` places after the first unconsumed one, read from the
    /// lexer into the buffer when the buffer holds no such token yet.
    pub fn read_ahead(&mut self, i: usize) -> (r: Result<Token, LexerError>)
        requires
            old(self).lexer_state().wf(),
            i <= old(self).buffer().len(),
        ensures
            final(self).lexer_state().wf(),
            final(self).buffer().len() <= usize::MAX,
            if i < old(self).buffer().len() {
                &&& r matches Ok(t) && t@ == old(self).buffer()[i as int]
                &&& *final(self) == *old(self)
            } else {
                let lx = old(self).lexer_state();
                let (k, nl, res) = spec_next(lx.input(), lx.file_name(), lx.cursor(), lx.had_newline());
                &&& final(self).lexer_state().started()
                &&& final(self).lexer_state().input() == lx.input()
                &&& final(self).lexer_state().file_name() == lx.file_name()
                &&& final(self).lexer_state().cursor() == k
                &&& final(self).lexer_state().had_newline() == nl
                &&& match res {
                    Ok(t) => {
                        &&& r matches Ok(rt) && rt@ == t
                        &&& final(self).buffer() == old(self).buffer().push(t)
                    },
                    Err(e) => {
                        &&& r == Err::<Token, LexerError>(e)
                        &&& final(self).buffer() == old(self).buffer()
                    },
                }
            },
            r is Ok ==> forall|n: nat| #[trigger] final(self).upcoming(n) == old(self).upcoming(n),
            r is Ok ==> reader_step(*old(self), *final(self), None),
    {
        if i < self.buffer.len() {
            return Ok(self.buffer[i].clone());
        }
        let _ = self.buffer.len();
        let token = match self.lexer.next() {
            Ok(token) => token,
            Err(e) => return Err(e),
        };
        let copy = token.clone();
        self.buffer.push_back(token);
        let _ = self.buffer.len();
        proof {
            assert(self.buffer() =~= old(self).buffer().push(copy@));
            lemma_read_into_buffer(*old(self), *self, copy@);
        }
        Ok(copy)
    }

    /// A cursor for reading ahead from the first unconsumed token.
    pub fn look_ahead(&mut self) -> (r: LookaheadIteratorIterator<'_>)
        ensures
            r.position() == 0,
            *r.target() == *old(self),
            *final(self) == *final(r.target()),
    {
        LookaheadIteratorIterator { lookahead: self, i: 0 }
    }

    /// The next token without consuming it; it is read from the lexer when
    /// nothing was read ahead.
    pub fn peek(&mut self) -> (r: Result<&Token, LexerError>)
        requires
            old(self).lexer_state().wf(),
        ensures
            final(self).lexer_state().wf(),
            if old(self).buffer().len() > 0 {
                &&& r matches Ok(t) && t@ == old(self).buffer()[0]
                &&& final(self).buffer() == old(self).buffer()
                &&& final(self).lexer_state() == old(self).lexer_state()
            } else {
                let (k, nl, res) = spec_next(old(self).lexer_state().input(), old(self).lexer_state().file_name(), old(self).lexer_state().cursor(), old(self).lexer_state().had_newline());
                &&& final(self).lexer_state().input() == old(self).lexer_state().input()
                &&& final(self).lexer_state().cursor() == k
                &&& final(self).lexer_state().had_newline() == nl
                &&& match res {
                    Ok(t) => r matches Ok(rt) && rt@ == t && final(self).buffer() == seq![t],
                    Err(e) => r == Err::<&Token, LexerError>(e) && final(self).buffer() == old(self).buffer(),
                }
            },
            r matches Ok(t) ==> final(self).buffer().len() > 0 && final(self).buffer()[0] == t@,
            r matches Ok(t) ==> old(self).upcoming(1) == Some(seq![t@]),
            r is Ok ==> forall|n: nat| #[trigger] final(self).upcoming(n) == old(self).upcoming(n),
            r is Ok ==> reader_step(*old(self), *final(self), None),
    {
        if self.buffer.len() == 0 {
            let token = match self.lexer.next() {
                Ok(token) => token,
                Err(e) => return Err(e),
            };
            self.buffer.push_back(token);
            proof {
                assert(self.buffer() =~= seq![token@]);
                assert(old(self).buffer() =~= Seq::<TokenV>::empty());
                assert(old(self).buffer().push(token@) =~= self.buffer());
                lemma_read_into_buffer(*old(self), *self, token@);
                assert(self.upcoming(1) == old(self).upcoming(1));
                assert(self.buffer().take(1) =~= seq![token@]);
            }
        }
        proof {
            assert(self.buffer().take(1) =~= seq![self.buffer()[0]]);
        }
        Ok(&self.buffer[0])
    }
}

/// One step of a reader from `a` to `b`: a peek or a look-ahead keeps
/// every upcoming token (`out` is `None`); a read hands out the first one,
/// `t`, and keeps the rest (`out` is `Some(t)`).
pub open spec fn reader_step(a: LookaheadTokenIterator, b: LookaheadTokenIterator, out: Option<TokenV>) -> bool {
    match out {
        None => forall|n: nat| #[trigger] b.upcoming(n) == a.upcoming(n),
        Some(t) => forall|n: nat| #[trigger] a.upcoming(n + 1) == prepend(t, b.upcoming(n)),
    }
}

/// The tokens handed out over a run of steps, in order.
pub open spec fn handed_out(outs: Seq<Option<TokenV>>) -> Seq<TokenV>
    decreases outs.len(),
{
    if outs.len() == 0 {
        Seq::empty()
    } else {
        let h = handed_out(outs.drop_last());
        match outs.last() {
            Some(t) => h.push(t),
            None => h,
        }
    }
}

/// `h` followed by `s`, when there is an `s`.
pub open spec fn after(h: Seq<TokenV>, s: Option<Seq<TokenV>>) -> Option<Seq<TokenV>> {
    match s {
        Some(s) => Some(h + s),
        None => None,
    }
}

proof fn lemma_run_prefix(states: Seq<LookaheadTokenIterator>, outs: Seq<Option<TokenV>>, i: int)
    requires
        states.len() == outs.len() + 1,
        0 <= i <= outs.len(),
        forall|j: int| 0 <= j < outs.len() ==> reader_step(#[trigger] states[j], states[j + 1], outs[j]),
    ensures
        forall|n: nat| #[trigger] states[0].upcoming(handed_out(outs.take(i)).len() + n)
            == after(handed_out(outs.take(i)), states[i].upcoming(n)),
    decreases i,
{
    if i == 0 {
        assert(outs.take(0) =~= Seq::<Option<TokenV>>::empty());
        assert forall|n: nat| #[trigger] states[0].upcoming(handed_out(outs.take(i)).len() + n)
            == after(handed_out(outs.take(i)), states[i].upcoming(n)) by {
            match states[0].upcoming(n) {
                Some(u) => assert(Seq::<TokenV>::empty() + u =~= u),
                None => {},
            }
        }
    } else {
        lemma_run_prefix(states, outs, i - 1);
        assert(outs.take(i).drop_last() =~= outs.take(i - 1));
        let h = handed_out(outs.take(i - 1));
        let a = states[i - 1];
        let b = states[i];
        assert(reader_step(a, b, outs[i - 1]));
        assert(outs.take(i).last() == outs[i - 1]);
        match outs[i - 1] {
            None => {
                assert forall|n: nat| #[trigger] states[0].upcoming(handed_out(outs.take(i)).len() + n)
                    == after(handed_out(outs.take(i)), states[i].upcoming(n)) by {
                    assert(states[0].upcoming(h.len() + n) == after(h, a.upcoming(n)));
                    assert(b.upcoming(n) == a.upcoming(n));
                }
            },
            Some(t) => {
                assert forall|n: nat| #[trigger] states[0].upcoming(handed_out(outs.take(i)).len() + n)
                    == after(handed_out(outs.take(i)), states[i].upcoming(n)) by {
                    assert(states[0].upcoming(h.len() + (n + 1)) == after(h, a.upcoming(n + 1)));
                    assert(a.upcoming(n + 1) == prepend(t, b.upcoming(n)));
                    assert(h.len() + (n + 1) == h.push(t).len() + n);
                    match b.upcoming(n) {
                        Some(u) => assert(h + (seq![t] + u) =~= h.push(t) + u),
                        None => {},
                    }
                }
            },
        }
    }
}

/// Across any run of peeks, look-aheads and reads on a reader that started
/// with nothing read ahead, the tokens the reads hand out are, in order,
/// the first tokens its lexer reads: none is dropped, repeated or moved.
/// `peek`, `read_ahead` and the look-ahead cursor's `next` each make a step
/// that hands out nothing, and `next` one that hands out its token.
pub proof fn lemma_reads_follow_the_lexer(states: Seq<LookaheadTokenIterator>, outs: Seq<Option<TokenV>>)
    requires
        states.len() == outs.len() + 1,
        states[0].buffer().len() == 0,
        forall|j: int| 0 <= j < outs.len() ==> reader_step(#[trigger] states[j], states[j + 1], outs[j]),
    ensures
        ({
            let lx = states[0].lexer_state();
            lexer_tokens(lx.input(), lx.file_name(), lx.cursor(), lx.had_newline(), handed_out(outs).len())
                == Some(handed_out(outs))
        }),
{
    lemma_run_prefix(states, outs, outs.len() as int);
    assert(outs.take(outs.len() as int) =~= outs);
    let h = handed_out(outs);
    let last = states[outs.len() as int];
    assert(states[0].upcoming(h.len() + 0) == after(h, last.upcoming(0)));
    assert(last.buffer().take(0) =~= Seq::<TokenV>::empty());
    assert(h + Seq::<TokenV>::empty() =~= h);
    lemma_fresh_reader_hands_out_lexer_tokens(states[0], h.len());
}

/// One step of a look-ahead cursor at position `pos`, from reader `a` to
/// reader `b`, that gave the token `t`: the buffer keeps what it held and
/// holds at least `pos + 1` tokens, `t` is the one at `pos`, and no
/// upcoming token changed.
pub open spec fn cursor_step(a: LookaheadTokenIterator, b: LookaheadTokenIterator, pos: nat, t: TokenV) -> bool {
    &&& b.buffer().len() == if pos < a.buffer().len() { a.buffer().len() } else { pos + 1 }
    &&& b.buffer().take(a.buffer().len() as int) == a.buffer()
    &&& b.buffer()[pos as int] == t
    &&& forall|n: nat| #[trigger] b.upcoming(n) == a.upcoming(n)
}

proof fn lemma_cursor_run_prefix(states: Seq<LookaheadTokenIterator>, toks: Seq<TokenV>, i: int)
    requires
        states.len() == toks.len() + 1,
        0 <= i <= toks.len(),
        forall|j: int| 0 <= j < toks.len() ==> cursor_step(#[trigger] states[j], states[j + 1], j as nat, toks[j]),
    ensures
        states[i].buffer().len() == if i <= states[0].buffer().len() { states[0].buffer().len() as int } else { i },
        states[i].buffer().take(i) == toks.take(i),
        forall|n: nat| #[trigger] states[i].upcoming(n) == states[0].upcoming(n),
    decreases i,
{
    if i == 0 {
        assert(states[0].buffer().take(0) =~= toks.take(0));
    } else {
        lemma_cursor_run_prefix(states, toks, i - 1);
        let a = states[i - 1];
        let b = states[i];
        assert(cursor_step(a, b, (i - 1) as nat, toks[i - 1]));
        assert(b.buffer().take(i) =~= toks.take(i)) by {
            assert forall|k: int| 0 <= k < i implies b.buffer()[k] == toks[k] by {
                if k < i - 1 {
                    assert(b.buffer().take(a.buffer().len() as int)[k] == a.buffer()[k]);
                    assert(a.buffer().take(i - 1)[k] == toks.take(i - 1)[k]);
                }
            }
        }
        assert forall|n: nat| #[trigger] states[i].upcoming(n) == states[0].upcoming(n) by {
            assert(b.upcoming(n) == a.upcoming(n));
            assert(a.upcoming(n) == states[0].upcoming(n));
        }
    }
}

/// Reading `k` tokens ahead with a fresh look-ahead cursor: afterwards the
/// buffer holds the larger of the number it held and `k` tokens, and the
/// cursor gave, in order, the first `k` tokens the reader will hand out.
/// The cursor's `next` makes each such step.
pub proof fn lemma_cursor_reads_upcoming(states: Seq<LookaheadTokenIterator>, toks: Seq<TokenV>)
    requires
        states.len() == toks.len() + 1,
        forall|j: int| 0 <= j < toks.len() ==> cursor_step(#[trigger] states[j], states[j + 1], j as nat, toks[j]),
    ensures
        states[toks.len() as int].buffer().len() == if toks.len() <= states[0].buffer().len() {
            states[0].buffer().len() as int
        } else {
            toks.len() as int
        },
        states[0].upcoming(toks.len()) == Some(toks),
{
    let k = toks.len() as int;
    lemma_cursor_run_prefix(states, toks, k);
    assert(toks.take(k) =~= toks);
    assert(states[k].upcoming(toks.len()) == states[0].upcoming(toks.len()));
}

/// A reader that has read nothing ahead hands out exactly its lexer's
/// tokens. With the contracts of `next`, `peek`, `read_ahead` and the
/// look-ahead cursor, each of which either keeps every upcoming token or
/// hands out the first, this gives the law: whatever peeks and look-aheads
/// come between, the tokens `next` hands out are the lexer's own, in order,
/// none dropped, repeated or moved.
pub proof fn lemma_fresh_reader_hands_out_lexer_tokens(it: LookaheadTokenIterator, n: nat)
    requires
        it.buffer().len() == 0,
    ensures
        it.upcoming(n) == lexer_tokens(it.lexer_state().input(), it.lexer_state().file_name(), it.lexer_state().cursor(), it.lexer_state().had_newline(), n),
{
    let b = it.buffer();
    assert(b =~= Seq::<TokenV>::empty());
    let lx = it.lexer_state();
    if n == 0 {
        assert(b.take(0) =~= Seq::<TokenV>::empty());
    } else {
        match lexer_tokens(lx.input(), lx.file_name(), lx.cursor(), lx.had_newline(), n) {
            Some(rest) => assert(b + rest =~= rest),
            None => {},
        }
    }
}

/// Reading one token from the lexer into the buffer changes none of the
/// upcoming tokens.
proof fn lemma_read_into_buffer(before: LookaheadTokenIterator, after: LookaheadTokenIterator, t: TokenV)
    requires
        ({
            let lx = before.lexer_state();
            let (k, nl, res) = spec_next(lx.input(), lx.file_name(), lx.cursor(), lx.had_newline());
            &&& res == Ok::<TokenV, LexerError>(t)
            &&& after.lexer_state().input() == lx.input()
            &&& after.lexer_state().file_name() == lx.file_name()
            &&& after.lexer_state().cursor() == k
            &&& after.lexer_state().had_newline() == nl
        }),
        after.buffer() == before.buffer().push(t),
    ensures
        forall|n: nat| #[trigger] after.upcoming(n) == before.upcoming(n),
{
    let b = before.buffer();
    let lx = before.lexer_state();
    let lx2 = after.lexer_state();
    assert forall|n: nat| #[trigger] after.upcoming(n) == before.upcoming(n) by {
        if n <= b.len() {
            assert(b.push(t).take(n as int) =~= b.take(n as int));
        } else if n == b.len() + 1 {
            assert(lexer_tokens(lx2.input(), lx2.file_name(), lx2.cursor(), lx2.had_newline(), 0) == Some(Seq::<TokenV>::empty()));
            assert(b.push(t).take(n as int) =~= b + (seq![t] + Seq::<TokenV>::empty()));
        } else {
            let m = (n - b.len() - 1) as nat;
            assert(lexer_tokens(lx.input(), lx.file_name(), lx.cursor(), lx.had_newline(), (n - b.len()) as nat)
                == prepend(t, lexer_tokens(lx2.input(), lx2.file_name(), lx2.cursor(), lx2.had_newline(), m)));
            match lexer_tokens(lx2.input(), lx2.file_name(), lx2.cursor(), lx2.had_newline(), m) {
                Some(rest) => {
                    assert(b.push(t) + rest =~= b + (seq![t] + rest));
                },
                None => {},
            }
        }
    }
}

/// Handing out the first token read ahead leaves the others upcoming.
proof fn lemma_take_from_buffer(before: LookaheadTokenIterator, after: LookaheadTokenIterator)
    requires
        before.buffer().len() > 0,
        after.buffer() == before.buffer().drop_first(),
        after.lexer_state() == before.lexer_state(),
    ensures
        forall|n: nat| #[trigger] before.upcoming(n + 1) == prepend(before.buffer()[0], after.upcoming(n)),
{
    let b = before.buffer();
    let lx = before.lexer_state();
    assert forall|n: nat| #[trigger] before.upcoming(n + 1) == prepend(before.buffer()[0], after.upcoming(n)) by {
        if n + 1 <= b.len() {
            assert(b.take((n + 1) as int) =~= seq![b[0]] + b.drop_first().take(n as int));
        } else {
            match lexer_tokens(lx.input(), lx.file_name(), lx.cursor(), lx.had_newline(), (n + 1 - b.len()) as nat) {
                Some(rest) => {
                    assert(b + rest =~= seq![b[0]] + (b.drop_first() + rest));
                },
                None => {},
            }
        }
    }
}

/// Handing out a token straight from the lexer leaves the ones after it
/// upcoming.
proof fn lemma_take_from_lexer(before: LookaheadTokenIterator, after: LookaheadTokenIterator, t: TokenV)
    requires
        before.buffer().len() == 0,
        after.buffer().len() == 0,
        ({
            let lx = before.lexer_state();
            let (k, nl, res) = spec_next(lx.input(), lx.file_name(), lx.cursor(), lx.had_newline());
            &&& res == Ok::<TokenV, LexerError>(t)
            &&& after.lexer_state().input() == lx.input()
            &&& after.lexer_state().file_name() == lx.file_name()
            &&& after.lexer_state().cursor() == k
            &&& after.lexer_state().had_newline() == nl
        }),
    ensures
        forall|n: nat| #[trigger] before.upcoming(n + 1) == prepend(t, after.upcoming(n)),
{
    let b = before.buffer();
    let b2 = after.buffer();
    assert(b =~= Seq::<TokenV>::empty());
    assert(b2 =~= Seq::<TokenV>::empty());
    assert forall|n: nat| #[trigger] before.upcoming(n + 1) == prepend(t, after.upcoming(n)) by {
        let lx = before.lexer_state();
        let lx2 = after.lexer_state();
        let rest = lexer_tokens(lx2.input(), lx2.file_name(), lx2.cursor(), lx2.had_newline(), n);
        assert(lexer_tokens(lx.input(), lx.file_name(), lx.cursor(), lx.had_newline(), n + 1) == prepend(t, rest));
        if n == 0 {
            assert(b2.take(0) =~= Seq::<TokenV>::empty());
            assert(b.take(0) =~= Seq::<TokenV>::empty());
        }
        match rest {
            Some(r) => {
                assert(b + (seq![t] + r) =~= seq![t] + r);
                assert(b2 + r =~= r);
                if n == 0 {
                    assert(r =~= Seq::<TokenV>::empty());
                }
            },
            None => {},
        }
    }
}

impl<'a> LookaheadIteratorIterator<'a> {
    /// How many tokens this cursor has read ahead.
    pub closed spec fn position(&self) -> nat {
        self.i as nat
    }

    /// The reader this cursor reads ahead of.
    pub closed spec fn target(&self) -> &'a mut LookaheadTokenIterator {
        self.lookahead
    }

    /// The token after the ones this cursor has passed, read from the lexer
    /// into the buffer when the buffer holds no such token yet.
    #[verifier::spinoff_prover]
    #[verifier::rlimit(40)]
    pub fn next(&mut self) -> (r: Result<&Token, LexerError>)
        requires
            old(self).target().lexer_state().wf(),
            old(self).position() <= old(self).target().buffer().len(),
        ensures
            final(self).target().lexer_state().wf(),
            if old(self).position() < old(self).target().buffer().len() {
                &&& r matches Ok(t) && t@ == old(self).target().buffer()[old(self).position() as int]
                &&& final(self).position() == old(self).position() + 1
                &&& *final(self).target() == *old(self).target()
            } else {
                let lx = old(self).target().lexer_state();
                let (k, nl, res) = spec_next(lx.input(), lx.file_name(), lx.cursor(), lx.had_newline());
                &&& final(self).target().lexer_state().started()
                &&& final(self).target().lexer_state().input() == lx.input()
                &&& final(self).target().lexer_state().file_name() == lx.file_name()
                &&& final(self).target().lexer_state().cursor() == k
                &&& final(self).target().lexer_state().had_newline() == nl
                &&& match res {
                    Ok(t) => {
                        &&& r matches Ok(rt) && rt@ == t
                        &&& final(self).target().buffer() == old(self).target().buffer().push(t)
                        &&& final(self).position() == old(self).position() + 1
                    },
                    Err(e) => {
                        &&& r == Err::<&Token, LexerError>(e)
                        &&& final(self).target().buffer() == old(self).target().buffer()
                    },
                }
            },
            final(self).position() <= final(self).target().buffer().len(),
            r is Ok ==> forall|n: nat| #[trigger] final(self).target().upcoming(n) == old(self).target().upcoming(n),
            r is Ok ==> reader_step(*old(self).target(), *final(self).target(), None),
            r matches Ok(t) ==> cursor_step(*old(self).target(), *final(self).target(), old(self).position(), t@),
            r matches Ok(t) ==> final(self).target().buffer()[old(self).position() as int] == t@,
            r is Ok ==> final(self).target().buffer().len() == if old(self).position() < old(self).target().buffer().len() {
                old(self).target().buffer().len()
            } else {
                old(self).position() + 1
            },
            r is Ok ==> final(self).target().buffer().take(old(self).target().buffer().len() as int) == old(self).target().buffer(),
    {
        let ghost before = *self.lookahead;
        if self.lookahead.buffer.len() <= self.i {
            let token = match self.lookahead.lexer.next() {
                Ok(token) => token,
                Err(e) => return Err(e),
            };
            let ghost t = token@;
            self.lookahead.buffer.push_back(token);
            proof {
                assert(self.lookahead.buffer() =~= before.buffer().push(t));
                lemma_read_into_buffer(before, *self.lookahead, t);
                assert(self.lookahead.buffer().take(before.buffer().len() as int) =~= before.buffer());
            }
        } else {
            proof {
                assert(self.lookahead.buffer().take(before.buffer().len() as int) =~= before.buffer());
            }
        }
        let len = self.lookahead.buffer.len();
        assert(self.i < len);
        let token = &self.lookahead.buffer[self.i];
        self.i += 1;
        Ok(token)
    }
}

} // verus!
