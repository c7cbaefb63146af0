//! The text form of syntax trees: an S-expression per node.
use vstd::prelude::*;
use crate::ast::ast::{
    AST, ASTV, Value, ValueV, Literal, LiteralV, Function, Param, ParamV, TypeParam, TypeParamV, Pattern, PatternV,
    PatternValue, PatternValueV, PatternParam, PatternParamV, FunctionV, ast_seq_view, function_view, param_view,
    type_param_view, pattern_view, pattern_value_view, pattern_param_view, value_view,
};
use crate::ast::chars::string_from_chars;
use crate::ast::lexer::unescape;
use crate::text::{int_text, push_int_text, push_str};
use vstd::string::StrSliceExecFns;

verus! {

/// The piece of escaped text for one character of a string literal.
pub open spec fn escape_char(c: char) -> Seq<char> {
    if c == '\\' {
        seq!['\\', '\\']
    } else if c == '"' {
        seq!['\\', '"']
    } else if c == '\n' {
        seq!['\\', 'n']
    } else {
        seq![c]
    }
}

/// What the printer writes for a character of a string literal, the lexer
/// reads back as that character: either the character itself, which then
/// neither ends the literal nor starts an escape, or a backslash and a
/// character that the lexer's escape rule turns back into it.
pub proof fn lemma_escape_read_back(c: char)
    ensures
        escape_char(c).len() == 1 ==> escape_char(c)[0] == c && c != '"' && c != '\\',
        escape_char(c).len() == 2 ==> escape_char(c)[0] == '\\' && unescape(escape_char(c)[1]) == c,
        escape_char(c).len() == 1 || escape_char(c).len() == 2,
{
}

/// The text of a string literal's content: `\`, `"` and line breaks
/// escaped with a backslash.
pub open spec fn escape(s: Seq<char>) -> Seq<char>
    decreases s.len(),
{
    if s.len() == 0 {
        Seq::empty()
    } else {
        escape(s.drop_last()) + escape_char(s.last())
    }
}

/// The index of the first `.` in `t` at or after `i`, or `t.len()`.
pub open spec fn dot_from(t: Seq<char>, i: int) -> int
    decreases t.len() - i,
{
    if i < 0 || i >= t.len() {
        t.len() as int
    } else if t[i] == '.' {
        i
    } else {
        dot_from(t, i + 1)
    }
}

/// The index of the first character of `t` at or after `i`, and before
/// `end`, that is not `0`, or `end`.
pub open spec fn skip_zeros(t: Seq<char>, i: int, end: int) -> int
    decreases end - i,
{
    if i < 0 || i >= end || i >= t.len() {
        i
    } else if t[i] == '0' {
        skip_zeros(t, i + 1, end)
    } else {
        i
    }
}

/// The end of `t.subrange(lo, j)` once its trailing `0`s are dropped.
pub open spec fn drop_trailing_zeros(t: Seq<char>, j: int, lo: int) -> int
    decreases j - lo,
{
    if j <= lo || j > t.len() || j <= 0 {
        j
    } else if t[j - 1] == '0' {
        drop_trailing_zeros(t, j - 1, lo)
    } else {
        j
    }
}

/// How a decimal number written as `t` (digits, a `.`, digits) is shown:
/// without leading zeros in its whole part (`0` when nothing is left),
/// without trailing zeros in its fraction, and without the `.` when no
/// fraction is left. For a number of at most 15 significant digits within
/// the range of `f64` this is the text that formatting the parsed `f64`
/// gives.
pub open spec fn float_display(t: Seq<char>) -> Seq<char> {
    let d = dot_from(t, 0);
    let a = skip_zeros(t, 0, d);
    let whole = if a >= d { seq!['0'] } else { t.subrange(a, d) };
    let e = if d < t.len() { drop_trailing_zeros(t, t.len() as int, d + 1) } else { d };
    if d < t.len() && e > d + 1 {
        whole + seq!['.'] + t.subrange(d + 1, e)
    } else {
        whole
    }
}

// ---------------------------------------------------------------------------
// What number a decimal text stands for.

/// The value of a decimal digit.
pub open spec fn digit_value(c: char) -> nat {
    if '0' <= c && c <= '9' {
        (c as int - '0' as int) as nat
    } else {
        0
    }
}

/// The number a string of decimal digits stands for.
pub open spec fn numeral_value(s: Seq<char>) -> nat
    decreases s.len(),
{
    if s.len() == 0 {
        0
    } else {
        10 * numeral_value(s.drop_last()) + digit_value(s.last())
    }
}

/// Ten to the power `n`.
pub open spec fn pow10(n: nat) -> nat
    decreases n,
{
    if n == 0 {
        1
    } else {
        10 * pow10((n - 1) as nat)
    }
}

/// A decimal text: digits, one `.`, digits.
pub open spec fn is_decimal_text(t: Seq<char>) -> bool {
    let d = dot_from(t, 0);
    &&& d < t.len()
    &&& forall|m: int| 0 <= m < t.len() && m != d ==> '0' <= #[trigger] t[m] <= '9'
}

/// A decimal text, with or without a `.`, as the number `n / 10^f`: the
/// pair `(n, f)` of all its digits read as one numeral and the number of
/// digits after the `.`.
pub open spec fn decimal_parts(u: Seq<char>) -> (nat, nat) {
    let d = dot_from(u, 0);
    if d < u.len() {
        (numeral_value(u.take(d) + u.skip(d + 1)), (u.len() - d - 1) as nat)
    } else {
        (numeral_value(u), 0)
    }
}

proof fn lemma_dot_from(s: Seq<char>, i: int, p: int)
    requires
        0 <= i <= p <= s.len(),
        forall|m: int| i <= m < p ==> #[trigger] s[m] != '.',
        p == s.len() || s[p] == '.',
    ensures
        dot_from(s, i) == p,
    decreases p - i,
{
    if i < p {
        lemma_dot_from(s, i + 1, p);
    }
}

proof fn lemma_dot_from_facts(s: Seq<char>, i: int)
    requires
        0 <= i <= s.len(),
    ensures
        i <= dot_from(s, i) <= s.len(),
        forall|m: int| i <= m < dot_from(s, i) ==> #[trigger] s[m] != '.',
        dot_from(s, i) < s.len() ==> s[dot_from(s, i)] == '.',
    decreases s.len() - i,
{
    if i < s.len() && s[i] != '.' {
        lemma_dot_from_facts(s, i + 1);
    }
}

proof fn lemma_skip_zeros_facts(t: Seq<char>, i: int, end: int)
    requires
        0 <= i <= end <= t.len(),
    ensures
        i <= skip_zeros(t, i, end) <= end,
        forall|m: int| i <= m < skip_zeros(t, i, end) ==> #[trigger] t[m] == '0',
        skip_zeros(t, i, end) < end ==> t[skip_zeros(t, i, end)] != '0',
    decreases end - i,
{
    if i < end && t[i] == '0' {
        lemma_skip_zeros_facts(t, i + 1, end);
    }
}

proof fn lemma_trailing_zeros_facts(t: Seq<char>, j: int, lo: int)
    requires
        1 <= lo <= j <= t.len(),
    ensures
        lo <= drop_trailing_zeros(t, j, lo) <= j,
        forall|m: int| drop_trailing_zeros(t, j, lo) <= m < j ==> #[trigger] t[m] == '0',
    decreases j - lo,
{
    if j > lo && t[j - 1] == '0' {
        lemma_trailing_zeros_facts(t, j - 1, lo);
    }
}

/// Zeros in front of a numeral do not change it.
proof fn lemma_leading_zeros(z: Seq<char>, s: Seq<char>)
    requires
        forall|m: int| 0 <= m < z.len() ==> #[trigger] z[m] == '0',
    ensures
        numeral_value(z + s) == numeral_value(s),
    decreases s.len(),
{
    if s.len() == 0 {
        assert(z + s =~= z);
        lemma_all_zeros(z);
    } else {
        assert((z + s).drop_last() =~= z + s.drop_last());
        assert((z + s).last() == s.last());
        lemma_leading_zeros(z, s.drop_last());
    }
}

proof fn lemma_all_zeros(z: Seq<char>)
    requires
        forall|m: int| 0 <= m < z.len() ==> #[trigger] z[m] == '0',
    ensures
        numeral_value(z) == 0,
    decreases z.len(),
{
    if z.len() > 0 {
        assert(z.last() == '0');
        lemma_all_zeros(z.drop_last());
    }
}

/// Zeros after a numeral multiply it by ten each.
proof fn lemma_trailing_zeros(s: Seq<char>, z: Seq<char>)
    requires
        forall|m: int| 0 <= m < z.len() ==> #[trigger] z[m] == '0',
    ensures
        numeral_value(s + z) == numeral_value(s) * pow10(z.len()),
    decreases z.len(),
{
    let a = numeral_value(s);
    if z.len() == 0 {
        assert(s + z =~= s);
        assert(pow10(0) == 1);
        assert(a * 1 == a) by (nonlinear_arith);
    } else {
        let z1 = z.drop_last();
        assert((s + z).drop_last() =~= s + z1);
        assert((s + z).last() == '0');
        assert(digit_value('0') == 0);
        lemma_trailing_zeros(s, z1);
        let p = pow10(z1.len());
        assert(z1.len() == (z.len() - 1) as nat);
        assert(pow10(z.len()) == 10 * p);
        assert(numeral_value(s + z) == 10 * numeral_value(s + z1) + digit_value('0'));
        assert(10 * (a * p) == a * (10 * p)) by (nonlinear_arith);
    }
}

proof fn lemma_pow10_add(a: nat, b: nat)
    ensures
        pow10(a + b) == pow10(a) * pow10(b),
    decreases b,
{
    let x = pow10(a);
    if b == 0 {
        assert(a + b == a);
        assert(pow10(0) == 1);
        assert(x * 1 == x) by (nonlinear_arith);
    } else {
        lemma_pow10_add(a, (b - 1) as nat);
        let y = pow10((b - 1) as nat);
        assert((a + b - 1) as nat == a + (b - 1) as nat);
        assert(pow10(a + b) == 10 * pow10((a + b - 1) as nat));
        assert(pow10(b) == 10 * y);
        assert(10 * (x * y) == x * (10 * y)) by (nonlinear_arith);
    }
}

/// Showing a decimal keeps the number it stands for: the shown text and
/// the literal's text, each read as digits over a power of ten, are the
/// same number.
pub proof fn lemma_float_display_keeps_value(t: Seq<char>)
    requires
        is_decimal_text(t),
    ensures
        ({
            let (n1, f1) = decimal_parts(t);
            let (n2, f2) = decimal_parts(float_display(t));
            n1 * pow10(f2) == n2 * pow10(f1)
        }),
{
    let len = t.len() as int;
    lemma_dot_from_facts(t, 0);
    let d = dot_from(t, 0);
    lemma_skip_zeros_facts(t, 0, d);
    let a = skip_zeros(t, 0, d);
    lemma_trailing_zeros_facts(t, len, d + 1);
    let e = drop_trailing_zeros(t, len, d + 1);
    let za = t.subrange(0, a);
    let mid = t.subrange(a, d);
    let fr = t.subrange(d + 1, e);
    let zz = t.subrange(e, len);
    assert(forall|m: int| 0 <= m < za.len() ==> #[trigger] za[m] == t[m]);
    assert(forall|m: int| 0 <= m < zz.len() ==> #[trigger] zz[m] == t[e + m]);
    // The literal's digits: zeros, the whole part, the kept fraction, zeros.
    assert(t.take(d) + t.skip(d + 1) =~= za + (mid + fr) + zz);
    lemma_trailing_zeros(za + (mid + fr), zz);
    lemma_leading_zeros(za, mid + fr);
    let n = numeral_value(mid + fr);
    assert(decimal_parts(t) == (n * pow10(zz.len()), (fr.len() + zz.len()) as nat));
    // The shown text.
    let whole = if a >= d { seq!['0'] } else { mid };
    assert(numeral_value(whole + fr) == n) by {
        if a >= d {
            assert(mid =~= Seq::<char>::empty());
            assert(mid + fr =~= fr);
            lemma_leading_zeros(seq!['0'], fr);
        }
    }
    assert(forall|m: int| 0 <= m < whole.len() ==> #[trigger] whole[m] != '.') by {
        if a < d {
            assert forall|m: int| 0 <= m < whole.len() implies #[trigger] whole[m] != '.' by {
                assert(whole[m] == t[a + m]);
                assert(a + m != d);
            }
        }
    }
    let u = float_display(t);
    if e > d + 1 {
        assert(u == whole + seq!['.'] + fr);
        lemma_dot_from(u, 0, whole.len() as int);
        assert(u.take(whole.len() as int) + u.skip(whole.len() as int + 1) =~= whole + fr);
        assert(decimal_parts(u) == (n, fr.len()));
    } else {
        assert(u == whole);
        assert(fr =~= Seq::<char>::empty());
        assert(whole + fr =~= whole);
        lemma_dot_from(u, 0, u.len() as int);
        assert(decimal_parts(u) == (n, 0nat));
    }
    lemma_pow10_add(fr.len(), zz.len());
    let p1 = pow10(fr.len());
    let p2 = pow10(zz.len());
    assert(n * p2 * p1 == n * (p1 * p2)) by (nonlinear_arith);
    assert(n * 1 == n);
}

/// The text of a literal.
pub open spec fn show_literal(l: LiteralV) -> Seq<char> {
    match l {
        LiteralV::Int(i) => int_text(i as int),
        LiteralV::Bool(b) => if b { "true"@ } else { "false"@ },
        LiteralV::Float(text) => float_display(text),
        LiteralV::String(s) => seq!['"'] + escape(s) + seq!['"'],
    }
}

/// The text of a syntax tree.
pub open spec fn show_ast(a: ASTV) -> Seq<char>
    decreases a, 0int,
{
    show_value(a.value)
}

/// The text of each of `asts` from index `i`, each after a space.
pub open spec fn show_spaced(asts: Seq<ASTV>, i: int) -> Seq<char>
    decreases asts, asts.len() - i,
{
    if i < 0 || i >= asts.len() {
        Seq::empty()
    } else {
        seq![' '] + show_ast(asts[i]) + show_spaced(asts, i + 1)
    }
}

/// The text of the parameters of a lambda from index `i`, separated by
/// spaces.
pub open spec fn show_params(ps: Seq<ParamV>, i: int) -> Seq<char>
    decreases ps, ps.len() - i,
{
    if i < 0 || i >= ps.len() {
        Seq::empty()
    } else {
        let p = ps[i];
        (if i != 0 { seq![' '] } else { Seq::empty() })
            + seq!['('] + (if p.comptime { seq!['@'] } else { Seq::empty() }) + "param "@ + p.name
            + (match p.typ {
                None => Seq::empty(),
                Some(t) => seq![' '] + show_pattern(t),
            })
            + seq![')'] + show_params(ps, i + 1)
    }
}

/// The text of the parameters of a function type from index `i`.
pub open spec fn show_type_params(ps: Seq<TypeParamV>, i: int) -> Seq<char>
    decreases ps, ps.len() - i,
{
    if i < 0 || i >= ps.len() {
        Seq::empty()
    } else {
        (if i != 0 { seq![' '] } else { Seq::empty() })
            + "(param "@ + ps[i].name + seq![' '] + show_ast(ps[i].typ) + seq![')'] + show_type_params(ps, i + 1)
    }
}

/// The text of a node.
pub open spec fn show_value(v: ValueV) -> Seq<char>
    decreases v, 0int,
{
    match v {
        ValueV::Literal(l) => show_literal(l),
        ValueV::Block(asts) => if asts.len() > 0 {
            seq!['{'] + show_spaced(asts, 0) + seq![' ', '}']
        } else {
            seq!['{', '}']
        },
        ValueV::Function(f) => "(fn ["@ + show_params(f.params, 0) + seq![']']
            + (match f.return_type {
                None => Seq::empty(),
                Some(t) => seq![' '] + show_ast(*t),
            })
            + seq![' '] + show_ast(*f.body) + seq![')'],
        ValueV::Call { target, name, args } => seq!['('] + name
            + (match target {
                None => " self"@,
                Some(t) => seq![' '] + show_ast(*t),
            })
            + show_spaced(args, 0) + seq![')'],
        ValueV::Let { name, value, recursive, comptime } => seq!['('] + (if comptime { seq!['@'] } else { Seq::empty() })
            + (if recursive { "let-rec "@ } else { "let "@ }) + name + seq![' '] + show_ast(*value) + seq![')'],
        ValueV::NameRef(name) => name,
        ValueV::If { condition, on_true, on_false } => "(if "@ + show_ast(*condition) + seq![' '] + show_ast(*on_true)
            + (match on_false {
                None => Seq::empty(),
                Some(e) => seq![' '] + show_ast(*e),
            })
            + seq![')'],
        ValueV::FnType { params, return_type } => "(fn-type ["@ + show_type_params(params, 0) + seq![']', ' ']
            + show_ast(*return_type) + seq![')'],
        ValueV::TypeAssert { value, typ } => "(type-assert "@ + show_ast(*value) + seq![' '] + show_ast(*typ) + seq![')'],
        ValueV::CompileTimeExpr(a) => seq!['@'] + show_ast(*a),
    }
}

/// The text of a pattern.
pub open spec fn show_pattern(p: PatternV) -> Seq<char>
    decreases p, 0int,
{
    show_pattern_value(p.value)
}

/// The text of each of `ps` from index `i`, each after a space.
pub open spec fn show_spaced_patterns(ps: Seq<PatternV>, i: int) -> Seq<char>
    decreases ps, ps.len() - i,
{
    if i < 0 || i >= ps.len() {
        Seq::empty()
    } else {
        seq![' '] + show_pattern(ps[i]) + show_spaced_patterns(ps, i + 1)
    }
}

/// The text of the parameters of a function type pattern from index `i`.
pub open spec fn show_pattern_params(ps: Seq<PatternParamV>, i: int) -> Seq<char>
    decreases ps, ps.len() - i,
{
    if i < 0 || i >= ps.len() {
        Seq::empty()
    } else {
        (if i != 0 { seq![' '] } else { Seq::empty() })
            + "(param "@ + ps[i].name + seq![' '] + show_pattern(ps[i].typ) + seq![')'] + show_pattern_params(ps, i + 1)
    }
}

/// The text of a pattern's content.
pub open spec fn show_pattern_value(v: PatternValueV) -> Seq<char>
    decreases v, 0int,
{
    match v {
        PatternValueV::SpecificValue(a) => show_ast(a),
        PatternValueV::Binding(name) => "(val "@ + name + seq![')'],
        PatternValueV::Call { target, name, args } => seq!['<'] + name
            + (match target {
                None => " self"@,
                Some(t) => seq![' '] + show_ast(*t),
            })
            + show_spaced_patterns(args, 0) + seq!['>'],
        PatternValueV::FunctionType { params, return_type } => "(fn-type ["@ + show_pattern_params(params, 0) + seq![']', ' ']
            + show_pattern(*return_type) + seq![')'],
    }
}


/// Appends the escaped text of `s` to `out`.
fn write_escaped(s: &String, out: &mut Vec<char>)
    ensures
        final(out)@ == old(out)@ + escape(s@),
{
    let t = s.as_str();
    let n = t.unicode_len();
    let mut i: usize = 0;
    while i < n
        invariant
            n == t@.len(),
            t@ == s@,
            i <= n,
            out@ == old(out)@ + escape(t@.take(i as int)),
        decreases n - i,
    {
        let c = t.get_char(i);
        if c == '\\' {
            out.push('\\');
            out.push('\\');
        } else if c == '"' {
            out.push('\\');
            out.push('"');
        } else if c == '\n' {
            out.push('\\');
            out.push('n');
        } else {
            out.push(c);
        }
        proof {
            let pre = t@.take(i as int + 1);
            assert(pre.drop_last() =~= t@.take(i as int));
            assert(pre.last() == c);
            assert(escape(pre) == escape(t@.take(i as int)) + escape_char(c));
            assert(out@ =~= old(out)@ + escape(pre));
        }
        i += 1;
    }
    proof {
        assert(t@.take(n as int) =~= t@);
    }
}

/// Appends `t.subrange(from, to)` to `out`.
fn push_range(t: &str, from: usize, to: usize, out: &mut Vec<char>)
    requires
        from <= to <= t@.len(),
    ensures
        final(out)@ == old(out)@ + t@.subrange(from as int, to as int),
{
    let mut i = from;
    while i < to
        invariant
            from <= i <= to,
            to <= t@.len(),
            out@ == old(out)@ + t@.subrange(from as int, i as int),
        decreases to - i,
    {
        let c = t.get_char(i);
        out.push(c);
        proof {
            assert(t@.subrange(from as int, i as int + 1) =~= t@.subrange(from as int, i as int).push(c));
        }
        i += 1;
    }
}

/// Appends the shown text of a decimal number to `out`.
fn write_float(text: &String, out: &mut Vec<char>)
    ensures
        final(out)@ == old(out)@ + float_display(text@),
{
    let t = text.as_str();
    let ghost ts = t@;
    let n = t.unicode_len();
    let mut d: usize = 0;
    while d < n && t.get_char(d) != '.'
        invariant
            n == ts.len(),
            ts == t@,
            d <= n,
            dot_from(ts, 0) == dot_from(ts, d as int),
        decreases n - d,
    {
        d += 1;
    }
    let mut a: usize = 0;
    while a < d && t.get_char(a) == '0'
        invariant
            n == ts.len(),
            ts == t@,
            a <= d <= n,
            skip_zeros(ts, 0, d as int) == skip_zeros(ts, a as int, d as int),
        decreases d - a,
    {
        a += 1;
    }
    if a >= d {
        out.push('0');
    } else {
        push_range(t, a, d, out);
    }
    let ghost whole = if a >= d { seq!['0'] } else { ts.subrange(a as int, d as int) };
    assert(out@ == old(out)@ + whole);
    if d < n {
        let mut e: usize = n;
        while e > d + 1 && t.get_char(e - 1) == '0'
            invariant
                n == ts.len(),
            ts == t@,
                d < n,
                d + 1 <= e <= n,
                drop_trailing_zeros(ts, n as int, d as int + 1) == drop_trailing_zeros(ts, e as int, d as int + 1),
            decreases e,
        {
            e -= 1;
        }
        if e > d + 1 {
            out.push('.');
            push_range(t, d + 1, e, out);
            proof {
                assert(out@ =~= old(out)@ + (whole + seq!['.'] + ts.subrange(d as int + 1, e as int)));
            }
        }
    }
}

/// Appends the text of a literal to `out`.
pub fn write_literal(l: &Literal, out: &mut Vec<char>)
    ensures
        final(out)@ == old(out)@ + show_literal(l@),
{
    match l {
        Literal::Int(i) => push_int_text(out, *i),
        Literal::Bool(b) => if *b {
            push_str(out, "true");
        } else {
            push_str(out, "false");
        },
        Literal::Float(text) => write_float(text, out),
        Literal::String(s) => {
            out.push('"');
            write_escaped(s, out);
            out.push('"');
            proof {
                assert(out@ =~= old(out)@ + (seq!['"'] + escape(s@) + seq!['"']));
            }
        },
    }
}

/// Appends the text of a syntax tree to `out`.
pub fn write_ast(a: &AST, out: &mut Vec<char>)
    ensures
        final(out)@ == old(out)@ + show_ast(a@),
    decreases a, 1int,
{
    write_value(&a.value, out);
}

/// Appends the text of each of `asts` from index `i` to `out`, each after
/// a space.
fn write_spaced(asts: &Vec<AST>, i: usize, out: &mut Vec<char>)
    requires
        i <= asts.len(),
    ensures
        final(out)@ == old(out)@ + show_spaced(ast_seq_view(asts@), i as int),
    decreases asts, asts.len() - i,
{
    if i < asts.len() {
        out.push(' ');
        write_ast(&asts[i], out);
        write_spaced(asts, i + 1, out);
        proof {
            let v = ast_seq_view(asts@);
            assert(v[i as int] == asts@[i as int]@);
            assert(out@ =~= old(out)@ + show_spaced(v, i as int));
        }
    }
}

/// Appends the text of the parameters of a lambda from index `i` to `out`.
#[verifier::spinoff_prover]
#[verifier::rlimit(60)]
fn write_params(ps: &Vec<Param>, i: usize, out: &mut Vec<char>)
    requires
        i <= ps.len(),
    ensures
        final(out)@ == old(out)@ + show_params(ps@.map_values(|p: Param| p@), i as int),
    decreases ps, ps.len() - i,
{
    if i < ps.len() {
        let p = &ps[i];
        if i != 0 {
            out.push(' ');
        }
        out.push('(');
        if p.comptime {
            out.push('@');
        }
        push_str(out, "param ");
        push_str(out, p.name.as_str());
        match &p.typ {
            None => {},
            Some(t) => {
                out.push(' ');
                write_pattern(t, out);
            },
        }
        out.push(')');
        write_params(ps, i + 1, out);
        proof {
            let v = ps@.map_values(|p: Param| p@);
            assert(v[i as int] == p@);
            assert(out@ =~= old(out)@ + show_params(v, i as int));
        }
    }
}

/// Appends the text of the parameters of a function type from index `i`
/// to `out`.
fn write_type_params(ps: &Vec<TypeParam>, i: usize, out: &mut Vec<char>)
    requires
        i <= ps.len(),
    ensures
        final(out)@ == old(out)@ + show_type_params(ps@.map_values(|p: TypeParam| p@), i as int),
    decreases ps, ps.len() - i,
{
    if i < ps.len() {
        let p = &ps[i];
        if i != 0 {
            out.push(' ');
        }
        push_str(out, "(param ");
        push_str(out, p.name.as_str());
        out.push(' ');
        write_ast(&p.typ, out);
        out.push(')');
        write_type_params(ps, i + 1, out);
        proof {
            let v = ps@.map_values(|p: TypeParam| p@);
            assert(v[i as int] == p@);
            assert(out@ =~= old(out)@ + show_type_params(v, i as int));
        }
    }
}

/// Appends the text of a node to `out`.
#[verifier::spinoff_prover]
#[verifier::rlimit(60)]
pub fn write_value(v: &Value, out: &mut Vec<char>)
    ensures
        final(out)@ == old(out)@ + show_value(value_view(v)),
    decreases v, 1int,
{
    match v {
        Value::Literal(l) => write_literal(l, out),
        Value::Block(asts) => {
            if asts.len() > 0 {
                out.push('{');
                write_spaced(asts, 0, out);
                out.push(' ');
                out.push('}');
            } else {
                out.push('{');
                out.push('}');
            }
            proof {
                assert(out@ =~= old(out)@ + show_value(value_view(v)));
            }
        },
        Value::Function(f) => {
            push_str(out, "(fn [");
            write_params(&f.params, 0, out);
            out.push(']');
            match &f.return_type {
                None => {},
                Some(t) => {
                    out.push(' ');
                    write_ast(t, out);
                },
            }
            out.push(' ');
            write_ast(&f.body, out);
            out.push(')');
            proof {
                assert(function_view(f).params =~= f.params@.map_values(|p: Param| p@));
                assert(out@ =~= old(out)@ + show_value(value_view(v)));
            }
        },
        Value::Call { target, name, args } => {
            out.push('(');
            push_str(out, name.as_str());
            match target {
                None => push_str(out, " self"),
                Some(t) => {
                    out.push(' ');
                    write_ast(t, out);
                },
            }
            write_spaced(args, 0, out);
            out.push(')');
            proof {
                assert(out@ =~= old(out)@ + show_value(value_view(v)));
            }
        },
        Value::Let { name, value, recursive, comptime } => {
            out.push('(');
            if *comptime {
                out.push('@');
            }
            if *recursive {
                push_str(out, "let-rec ");
            } else {
                push_str(out, "let ");
            }
            push_str(out, name.as_str());
            out.push(' ');
            write_ast(value, out);
            out.push(')');
            proof {
                assert(out@ =~= old(out)@ + show_value(value_view(v)));
            }
        },
        Value::NameRef(name) => push_str(out, name.as_str()),
        Value::If { condition, on_true, on_false } => {
            push_str(out, "(if ");
            write_ast(condition, out);
            out.push(' ');
            write_ast(on_true, out);
            match on_false {
                None => {},
                Some(e) => {
                    out.push(' ');
                    write_ast(e, out);
                },
            }
            out.push(')');
            proof {
                assert(out@ =~= old(out)@ + show_value(value_view(v)));
            }
        },
        Value::FnType { params, return_type } => {
            push_str(out, "(fn-type [");
            write_type_params(params, 0, out);
            out.push(']');
            out.push(' ');
            write_ast(return_type, out);
            out.push(')');
            proof {
                let pv = match value_view(v) {
                    ValueV::FnType { params, .. } => params,
                    _ => arbitrary(),
                };
                assert(pv =~= params@.map_values(|p: TypeParam| p@));
                assert(out@ =~= old(out)@ + show_value(value_view(v)));
            }
        },
        Value::TypeAssert { value, typ } => {
            push_str(out, "(type-assert ");
            write_ast(value, out);
            out.push(' ');
            write_ast(typ, out);
            out.push(')');
            proof {
                assert(out@ =~= old(out)@ + show_value(value_view(v)));
            }
        },
        Value::CompileTimeExpr(a) => {
            out.push('@');
            write_ast(a, out);
            proof {
                assert(out@ =~= old(out)@ + show_value(value_view(v)));
            }
        },
    }
}

/// Appends the text of a pattern to `out`.
pub fn write_pattern(p: &Pattern, out: &mut Vec<char>)
    ensures
        final(out)@ == old(out)@ + show_pattern(p@),
    decreases p, 1int,
{
    write_pattern_value(&p.value, out);
}

/// Appends the text of each of `ps` from index `i` to `out`, each after a
/// space.
fn write_spaced_patterns(ps: &Vec<Pattern>, i: usize, out: &mut Vec<char>)
    requires
        i <= ps.len(),
    ensures
        final(out)@ == old(out)@ + show_spaced_patterns(ps@.map_values(|p: Pattern| p@), i as int),
    decreases ps, ps.len() - i,
{
    if i < ps.len() {
        out.push(' ');
        write_pattern(&ps[i], out);
        write_spaced_patterns(ps, i + 1, out);
        proof {
            let v = ps@.map_values(|p: Pattern| p@);
            assert(v[i as int] == ps@[i as int]@);
            assert(out@ =~= old(out)@ + show_spaced_patterns(v, i as int));
        }
    }
}

/// Appends the text of the parameters of a function type pattern from
/// index `i` to `out`.
fn write_pattern_params(ps: &Vec<PatternParam>, i: usize, out: &mut Vec<char>)
    requires
        i <= ps.len(),
    ensures
        final(out)@ == old(out)@ + show_pattern_params(ps@.map_values(|p: PatternParam| p@), i as int),
    decreases ps, ps.len() - i,
{
    if i < ps.len() {
        let p = &ps[i];
        if i != 0 {
            out.push(' ');
        }
        push_str(out, "(param ");
        push_str(out, p.name.as_str());
        out.push(' ');
        write_pattern(&p.typ, out);
        out.push(')');
        write_pattern_params(ps, i + 1, out);
        proof {
            let v = ps@.map_values(|p: PatternParam| p@);
            assert(v[i as int] == p@);
            assert(out@ =~= old(out)@ + show_pattern_params(v, i as int));
        }
    }
}

/// Appends the text of a pattern's content to `out`.
pub fn write_pattern_value(v: &PatternValue, out: &mut Vec<char>)
    ensures
        final(out)@ == old(out)@ + show_pattern_value(pattern_value_view(v)),
    decreases v, 1int,
{
    match v {
        PatternValue::SpecificValue(a) => write_ast(a, out),
        PatternValue::Binding(name) => {
            push_str(out, "(val ");
            push_str(out, name.as_str());
            out.push(')');
            proof {
                assert(out@ =~= old(out)@ + show_pattern_value(pattern_value_view(v)));
            }
        },
        PatternValue::Call { target, name, args } => {
            out.push('<');
            push_str(out, name.as_str());
            match target {
                None => push_str(out, " self"),
                Some(t) => {
                    out.push(' ');
                    write_ast(t, out);
                },
            }
            write_spaced_patterns(args, 0, out);
            out.push('>');
            proof {
                let pv = match pattern_value_view(v) {
                    PatternValueV::Call { args, .. } => args,
                    _ => arbitrary(),
                };
                assert(pv =~= args@.map_values(|p: Pattern| p@));
                assert(out@ =~= old(out)@ + show_pattern_value(pattern_value_view(v)));
            }
        },
        PatternValue::FunctionType { params, return_type } => {
            push_str(out, "(fn-type [");
            write_pattern_params(params, 0, out);
            out.push(']');
            out.push(' ');
            write_pattern(return_type, out);
            out.push(')');
            proof {
                let pv = match pattern_value_view(v) {
                    PatternValueV::FunctionType { params, .. } => params,
                    _ => arbitrary(),
                };
                assert(pv =~= params@.map_values(|p: PatternParam| p@));
                assert(out@ =~= old(out)@ + show_pattern_value(pattern_value_view(v)));
            }
        },
    }
}

impl AST {
    /// The text of this syntax tree.
    pub fn to_string(&self) -> (s: String)
        ensures
            s@ == show_ast(self@),
    {
        let mut out: Vec<char> = Vec::new();
        write_ast(self, &mut out);
        proof {
            assert(out@ =~= show_ast(self@));
        }
        string_from_chars(&out)
    }
}

impl Value {
    /// The text of this node.
    pub fn to_string(&self) -> (s: String)
        ensures
            s@ == show_value(value_view(self)),
    {
        let mut out: Vec<char> = Vec::new();
        write_value(self, &mut out);
        proof {
            assert(out@ =~= show_value(value_view(self)));
        }
        string_from_chars(&out)
    }
}

impl Literal {
    /// The text of this literal.
    pub fn to_string(&self) -> (s: String)
        ensures
            s@ == show_literal(self@),
    {
        let mut out: Vec<char> = Vec::new();
        write_literal(self, &mut out);
        proof {
            assert(out@ =~= show_literal(self@));
        }
        string_from_chars(&out)
    }
}

impl Pattern {
    /// The text of this pattern.
    pub fn to_string(&self) -> (s: String)
        ensures
            s@ == show_pattern(self@),
    {
        let mut out: Vec<char> = Vec::new();
        write_pattern(self, &mut out);
        proof {
            assert(out@ =~= show_pattern(self@));
        }
        string_from_chars(&out)
    }
}

impl PatternValue {
    /// The text of this pattern content.
    pub fn to_string(&self) -> (s: String)
        ensures
            s@ == show_pattern_value(pattern_value_view(self)),
    {
        let mut out: Vec<char> = Vec::new();
        write_pattern_value(self, &mut out);
        proof {
            assert(out@ =~= show_pattern_value(pattern_value_view(self)));
        }
        string_from_chars(&out)
    }
}

} // verus!
