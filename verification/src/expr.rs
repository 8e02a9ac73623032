//! Expression evaluation: ordinary infix arithmetic (`+ - * /`, parentheses, unary minus,
//! normal precedence) inside a slot or after `=`. String `+` concatenates. Strict: leftover
//! tokens are a hard error, never silently dropped.

use vstd::prelude::*;
use vstd::string::*;

use crate::env::{env_refs_below, key_of, refs_from, value_refs_below, Binding, Env};
use crate::error::{err, ErrorKind, SchildpadError};
use crate::lexer::{Cmp, LoopWord, Tok, Token};
use crate::number::Getal;
use crate::resolve::resolve_name_bounded;
use crate::text::{chars_to_string, push_chars, push_str, string_of};
use crate::value::{copy_value, fmt_num, push_num, same_as, Toon, Value};
use crate::vocab::{
    colour_name, constant_name, constant_value, envelope_name, note_hz, note_name, osc_name,
    verb_name, ConstVal,
};

verus! {

/// Every name token in `toks` is at most `bound` characters long (the measure that makes
/// evaluating an interpolated name terminate: its inner expression is always shorter).
pub open spec fn names_bounded(toks: Seq<Token>, bound: nat) -> bool {
    forall|i: int| 0 <= i < toks.len() ==> name_len_within(#[trigger] toks[i].kind, bound)
}

pub open spec fn name_len_within(t: Tok, bound: nat) -> bool {
    match t {
        Tok::Name(s) => s@.len() <= bound,
        _ => true,
    }
}

pub open spec fn fails_with<T>(r: Result<T, SchildpadError>, k: ErrorKind) -> bool {
    match r {
        Err(e) => e.kind == k,
        Ok(_) => false,
    }
}

pub open spec fn error_line_is<T>(r: Result<T, SchildpadError>, line: u32) -> bool {
    match r {
        Err(e) => e.line == line,
        Ok(_) => true,
    }
}

/// A lone literal token evaluates to itself: a number to that getal, a string to that text.
pub open spec fn literal_value_ok(t: Tok, v: Value) -> bool {
    match t {
        Tok::Number(g) => v == Value::Getal(g),
        Tok::Str(s) => match v {
            Value::Tekst(u) => u@ == s@,
            _ => false,
        },
        Tok::Colour(c) => v == Value::Kleur(c),
        Tok::Osc(o) => v == Value::Oscillator(o),
        Tok::Env(e) => v == Value::Omhullende(e),
        Tok::Note(n, b) => match v {
            Value::Toon(x) => match x.pitch_hz {
                Some(h) => crate::number::normal_form(crate::vocab::note_centihertz(n), 100) == Some(h@) && x.beats == b && x.osc
                    == crate::vocab::Osc::Sinus && x.env == crate::vocab::Envelope::Kort,
                None => false,
            },
            _ => false,
        },
        Tok::Const(c) => match crate::vocab::constant_meaning(c) {
            ConstVal::Draai(d) => v == Value::Draairichting(d),
            ConstVal::Rest => match v {
                Value::Toon(x) => x.pitch_hz is None && x.beats@ == (1int, 1int) && x.osc == crate::vocab::Osc::Sinus && x.env
                    == crate::vocab::Envelope::Kort,
                _ => false,
            },
            ConstVal::Getal(_) => false,
        },
        _ => true,
    }
}

/// The type of the value a literal token stands for.
pub open spec fn literal_type(t: Tok) -> crate::vocab::Type {
    match t {
        Tok::Number(_) => crate::vocab::Type::Getal,
        Tok::Str(_) => crate::vocab::Type::Tekst,
        Tok::Colour(_) => crate::vocab::Type::Kleur,
        Tok::Osc(_) => crate::vocab::Type::Oscillator,
        Tok::Env(_) => crate::vocab::Type::Omhullende,
        Tok::Note(_, _) => crate::vocab::Type::Toon,
        Tok::Const(c) => match crate::vocab::constant_meaning(c) {
            ConstVal::Draai(_) => crate::vocab::Type::Draairichting,
            ConstVal::Rest => crate::vocab::Type::Toon,
            ConstVal::Getal(_) => crate::vocab::Type::Getal,
        },
        _ => crate::vocab::Type::Nil,
    }
}

/// A token that stands for a value by itself: a number, a text, a colour, an oscillator, an
/// envelope, a note or a constant.
pub open spec fn is_literal(t: Tok) -> bool {
    t is Number || t is Str || t is Colour || t is Osc || t is Env || t is Note || (t is Const && !(crate::vocab::constant_meaning(
        t->Const_0,
    ) is Getal))
}

// ---- the arithmetic core, exactly ------------------------------------------------------------

/// The exact result of `x op y` on two numbers (`+ - * /` by byte); `None` when it cannot be
/// represented or divides by zero.
pub open spec fn combine(op: u8, x: (int, int), y: (int, int)) -> Option<(int, int)> {
    if op == 43 {
        crate::number::sum_of(x, y)
    } else if op == 45 {
        crate::number::difference_of(x, y)
    } else if op == 42 {
        crate::number::product_of(x, y)
    } else if y.0 == 0 {
        None
    } else {
        crate::number::quotient_of(x, y)
    }
}

/// A name that is plain (no interpolation) and bound to a number.
pub open spec fn number_name(env: Map<Seq<char>, Binding>, t: Tok) -> bool {
    &&& t is Name
    &&& !t->Name_0@.contains('\'')
    &&& env.contains_key(key_of(t->Name_0@))
    &&& env[key_of(t->Name_0@)].value is Getal
}

pub open spec fn arith_tok(env: Map<Seq<char>, Binding>, t: Tok) -> bool {
    ||| t is Number
    ||| number_name(env, t)
    ||| t is LParen
    ||| t is RParen
    ||| t == Tok::Op(43)
    ||| t == Tok::Op(45)
    ||| t == Tok::Op(42)
    ||| t == Tok::Op(47)
}

/// An expression of numbers, names of numbers, `+ - * /` and parentheses only.
pub open spec fn arith_only(toks: Seq<Token>, env: Map<Seq<char>, Binding>) -> bool {
    forall|i: int| 0 <= i < toks.len() ==> arith_tok(env, #[trigger] toks[i].kind)
}

/// A primary at `p`: a number, `-` and a primary, or a parenthesised expression (the closing
/// parenthesis may be missing at the end). The value and the position after it.
pub open spec fn a_primary(t: Seq<Token>, env: Map<Seq<char>, Binding>, p: int) -> Option<((int, int), int)>
    decreases t.len() - p, 0nat,
{
    if p < 0 || p >= t.len() {
        None
    } else {
        match t[p].kind {
            Tok::Number(n) => Some((n@, p + 1)),
            Tok::Name(raw) => if number_name(env, t[p].kind) {
                Some((env[key_of(raw@)].value->Getal_0@, p + 1))
            } else {
                None
            },
            Tok::Op(o) => if o == 45 {
                match a_primary(t, env, p + 1) {
                    Some((v, q)) => Some(((-v.0, v.1), q)),
                    None => None,
                }
            } else {
                None
            },
            Tok::LParen => match a_add(t, env, p + 1) {
                Some((v, q)) => Some((v, if q < t.len() && t[q].kind is RParen { q + 1 } else { q })),
                None => None,
            },
            _ => None,
        }
    }
}

/// Continue a product from `p` with the value `acc` so far.
pub open spec fn a_mul_rest(t: Seq<Token>, env: Map<Seq<char>, Binding>, p: int, acc: (int, int)) -> Option<((int, int), int)>
    decreases t.len() - p, 1nat,
{
    if 0 <= p < t.len() && (t[p].kind == Tok::Op(42) || t[p].kind == Tok::Op(47)) {
        let op: u8 = if t[p].kind == Tok::Op(42) { 42 } else { 47 };
        match a_primary(t, env, p + 1) {
            Some((v, q)) => if p + 1 < q <= t.len() {
                match combine(op, acc, v) {
                    Some(w) => a_mul_rest(t, env, q, w),
                    None => None,
                }
            } else {
                None
            },
            None => None,
        }
    } else {
        Some((acc, p))
    }
}

/// Primaries joined by `*` and `/`, left to right.
pub open spec fn a_mul(t: Seq<Token>, env: Map<Seq<char>, Binding>, p: int) -> Option<((int, int), int)>
    decreases t.len() - p, 2nat,
{
    if p < 0 || p > t.len() {
        None
    } else {
        match a_primary(t, env, p) {
            Some((v, q)) => if p < q <= t.len() { a_mul_rest(t, env, q, v) } else { None },
            None => None,
        }
    }
}

/// Continue a sum from `p` with the value `acc` so far.
pub open spec fn a_add_rest(t: Seq<Token>, env: Map<Seq<char>, Binding>, p: int, acc: (int, int)) -> Option<((int, int), int)>
    decreases t.len() - p, 3nat,
{
    if 0 <= p < t.len() && (t[p].kind == Tok::Op(43) || t[p].kind == Tok::Op(45)) {
        let op: u8 = if t[p].kind == Tok::Op(43) { 43 } else { 45 };
        match a_mul(t, env, p + 1) {
            Some((v, q)) => if p + 1 < q <= t.len() {
                match combine(op, acc, v) {
                    Some(w) => a_add_rest(t, env, q, w),
                    None => None,
                }
            } else {
                None
            },
            None => None,
        }
    } else {
        Some((acc, p))
    }
}

/// Products joined by `+` and `-`, left to right.
pub open spec fn a_add(t: Seq<Token>, env: Map<Seq<char>, Binding>, p: int) -> Option<((int, int), int)>
    decreases t.len() - p, 4nat,
{
    if p < 0 || p > t.len() {
        None
    } else {
        match a_mul(t, env, p) {
            Some((v, q)) => if p < q <= t.len() { a_add_rest(t, env, q, v) } else { None },
            None => None,
        }
    }
}

/// The exact value of a whole arithmetic expression, or `None` when it is an error.
pub open spec fn arith_value(t: Seq<Token>, env: Map<Seq<char>, Binding>) -> Option<(int, int)> {
    match a_add(t, env, 0) {
        Some((v, q)) => if q == t.len() { Some(v) } else { None },
        None => None,
    }
}

/// A number or a text: the values that the operators of an expression work on.
pub enum Plain {
    Num((int, int)),
    Text(Seq<char>),
}

/// A value as a number or a text, when it is one.
pub open spec fn plain_of(v: Value) -> Option<Plain> {
    match v {
        Value::Getal(n) => Some(Plain::Num(n@)),
        Value::Tekst(s) => Some(Plain::Text(s@)),
        _ => None,
    }
}

/// How a number or a text is written inside a longer text.
pub open spec fn plain_text(v: Plain) -> Seq<char> {
    match v {
        Plain::Num(x) => crate::value::num_text(x),
        Plain::Text(s) => s,
    }
}

/// `a <op> b`: `+` with a text on either side joins the two as texts; otherwise both must be
/// numbers, combined exactly.
pub open spec fn plain_combine(op: u8, a: Plain, b: Plain) -> Option<Plain> {
    if op == 43 && (a is Text || b is Text) {
        Some(Plain::Text(plain_text(a) + plain_text(b)))
    } else {
        match (a, b) {
            (Plain::Num(x), Plain::Num(y)) => match combine(op, x, y) {
                Some(z) => Some(Plain::Num(z)),
                None => None,
            },
            _ => None,
        }
    }
}

/// A name that is plain (no interpolation) and bound to a text.
pub open spec fn text_name(env: Map<Seq<char>, Binding>, t: Tok) -> bool {
    &&& t is Name
    &&& !t->Name_0@.contains('\'')
    &&& env.contains_key(key_of(t->Name_0@))
    &&& env[key_of(t->Name_0@)].value is Tekst
}

pub open spec fn plain_tok(env: Map<Seq<char>, Binding>, t: Tok) -> bool {
    ||| arith_tok(env, t)
    ||| t is Str
    ||| text_name(env, t)
}

/// An expression of numbers, texts, names of numbers and of texts, `+ - * /` and parentheses.
pub open spec fn plain_only(toks: Seq<Token>, env: Map<Seq<char>, Binding>) -> bool {
    forall|i: int| 0 <= i < toks.len() ==> plain_tok(env, #[trigger] toks[i].kind)
}

/// A primary at `p` over numbers and texts, and the position after it.
pub open spec fn p_primary(t: Seq<Token>, env: Map<Seq<char>, Binding>, p: int) -> Option<(Plain, int)>
    decreases t.len() - p, 0nat,
{
    if p < 0 || p >= t.len() {
        None
    } else {
        match t[p].kind {
            Tok::Number(n) => Some((Plain::Num(n@), p + 1)),
            Tok::Str(s) => Some((Plain::Text(s@), p + 1)),
            Tok::Name(raw) => if number_name(env, t[p].kind) {
                Some((Plain::Num(env[key_of(raw@)].value->Getal_0@), p + 1))
            } else if text_name(env, t[p].kind) {
                Some((Plain::Text(env[key_of(raw@)].value->Tekst_0@), p + 1))
            } else {
                None
            },
            Tok::Op(o) => if o == 45 {
                match p_primary(t, env, p + 1) {
                    Some((Plain::Num(v), q)) => Some((Plain::Num((-v.0, v.1)), q)),
                    _ => None,
                }
            } else {
                None
            },
            Tok::LParen => match p_add(t, env, p + 1) {
                Some((v, q)) => Some((v, if q < t.len() && t[q].kind is RParen { q + 1 } else { q })),
                None => None,
            },
            _ => None,
        }
    }
}

/// Continue a product from `p` with the value `acc` so far.
pub open spec fn p_mul_rest(t: Seq<Token>, env: Map<Seq<char>, Binding>, p: int, acc: Plain) -> Option<(Plain, int)>
    decreases t.len() - p, 1nat,
{
    if 0 <= p < t.len() && (t[p].kind == Tok::Op(42) || t[p].kind == Tok::Op(47)) {
        let op: u8 = if t[p].kind == Tok::Op(42) { 42 } else { 47 };
        match p_primary(t, env, p + 1) {
            Some((v, q)) => if p + 1 < q <= t.len() {
                match plain_combine(op, acc, v) {
                    Some(w) => p_mul_rest(t, env, q, w),
                    None => None,
                }
            } else {
                None
            },
            None => None,
        }
    } else {
        Some((acc, p))
    }
}

pub open spec fn p_mul(t: Seq<Token>, env: Map<Seq<char>, Binding>, p: int) -> Option<(Plain, int)>
    decreases t.len() - p, 2nat,
{
    if p < 0 || p > t.len() {
        None
    } else {
        match p_primary(t, env, p) {
            Some((v, q)) => if p < q <= t.len() { p_mul_rest(t, env, q, v) } else { None },
            None => None,
        }
    }
}

/// Continue a sum from `p` with the value `acc` so far.
pub open spec fn p_add_rest(t: Seq<Token>, env: Map<Seq<char>, Binding>, p: int, acc: Plain) -> Option<(Plain, int)>
    decreases t.len() - p, 3nat,
{
    if 0 <= p < t.len() && (t[p].kind == Tok::Op(43) || t[p].kind == Tok::Op(45)) {
        let op: u8 = if t[p].kind == Tok::Op(43) { 43 } else { 45 };
        match p_mul(t, env, p + 1) {
            Some((v, q)) => if p + 1 < q <= t.len() {
                match plain_combine(op, acc, v) {
                    Some(w) => p_add_rest(t, env, q, w),
                    None => None,
                }
            } else {
                None
            },
            None => None,
        }
    } else {
        Some((acc, p))
    }
}

pub open spec fn p_add(t: Seq<Token>, env: Map<Seq<char>, Binding>, p: int) -> Option<(Plain, int)>
    decreases t.len() - p, 4nat,
{
    if p < 0 || p > t.len() {
        None
    } else {
        match p_mul(t, env, p) {
            Some((v, q)) => if p < q <= t.len() { p_add_rest(t, env, q, v) } else { None },
            None => None,
        }
    }
}

/// The value of a whole expression over numbers and texts, or `None` when it is an error.
pub open spec fn plain_value(t: Seq<Token>, env: Map<Seq<char>, Binding>) -> Option<Plain> {
    match p_add(t, env, 0) {
        Some((v, q)) => if q == t.len() { Some(v) } else { None },
        None => None,
    }
}

/// `r` is what the core gives for `spec` over numbers and texts.
pub open spec fn parse_gives(r: Result<(Value, usize), SchildpadError>, spec: Option<(Plain, int)>) -> bool {
    match spec {
        Some((v, q)) => r is Ok && plain_of(r->Ok_0.0) == Some(v) && r->Ok_0.1 == q,
        None => r is Err,
    }
}

/// `r` is what the arithmetic core gives for `spec`: the exact number and position, or an error.
pub open spec fn parse_matches(r: Result<(Value, usize), SchildpadError>, spec: Option<((int, int), int)>) -> bool {
    match spec {
        Some((v, q)) => r is Ok && r->Ok_0.0 is Getal && r->Ok_0.0->Getal_0@ == v && r->Ok_0.1 == q,
        None => r is Err,
    }
}

/// A lone plain name (no interpolation) evaluates to its binding's value; unbound or nil, it
/// is an error naming it.
pub open spec fn name_value_ok(env: Map<Seq<char>, Binding>, raw: Seq<char>, r: Result<Value, SchildpadError>) -> bool {
    let k = key_of(raw);
    if !env.contains_key(k) {
        r is Err && r->Err_0.kind is UnknownName && r->Err_0.kind->UnknownName_name@ == raw
    } else if env[k].value is Nil {
        r is Err && r->Err_0.kind is NilInExpr && r->Err_0.kind->NilInExpr_name@ == raw
    } else {
        r is Ok && same_as(r->Ok_0, env[k].value)
    }
}

/// The token at `pos` is the last one and a plain name.
pub open spec fn lone_plain_name(toks: Seq<Token>, pos: int) -> bool {
    pos + 1 == toks.len() && toks[pos].kind is Name && !toks[pos].kind->Name_0@.contains('\'')
}

pub open spec fn value_part(r: Result<(Value, usize), SchildpadError>) -> Result<Value, SchildpadError> {
    match r {
        Ok((v, _)) => Ok(v),
        Err(e) => Err(e),
    }
}

/// Where a well-formed expression over numbers and texts stops short of the last token: the
/// position of the first token it leaves over.
pub open spec fn unconsumed_from(t: Seq<Token>, env: Map<Seq<char>, Binding>) -> Option<int> {
    match p_add(t, env, 0) {
        Some((_, q)) => if q < t.len() { Some(q) } else { None },
        None => None,
    }
}

/// `r` is the error for tokens left over from `q` on, quoting them.
pub open spec fn leftover_error(r: Result<Value, SchildpadError>, t: Seq<Token>, q: int) -> bool {
    &&& r is Err
    &&& r->Err_0.kind is UnconsumedTokens
    &&& r->Err_0.kind->UnconsumedTokens_leftover@ == crate::engine::joined_text(t.subrange(q, t.len() as int))
}

/// At `p` stands a number literal divided by a number literal that is zero.
pub open spec fn divides_literal_zero(t: Seq<Token>, p: int) -> bool {
    &&& 0 <= p && p + 2 < t.len()
    &&& t[p].kind is Number
    &&& t[p + 1].kind == Tok::Op(47)
    &&& t[p + 2].kind is Number
    &&& t[p + 2].kind->Number_0@.0 == 0
}

/// Evaluate a complete expression and require that it consumes every token.
pub fn eval(toks: &[Token], env: &Env, line: u32) -> (r: Result<Value, SchildpadError>)
    ensures
        expr_contract(toks@, line, r),
        r is Ok ==> refs_from(env@, r->Ok_0),
        arith_only(toks@, env@) ==> match arith_value(toks@, env@) {
            Some(v) => r is Ok && r->Ok_0 is Getal && r->Ok_0->Getal_0@ == v,
            None => r is Err,
        },
        plain_only(toks@, env@) ==> match plain_value(toks@, env@) {
            Some(v) => r is Ok && plain_of(r->Ok_0) == Some(v),
            None => r is Err,
        },
        lone_plain_name(toks@, 0) ==> name_value_ok(env@, toks@[0].kind->Name_0@, r),
        plain_only(toks@, env@) && unconsumed_from(toks@, env@) is Some ==> leftover_error(
            r,
            toks@,
            unconsumed_from(toks@, env@)->0,
        ),
        divides_literal_zero(toks@, 0) ==> fails_with(r, ErrorKind::DivideByZero),
{
    let b = max_name_len(toks);
    eval_bounded(toks, env, line, Ghost(b as nat))
}

/// What is promised of every evaluation: errors carry the line; an empty expression asks for
/// more; a lone literal is its value; bare `random` has no domain; a success is never nil.
pub open spec fn expr_contract(toks: Seq<Token>, line: u32, r: Result<Value, SchildpadError>) -> bool {
    &&& error_line_is(r, line)
    &&& toks.len() == 0 ==> fails_with(r, ErrorKind::ExpectedMoreInExpr)
    &&& toks.len() > 0 && toks[0].kind == Tok::Random ==> fails_with(r, ErrorKind::BareRandom)
    &&& toks.len() == 1 && is_literal(toks[0].kind) ==> (r is Ok && literal_value_ok(toks[0].kind, r->Ok_0))
    &&& r is Ok ==> !(r->Ok_0 is Nil)
}

fn max_name_len(toks: &[Token]) -> (b: usize)
    ensures
        names_bounded(toks@, b as nat),
{
    let mut b: usize = 0;
    let mut i: usize = 0;
    while i < toks.len()
        invariant
            i <= toks@.len(),
            forall|k: int| 0 <= k < i ==> name_len_within(#[trigger] toks@[k].kind, b as nat),
        decreases toks@.len() - i,
    {
        if let Tok::Name(s) = &toks[i].kind {
            let l = s.as_str().unicode_len();
            if l > b {
                b = l;
            }
        }
        i += 1;
    }
    b
}

pub fn eval_bounded(toks: &[Token], env: &Env, line: u32, Ghost(bound): Ghost<nat>) -> (r: Result<Value, SchildpadError>)
    requires
        names_bounded(toks@, bound),
    ensures
        expr_contract(toks@, line, r),
        r is Ok ==> refs_from(env@, r->Ok_0),
        arith_only(toks@, env@) ==> match arith_value(toks@, env@) {
            Some(v) => r is Ok && r->Ok_0 is Getal && r->Ok_0->Getal_0@ == v,
            None => r is Err,
        },
        plain_only(toks@, env@) ==> match plain_value(toks@, env@) {
            Some(v) => r is Ok && plain_of(r->Ok_0) == Some(v),
            None => r is Err,
        },
        lone_plain_name(toks@, 0) ==> name_value_ok(env@, toks@[0].kind->Name_0@, r),
        plain_only(toks@, env@) && unconsumed_from(toks@, env@) is Some ==> leftover_error(
            r,
            toks@,
            unconsumed_from(toks@, env@)->0,
        ),
        divides_literal_zero(toks@, 0) ==> fails_with(r, ErrorKind::DivideByZero),
    decreases bound, 2nat, toks@.len(), 4nat,
{
    let (v, p) = parse_expr(toks, 0, env, line, Ghost(bound))?;
    if p != toks.len() {
        let leftover = remaining_text(toks, p);
        return Err(err(line, ErrorKind::UnconsumedTokens { leftover }));
    }
    Ok(v)
}

pub open spec fn parse_ok(toks: Seq<Token>, pos: usize, line: u32, r: Result<(Value, usize), SchildpadError>) -> bool {
    &&& r is Ok ==> pos < r->Ok_0.1 <= toks.len() && !(r->Ok_0.0 is Nil)
    &&& error_line_is(r, line)
    &&& pos >= toks.len() ==> fails_with(r, ErrorKind::ExpectedMoreInExpr)
    &&& pos < toks.len() && toks[pos as int].kind == Tok::Random ==> fails_with(r, ErrorKind::BareRandom)
    &&& pos < toks.len() && pos + 1 == toks.len() && is_literal(toks[pos as int].kind) ==> (r is Ok && literal_value_ok(
        toks[pos as int].kind,
        r->Ok_0.0,
    ) && r->Ok_0.1 == toks.len())
}

fn parse_expr(toks: &[Token], pos: usize, env: &Env, line: u32, Ghost(bound): Ghost<nat>) -> (r: Result<(Value, usize), SchildpadError>)
    requires
        pos <= toks@.len(),
        names_bounded(toks@, bound),
    ensures
        parse_ok(toks@, pos, line, r),
        r is Ok ==> refs_from(env@, r->Ok_0.0),
        arith_only(toks@, env@) ==> parse_matches(r, a_add(toks@, env@, pos as int)),
        plain_only(toks@, env@) ==> parse_gives(r, p_add(toks@, env@, pos as int)),
        lone_plain_name(toks@, pos as int) ==> name_value_ok(env@, toks@[pos as int].kind->Name_0@, value_part(r)),
        divides_literal_zero(toks@, pos as int) ==> fails_with(r, ErrorKind::DivideByZero),
    decreases bound, 1nat, toks@.len() - pos, 3nat,
{
    parse_add(toks, pos, env, line, Ghost(bound))
}

fn is_op(t: &Token, a: u8, b: u8) -> (r: bool)
    ensures
        r == (t.kind == Tok::Op(a) || t.kind == Tok::Op(b)),
{
    match &t.kind {
        Tok::Op(o) => *o == a || *o == b,
        _ => false,
    }
}

fn parse_add(toks: &[Token], pos: usize, env: &Env, line: u32, Ghost(bound): Ghost<nat>) -> (r: Result<(Value, usize), SchildpadError>)
    requires
        pos <= toks@.len(),
        names_bounded(toks@, bound),
    ensures
        parse_ok(toks@, pos, line, r),
        r is Ok ==> refs_from(env@, r->Ok_0.0),
        arith_only(toks@, env@) ==> parse_matches(r, a_add(toks@, env@, pos as int)),
        plain_only(toks@, env@) ==> parse_gives(r, p_add(toks@, env@, pos as int)),
        lone_plain_name(toks@, pos as int) ==> name_value_ok(env@, toks@[pos as int].kind->Name_0@, value_part(r)),
        divides_literal_zero(toks@, pos as int) ==> fails_with(r, ErrorKind::DivideByZero),
    decreases bound, 1nat, toks@.len() - pos, 2nat,
{
    let (mut left, mut p) = parse_mul(toks, pos, env, line, Ghost(bound))?;
    while p < toks.len() && is_op(&toks[p], 43, 45)
        invariant
            pos < p <= toks@.len(),
            !divides_literal_zero(toks@, pos as int),
            names_bounded(toks@, bound),
            !(left is Nil),
            refs_from(env@, left),
            pos + 1 == toks@.len() ==> p == toks@.len(),
            pos + 1 == toks@.len() ==> literal_value_ok(toks@[pos as int].kind, left),
            toks@[pos as int].kind != Tok::Random,
            arith_only(toks@, env@) ==> left is Getal && a_add(toks@, env@, pos as int) == a_add_rest(toks@, env@, p as int, left->Getal_0@),
            plain_only(toks@, env@) ==> plain_of(left) is Some && p_add(toks@, env@, pos as int) == p_add_rest(toks@, env@, p as int, plain_of(left)->0),
            lone_plain_name(toks@, pos as int) ==> name_value_ok(env@, toks@[pos as int].kind->Name_0@, Ok(left)),
        decreases toks@.len() - p,
    {
        let op = if is_op(&toks[p], 43, 43) { 43u8 } else { 45u8 };
        let (right, p2) = parse_mul(toks, p + 1, env, line, Ghost(bound))?;
        left = apply_op(op, left, right, line)?;
        p = p2;
    }
    Ok((left, p))
}

fn parse_mul(toks: &[Token], pos: usize, env: &Env, line: u32, Ghost(bound): Ghost<nat>) -> (r: Result<(Value, usize), SchildpadError>)
    requires
        pos <= toks@.len(),
        names_bounded(toks@, bound),
    ensures
        parse_ok(toks@, pos, line, r),
        r is Ok ==> refs_from(env@, r->Ok_0.0),
        arith_only(toks@, env@) ==> parse_matches(r, a_mul(toks@, env@, pos as int)),
        plain_only(toks@, env@) ==> parse_gives(r, p_mul(toks@, env@, pos as int)),
        lone_plain_name(toks@, pos as int) ==> name_value_ok(env@, toks@[pos as int].kind->Name_0@, value_part(r)),
        divides_literal_zero(toks@, pos as int) ==> fails_with(r, ErrorKind::DivideByZero),
    decreases bound, 1nat, toks@.len() - pos, 1nat,
{
    let (mut left, mut p) = parse_primary(toks, pos, env, line, Ghost(bound))?;
    while p < toks.len() && is_op(&toks[p], 42, 47)
        invariant
            pos < p <= toks@.len(),
            names_bounded(toks@, bound),
            !(left is Nil),
            refs_from(env@, left),
            pos + 1 == toks@.len() ==> p == toks@.len(),
            pos + 1 == toks@.len() ==> literal_value_ok(toks@[pos as int].kind, left),
            toks@[pos as int].kind != Tok::Random,
            arith_only(toks@, env@) ==> left is Getal && a_mul(toks@, env@, pos as int) == a_mul_rest(toks@, env@, p as int, left->Getal_0@),
            plain_only(toks@, env@) ==> plain_of(left) is Some && p_mul(toks@, env@, pos as int) == p_mul_rest(toks@, env@, p as int, plain_of(left)->0),
            lone_plain_name(toks@, pos as int) ==> name_value_ok(env@, toks@[pos as int].kind->Name_0@, Ok(left)),
            divides_literal_zero(toks@, pos as int) ==> p == pos + 1 && left == Value::Getal(toks@[pos as int].kind->Number_0),
        decreases toks@.len() - p,
    {
        let op = if is_op(&toks[p], 42, 42) { 42u8 } else { 47u8 };
        let (right, p2) = parse_primary(toks, p + 1, env, line, Ghost(bound))?;
        left = apply_op(op, left, right, line)?;
        p = p2;
    }
    Ok((left, p))
}

fn parse_primary(toks: &[Token], pos: usize, env: &Env, line: u32, Ghost(bound): Ghost<nat>) -> (r: Result<(Value, usize), SchildpadError>)
    requires
        pos <= toks@.len(),
        names_bounded(toks@, bound),
    ensures
        parse_ok(toks@, pos, line, r),
        r is Ok ==> refs_from(env@, r->Ok_0.0),
        arith_only(toks@, env@) ==> parse_matches(r, a_primary(toks@, env@, pos as int)),
        plain_only(toks@, env@) ==> parse_gives(r, p_primary(toks@, env@, pos as int)),
        lone_plain_name(toks@, pos as int) ==> name_value_ok(env@, toks@[pos as int].kind->Name_0@, value_part(r)),
        pos < toks@.len() && toks@[pos as int].kind is Number ==> r == Ok::<(Value, usize), SchildpadError>(
            (Value::Getal(toks@[pos as int].kind->Number_0), (pos + 1) as usize),
        ),
    decreases bound, 1nat, toks@.len() - pos, 0nat,
{
    if pos >= toks.len() {
        return Err(err(line, ErrorKind::ExpectedMoreInExpr));
    }
    match &toks[pos].kind {
        Tok::LParen => {
            let (v, mut p) = parse_expr(toks, pos + 1, env, line, Ghost(bound))?;
            if p < toks.len() {
                if let Tok::RParen = &toks[p].kind {
                    p += 1;
                }
            }
            Ok((v, p))
        },
        Tok::Op(o) => {
            if *o == 45 {
                let (v, p) = parse_primary(toks, pos + 1, env, line, Ghost(bound))?;
                let n = to_num(&v, line)?;
                Ok((Value::Getal(n.neg()), p))
            } else {
                Err(err(line, ErrorKind::NotUnderstood { text: tok_text(&toks[pos].kind) }))
            }
        },
        Tok::Number(n) => Ok((Value::Getal(*n), pos + 1)),
        Tok::BigNumber(_) => Err(err(line, ErrorKind::NumberOutOfRange)),
        Tok::Str(s) => Ok((Value::Tekst(s.clone()), pos + 1)),
        Tok::Const(c) => {
            let v = match constant_value(*c) {
                ConstVal::Draai(d) => Value::Draairichting(d),
                ConstVal::Getal(n) => {
                    if n > i64::MIN {
                        Value::Getal(Getal::from_i64(n))
                    } else {
                        return Err(err(line, ErrorKind::NumberOutOfRange));
                    }
                },
                ConstVal::Rest => Value::Toon(Toon::rest(Getal::from_i64(1))),
            };
            Ok((v, pos + 1))
        },
        Tok::Note(note, beats) => Ok((Value::Toon(Toon::pitched(note_hz(*note), *beats)), pos + 1)),
        Tok::Colour(c) => Ok((Value::Kleur(*c), pos + 1)),
        Tok::Osc(o) => Ok((Value::Oscillator(*o), pos + 1)),
        Tok::Env(e) => Ok((Value::Omhullende(*e), pos + 1)),
        Tok::Random => Err(err(line, ErrorKind::BareRandom)),
        Tok::Name(raw) => {
            proof {
                assert(name_len_within(toks@[pos as int].kind, bound));
            }
            let v = lookup_value(raw, env, line, Ghost(bound))?;
            Ok((v, pos + 1))
        },
        other => Err(err(line, ErrorKind::NotUnderstood { text: tok_text(other) })),
    }
}

/// The value a (possibly interpolated) name refers to; nil and unknown names are errors.
fn lookup_value(raw: &String, env: &Env, line: u32, Ghost(bound): Ghost<nat>) -> (r: Result<Value, SchildpadError>)
    requires
        raw@.len() <= bound,
    ensures
        error_line_is(r, line),
        r is Ok ==> !(r->Ok_0 is Nil),
        r is Ok ==> refs_from(env@, r->Ok_0),
        !raw@.contains('\'') ==> name_value_ok(env@, raw@, r),
    decreases bound, 1nat, 0nat, 0nat,
{
    let res = resolve_name_bounded(raw.as_str(), env, line)?;
    match env.get(res.name.as_str()) {
        None => {
            if res.built {
                Err(err(line, ErrorKind::DynamicNameNotFound { full: res.name, prefix: res.prefix, var: res.var }))
            } else {
                Err(err(line, ErrorKind::UnknownName { name: res.name }))
            }
        },
        Some(b) => {
            if let Value::Nil = b.value {
                Err(err(line, ErrorKind::NilInExpr { name: res.name }))
            } else {
                let v = copy_value(&b.value);
                proof {
                    let k = key_of(res.name@);
                    assert forall|n: nat| #[trigger] env_refs_below(env@, n) implies value_refs_below(v, n) by {
                        assert(env@.contains_key(k));
                    }
                }
                Ok(v)
            }
        },
    }
}

pub open spec fn numeric_value(v: Value) -> Option<(int, int)> {
    match v {
        Value::Getal(n) => Some(n@),
        Value::Draairichting(d) => Some((d as int, 1int)),
        _ => None,
    }
}

/// A getal or a draairichting as a number; anything else is a type error.
pub fn to_num(v: &Value, line: u32) -> (r: Result<Getal, SchildpadError>)
    ensures
        error_line_is(r, line),
        numeric_value(*v) is None ==> r is Err && r->Err_0.kind is TypeMismatch,
        numeric_value(*v) is Some && r is Ok ==> r->Ok_0@ == numeric_value(*v).unwrap(),
        (v is Getal) ==> r == Ok::<Getal, SchildpadError>(v->Getal_0),
        (v is Draairichting && v->Draairichting_0 > i64::MIN) ==> r is Ok,
{
    match v {
        Value::Getal(n) => Ok(*n),
        Value::Draairichting(d) => {
            if *d > i64::MIN {
                Ok(Getal::from_i64(*d))
            } else {
                Err(err(line, ErrorKind::NumberOutOfRange))
            }
        },
        other => Err(err(line, ErrorKind::TypeMismatch { wanted: string_of("getal"), got: string_of(other.type_of().nl()) })),
    }
}

/// Apply a binary operator. `+` with any text operand concatenates; otherwise both operands
/// must be numbers; division by zero is an error.
pub fn apply_op(op: u8, a: Value, b: Value, line: u32) -> (r: Result<Value, SchildpadError>)
    ensures
        error_line_is(r, line),
        a is Getal && b is Getal && (op == 42 || op == 43 || op == 45 || op == 47) ==> match combine(
            op,
            a->Getal_0@,
            b->Getal_0@,
        ) {
            Some(z) => r is Ok && r->Ok_0 is Getal && r->Ok_0->Getal_0@ == z,
            None => r is Err,
        },
        r is Ok ==> !(r->Ok_0 is Nil),
        r is Ok ==> r->Ok_0 is Getal || r->Ok_0 is Tekst,
        op == 43 && (a is Tekst || b is Tekst) ==> r is Ok && r->Ok_0 is Tekst
            && r->Ok_0->Tekst_0@ == simple_text(a) + simple_text(b),
        op == 47 && !(a is Tekst) && numeric_value(a) is Some && numeric_value(b) is Some
            && numeric_value(b).unwrap().0 == 0 && (a !is Draairichting || a->Draairichting_0 > i64::MIN)
            && (b !is Draairichting || b->Draairichting_0 > i64::MIN) ==> fails_with(r, ErrorKind::DivideByZero),
        !(op == 43 && (a is Tekst || b is Tekst)) && (numeric_value(a) is None || numeric_value(b) is None) ==> r is Err,
        !(a is Tekst) && !(b is Tekst) && numeric_value(a) is Some && numeric_value(b) is Some && r is Ok ==> ({
            let (x, y) = (numeric_value(a).unwrap(), numeric_value(b).unwrap());
            &&& r->Ok_0 is Getal
            &&& op == 43 ==> crate::number::sum_of(x, y) == Some(r->Ok_0->Getal_0@)
            &&& op == 45 ==> crate::number::difference_of(x, y) == Some(r->Ok_0->Getal_0@)
            &&& op == 42 ==> crate::number::product_of(x, y) == Some(r->Ok_0->Getal_0@)
            &&& op == 47 ==> crate::number::quotient_of(x, y) == Some(r->Ok_0->Getal_0@)
        }),
{
    let a_text = if let Value::Tekst(_) = a { true } else { false };
    let b_text = if let Value::Tekst(_) = b { true } else { false };
    if op == 43 && (a_text || b_text) {
        let mut out: Vec<char> = Vec::new();
        push_simple(&a, &mut out);
        push_simple(&b, &mut out);
        return Ok(Value::Tekst(chars_to_string(out.as_slice())));
    }
    let x = to_num(&a, line)?;
    let y = to_num(&b, line)?;
    let r = if op == 43 {
        x.add(&y)
    } else if op == 45 {
        x.sub(&y)
    } else if op == 42 {
        x.mul(&y)
    } else if op == 47 {
        if y.is_zero() {
            return Err(err(line, ErrorKind::DivideByZero));
        }
        x.div(&y)
    } else {
        Some(x)
    };
    match r {
        Some(z) => Ok(Value::Getal(z)),
        None => Err(err(line, ErrorKind::NumberOutOfRange)),
    }
}

/// A turtle-free rendering for concatenation.
pub open spec fn simple_text(v: Value) -> Seq<char> {
    match v {
        Value::Tekst(s) => s@,
        Value::Getal(n) => crate::value::num_text(n@),
        Value::Draairichting(d) => crate::text::signed_decimal(d as int),
        Value::Kleur(c) => crate::vocab::colour_word(c)@,
        _ => "nil"@,
    }
}

fn push_simple(v: &Value, out: &mut Vec<char>)
    ensures
        final(out)@ == old(out)@ + simple_text(*v),
{
    match v {
        Value::Tekst(s) => {
            let cs = crate::text::str_chars(s.as_str());
            push_chars(out, cs.as_slice());
        },
        Value::Getal(n) => push_num(n, out),
        Value::Draairichting(d) => crate::text::push_signed_decimal(*d as i128, out),
        Value::Kleur(c) => push_str(out, colour_name(*c)),
        _ => push_str(out, "nil"),
    }
}

/// The source text of the tokens from `pos` on, separated by spaces.
fn remaining_text(toks: &[Token], pos: usize) -> (s: String)
    requires
        pos <= toks@.len(),
    ensures
        s@ == crate::engine::joined_text(toks@.subrange(pos as int, toks@.len() as int)),
{
    let mut out: Vec<char> = Vec::new();
    let mut i = pos;
    proof {
        assert(toks@.subrange(pos as int, pos as int) =~= Seq::<Token>::empty());
    }
    while i < toks.len()
        invariant
            pos <= i <= toks@.len(),
            out@ == crate::engine::joined_text(toks@.subrange(pos as int, i as int)),
        decreases toks@.len() - i,
    {
        proof {
            let next = toks@.subrange(pos as int, i + 1);
            assert(next.drop_last() =~= toks@.subrange(pos as int, i as int));
            assert(next.last() == toks@[i as int]);
        }
        let ghost before = out@;
        if out.len() > 0 {
            out.push(' ');
        }
        push_tok_text(&toks[i].kind, &mut out);
        proof {
            if before.len() > 0 {
                assert(out@ =~= before + seq![' '] + tok_source(toks@[i as int].kind));
            } else {
                assert(out@ =~= tok_source(toks@[i as int].kind));
            }
        }
        i += 1;
    }
    chars_to_string(out.as_slice())
}

fn push_tok_text(t: &Tok, out: &mut Vec<char>)
    ensures
        final(out)@ == old(out)@ + tok_source(*t),
{
    match t {
        Tok::Number(n) => push_num(n, out),
        Tok::BigNumber(s) => {
            let cs = crate::text::str_chars(s.as_str());
            push_chars(out, cs.as_slice());
        },
        Tok::Str(s) => {
            out.push('"');
            let cs = crate::text::str_chars(s.as_str());
            push_chars(out, cs.as_slice());
            out.push('"');
        },
        Tok::Op(c) => out.push(*c as char),
        Tok::LParen => out.push('('),
        Tok::RParen => out.push(')'),
        Tok::LBracket => out.push('['),
        Tok::RBracket => out.push(']'),
        Tok::Name(s) => {
            let cs = crate::text::str_chars(s.as_str());
            push_chars(out, cs.as_slice());
        },
        Tok::Verb(v) => push_str(out, verb_name(*v)),
        Tok::Colour(c) => push_str(out, colour_name(*c)),
        Tok::Osc(o) => push_str(out, osc_name(*o)),
        Tok::Env(e) => push_str(out, envelope_name(*e)),
        Tok::Const(c) => push_str(out, constant_name(*c)),
        Tok::Note(n, _) => push_str(out, note_name(*n)),
        Tok::Type(t) => push_str(out, t.nl()),
        Tok::Maak => push_str(out, "maak"),
        Tok::Print => push_str(out, "print"),
        Tok::Random => push_str(out, "random"),
        Tok::WrapMode => push_str(out, "wrapmode"),
        Tok::Loop(w) => match w {
            LoopWord::Herhaal => push_str(out, "herhaal"),
            LoopWord::Doe => push_str(out, "doe"),
        },
        Tok::LoopKeer => push_str(out, "keer"),
        Tok::Stop => push_str(out, "stop"),
        Tok::If => push_str(out, "als"),
        Tok::Else => push_str(out, "anders"),
        Tok::Compare(_) => push_str(out, "vergelijking"),
        Tok::Unknown(c) => out.push(*c),
    }
    assert(out@ =~= old(out)@ + tok_source(*t));
}

/// The source text of a token, for error messages.
pub open spec fn tok_source(t: Tok) -> Seq<char> {
    match t {
        Tok::Number(n) => crate::value::num_text(n@),
        Tok::BigNumber(s) => s@,
        Tok::Str(s) => seq!['"'] + s@ + seq!['"'],
        Tok::Op(c) => seq![c as char],
        Tok::LParen => seq!['('],
        Tok::RParen => seq![')'],
        Tok::LBracket => seq!['['],
        Tok::RBracket => seq![']'],
        Tok::Name(s) => s@,
        Tok::Verb(v) => crate::vocab::verb_word(v)@,
        Tok::Colour(c) => crate::vocab::colour_word(c)@,
        Tok::Osc(o) => crate::vocab::osc_word(o)@,
        Tok::Env(e) => crate::vocab::envelope_word(e)@,
        Tok::Const(c) => crate::vocab::constant_word(c)@,
        Tok::Note(n, _) => crate::vocab::note_word(n)@,
        Tok::Type(t) => crate::vocab::type_word(t)@,
        Tok::Maak => "maak"@,
        Tok::Print => "print"@,
        Tok::Random => "random"@,
        Tok::WrapMode => "wrapmode"@,
        Tok::Loop(LoopWord::Herhaal) => "herhaal"@,
        Tok::Loop(LoopWord::Doe) => "doe"@,
        Tok::LoopKeer => "keer"@,
        Tok::Stop => "stop"@,
        Tok::If => "als"@,
        Tok::Else => "anders"@,
        Tok::Compare(_) => "vergelijking"@,
        Tok::Unknown(c) => seq![c],
    }
}

/// Best-effort source text of a token, for error messages.
pub fn tok_text(t: &Tok) -> (s: String)
    ensures
        s@ == tok_source(*t),
{
    let mut out: Vec<char> = Vec::new();
    push_tok_text(t, &mut out);
    assert(out@ =~= tok_source(*t));
    chars_to_string(out.as_slice())
}

} // verus!
