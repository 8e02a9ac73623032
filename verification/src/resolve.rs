//! Dynamic name resolution: a name like `a-'i` is the literal `a-` followed by the runtime
//! value of `i`. The result carries the structured decomposition (the literal prefix and the
//! source text of the first interpolated expression) so a failed lookup reconstructs the
//! child's intent precisely — the error is a byproduct of resolution, not string surgery.

use vstd::prelude::*;

use crate::env::Env;
use crate::error::SchildpadError;
use crate::env::{key_of, Binding};
use crate::expr::{arith_only, arith_value, eval_bounded, lone_plain_name, name_value_ok, names_bounded, plain_of, plain_only, plain_value};
use crate::lexer::{lemma_lexed_names_bounded, lexed, name_char, tokenize_chars, Tok, Token};
use crate::text::{chars_to_string, copy_range, push_chars, push_signed_decimal, str_chars, string_of};
use crate::value::{num_text, push_num, Value};

verus! {

#[derive(Debug, Clone)]
pub struct Resolved {
    pub name: String,
    /// true if the name was built via interpolation (`a-'i`), false for a plain identifier.
    pub built: bool,
    /// the literal part before the first interpolation (`a-`), for the error message.
    pub prefix: String,
    /// the source text of the first interpolated expression (`i`, `(i+1)`), for the message.
    pub var: String,
}

/// The index of the first `c` in `cs` at or after `from` (before `to`), or `to`.
fn find_char(cs: &[char], from: usize, to: usize, c: char) -> (r: usize)
    requires
        from <= to <= cs@.len(),
    ensures
        from <= r <= to,
        r < to ==> cs@[r as int] == c,
        forall|k: int| from <= k < r ==> #[trigger] cs@[k] != c,
        r == find_in(cs@, from as int, to as int, c),
{
    let mut i = from;
    while i < to && cs[i] != c
        invariant
            from <= i <= to <= cs@.len(),
            forall|k: int| from <= k < i ==> #[trigger] cs@[k] != c,
            find_in(cs@, from as int, to as int, c) == find_in(cs@, i as int, to as int, c),
        decreases to - i,
    {
        i += 1;
    }
    i
}

/// The first position in `[from, to)` that is not a name character (`to` if none).
fn name_split(cs: &[char], from: usize, to: usize) -> (r: usize)
    requires
        from <= to <= cs@.len(),
    ensures
        from <= r <= to,
        r == name_end(cs@, from as int, to as int),
{
    let mut i = from;
    while i < to && crate::lexer::is_name_char(cs[i])
        invariant
            from <= i <= to <= cs@.len(),
            name_end(cs@, from as int, to as int) == name_end(cs@, i as int, to as int),
        decreases to - i,
    {
        i += 1;
    }
    i
}

/// The first position in `[from, to)` holding `c` (`to` if none).
pub open spec fn find_in(s: Seq<char>, from: int, to: int, c: char) -> int
    decreases to - from,
{
    if from >= to {
        to
    } else if s[from] == c {
        from
    } else {
        find_in(s, from + 1, to, c)
    }
}

/// The first position in `[from, to)` that is not a name character (`to` if none).
pub open spec fn name_end(s: Seq<char>, from: int, to: int) -> int
    decreases to - from,
{
    if from >= to {
        to
    } else if !name_char(s[from]) {
        from
    } else {
        name_end(s, from + 1, to)
    }
}

/// The source text of the first interpolated expression of a name: what follows the first
/// `'` up to the next `'`, either `(expr)` (kept with its parentheses, the `)` supplied when
/// missing) or the run of name characters there.
pub open spec fn first_var_text(raw: Seq<char>) -> Seq<char> {
    let n = raw.len() as int;
    let q = find_in(raw, 0, n, '\'');
    let start = q + 1;
    let end = find_in(raw, start, n, '\'');
    if start < end && raw[start] == '(' {
        let close = find_in(raw, start + 1, end, ')');
        seq!['('] + raw.subrange(start + 1, close) + seq![')']
    } else {
        raw.subrange(start, name_end(raw, start, end))
    }
}

/// What an interpolated value contributes to a name: a number's printed form or a text.
pub open spec fn name_part(v: Value) -> Seq<char> {
    match v {
        Value::Getal(n) => num_text(n@),
        Value::Draairichting(d) => crate::text::signed_decimal(d as int),
        Value::Tekst(s) => s@,
        _ => Seq::empty(),
    }
}

fn push_name_part(v: &Value, out: &mut Vec<char>)
    ensures
        final(out)@ == old(out)@ + name_part(*v),
{
    match v {
        Value::Getal(n) => push_num(n, out),
        Value::Draairichting(d) => push_signed_decimal(*d as i128, out),
        Value::Tekst(s) => {
            let cs = str_chars(s.as_str());
            push_chars(out, cs.as_slice());
        },
        _ => {
            assert(out@ =~= old(out)@ + name_part(*v));
        },
    }
}

pub open spec fn first_quote(s: Seq<char>) -> int
    decreases s.len(),
{
    if s.len() == 0 { 0 } else if s[0] == '\'' { 0 } else { 1 + first_quote(s.drop_first()) }
}

/// Resolve a name: a plain name is itself; an interpolated one is built by evaluating each
/// interpolated expression.
pub fn resolve_name(raw: &str, env: &Env, line: u32) -> (r: Result<Resolved, SchildpadError>)
    ensures
        resolve_contract(raw@, line, r),
        raw@.contains('\'') && segments_evaluable(raw@, env@) ==> r is Ok,
        raw@.contains('\'') && r is Ok ==> built_name(raw@, env@, r->Ok_0.name@),
{
    resolve_name_bounded(raw, env, line)
}

/// A plain name resolves to itself.
pub open spec fn plain_resolution(raw: Seq<char>, res: Resolved) -> bool {
    &&& res.name@ == raw
    &&& !res.built
    &&& res.prefix@ == Seq::<char>::empty()
    &&& res.var@ == Seq::<char>::empty()
}

/// An interpolated name keeps its literal prefix (everything before the first `'`) and
/// reports it.
pub open spec fn built_resolution(raw: Seq<char>, res: Resolved) -> bool {
    &&& res.built
    &&& exists|q: int|
        0 <= q < raw.len() && raw[q] == '\''
            && (forall|k: int| 0 <= k < q ==> #[trigger] raw[k] != '\'')
            && res.prefix@ == raw.subrange(0, q)
            && q <= res.name@.len()
            && res.name@.subrange(0, q) == raw.subrange(0, q)
}

/// Where the segment that starts at `start` ends: at the next `'` or the end of the name.
pub open spec fn seg_end(raw: Seq<char>, start: int) -> int {
    find_in(raw, start, raw.len() as int, '\'')
}

/// The source of the expression interpolated by the segment at `start`: inside `(..)` (to the
/// first `)`, or to the segment's end when none), or the run of name characters there.
pub open spec fn seg_expr(raw: Seq<char>, start: int) -> Seq<char> {
    let end = seg_end(raw, start);
    if start < end && raw[start] == '(' {
        let close = find_in(raw, start + 1, end, ')');
        raw.subrange(start + 1, close)
    } else {
        raw.subrange(start, name_end(raw, start, end))
    }
}

/// The literal text that follows the segment's expression up to the segment's end.
pub open spec fn seg_rest(raw: Seq<char>, start: int) -> Seq<char> {
    let end = seg_end(raw, start);
    if start < end && raw[start] == '(' {
        let close = find_in(raw, start + 1, end, ')');
        if close < end { raw.subrange(close + 1, end) } else { Seq::empty() }
    } else {
        raw.subrange(name_end(raw, start, end), end)
    }
}

/// Where the `k`-th segment (counting from zero) starts: just after the `k+1`-th `'`.
pub open spec fn seg_start(raw: Seq<char>, k: nat) -> int
    decreases k,
{
    if k == 0 {
        find_in(raw, 0, raw.len() as int, '\'') + 1
    } else {
        seg_end(raw, seg_start(raw, (k - 1) as nat)) + 1
    }
}

/// The `k`-th segment is the last one.
pub open spec fn last_seg(raw: Seq<char>, k: nat) -> bool {
    seg_end(raw, seg_start(raw, k)) >= raw.len()
}

/// `v` is a value the expression `text` evaluates to: exact for arithmetic and for numbers and
/// texts, the binding's value for a lone plain name, never nil.
#[verifier::opaque]
pub open spec fn evaluates(text: Seq<char>, env: Map<Seq<char>, Binding>, v: Value) -> bool {
    exists|ts: Seq<Token>|
        #[trigger] lexed(text, ts) && {
            &&& arith_only(ts, env) ==> (arith_value(ts, env) is Some && v is Getal && v->Getal_0@ == arith_value(ts, env)->0)
            &&& plain_only(ts, env) ==> (plain_value(ts, env) is Some && plain_of(v) == plain_value(ts, env))
            &&& lone_plain_name(ts, 0) ==> name_value_ok(env, ts[0].kind->Name_0@, Ok(v))
            &&& !(v is Nil)
        }
}

/// Every way of reading `text` is an expression over numbers and texts with a value, or a lone
/// plain name bound to a value.
#[verifier::opaque]
pub open spec fn evaluable(text: Seq<char>, env: Map<Seq<char>, Binding>) -> bool {
    forall|ts: Seq<Token>|
        #[trigger] lexed(text, ts) ==> ((plain_only(ts, env) && plain_value(ts, env) is Some) || (lone_plain_name(ts, 0)
            && env.contains_key(key_of(ts[0].kind->Name_0@)) && !(env[key_of(ts[0].kind->Name_0@)].value is Nil)))
}

/// Each segment up to and including the last is evaluable.
#[verifier::opaque]
pub open spec fn segments_evaluable(raw: Seq<char>, env: Map<Seq<char>, Binding>) -> bool {
    forall|k: nat|
        (forall|j: nat| j < k ==> !#[trigger] last_seg(raw, j)) ==> #[trigger] evaluable(seg_expr(raw, seg_start(raw, k)), env)
}

/// The name built from the values `vals` of the first `vals.len()` segments, after the prefix.
pub open spec fn assemble(raw: Seq<char>, vals: Seq<Value>) -> Seq<char>
    decreases vals.len(),
{
    if vals.len() == 0 {
        Seq::empty()
    } else {
        assemble(raw, vals.drop_last()) + name_part(vals.last()) + seg_rest(raw, seg_start(raw, (vals.len() - 1) as nat))
    }
}

/// The name `name` is built from `raw`: the prefix, then for each segment the text of its
/// expression's value followed by the segment's literal rest.
#[verifier::opaque]
pub open spec fn built_name(raw: Seq<char>, env: Map<Seq<char>, Binding>, name: Seq<char>) -> bool {
    exists|vals: Seq<Value>|
        #![trigger assemble(raw, vals)]
        vals.len() > 0 && last_seg(raw, (vals.len() - 1) as nat) && (forall|j: nat| j < vals.len() - 1 ==> !#[trigger] last_seg(raw, j))
            && (forall|k: int| 0 <= k < vals.len() ==> evaluates(seg_expr(raw, seg_start(raw, k as nat)), env, #[trigger] vals[k]))
            && name == raw.subrange(0, find_in(raw, 0, raw.len() as int, '\'')) + assemble(raw, vals)
}

pub open spec fn resolve_contract(raw: Seq<char>, line: u32, r: Result<Resolved, SchildpadError>) -> bool {
    &&& crate::expr::error_line_is(r, line)
    &&& !raw.contains('\'') ==> r is Ok && plain_resolution(raw, r->Ok_0)
    &&& raw.contains('\'') && r is Ok ==> built_resolution(raw, r->Ok_0) && r->Ok_0.var@ == first_var_text(raw)
}

#[verifier::spinoff_prover]
#[verifier::rlimit(100)]
pub fn resolve_name_bounded(raw: &str, env: &Env, line: u32) -> (r: Result<Resolved, SchildpadError>)
    ensures
        resolve_contract(raw@, line, r),
        raw@.contains('\'') && segments_evaluable(raw@, env@) ==> r is Ok,
        raw@.contains('\'') && r is Ok ==> built_name(raw@, env@, r->Ok_0.name@),
    decreases raw@.len(), 0nat, 0nat, 0nat,
{
    let cs = str_chars(raw);
    let n = cs.len();
    let q = find_char(cs.as_slice(), 0, n, '\'');
    if q == n {
        proof {
            assert(!raw@.contains('\'')) by {
                if raw@.contains('\'') {
                    let k = choose|k: int| 0 <= k < raw@.len() && raw@[k] == '\'';
                    assert(cs@[k] != '\'');
                }
            }
        }
        return Ok(Resolved { name: string_of(raw), built: false, prefix: String::new(), var: String::new() });
    }
    let prefix = copy_range(cs.as_slice(), 0, q);
    let mut name: Vec<char> = prefix.clone();
    let mut first_var: Vec<char> = Vec::new();
    let mut start = q + 1;
    let mut first = true;
    proof {
        reveal(evaluates);
        reveal(evaluable);
        reveal(segments_evaluable);
        reveal(built_name);
    }
    let ghost mut vals: Seq<Value> = Seq::empty();
    let ghost se = segments_evaluable(raw@, env@);
    proof {
        assert(raw@.contains('\'')) by {
            assert(raw@[q as int] == '\'');
        }
        assert(name@ =~= prefix@ + assemble(raw@, vals));
    }
    loop
        invariant_except_break
            start == seg_start(raw@, vals.len() as nat),
            forall|j: nat| j < vals.len() ==> !#[trigger] last_seg(raw@, j),
            forall|k: int| 0 <= k < vals.len() ==> evaluates(seg_expr(raw@, seg_start(raw@, k as nat)), env@, #[trigger] vals[k]),
            name@ == prefix@ + assemble(raw@, vals),
            first <==> vals.len() == 0,
        invariant
            se == segments_evaluable(raw@, env@),
            se ==> raw@.contains('\''),
            n == cs@.len(),
            cs@ == raw@,
            q < n,
            cs@[q as int] == '\'',
            prefix@ == cs@.subrange(0, q as int),
            q < start <= n,
            name@.len() >= q,
            name@.subrange(0, q as int) == prefix@,
            q == find_in(raw@, 0, n as int, '\''),
            first ==> start == q + 1 && first_var@.len() == 0,
            !first ==> first_var@ == first_var_text(raw@),
        ensures
            !first,
            vals.len() > 0,
            last_seg(raw@, (vals.len() - 1) as nat),
            forall|j: nat| j < vals.len() - 1 ==> !#[trigger] last_seg(raw@, j),
            forall|k: int| 0 <= k < vals.len() ==> evaluates(seg_expr(raw@, seg_start(raw@, k as nat)), env@, #[trigger] vals[k]),
            name@ == prefix@ + assemble(raw@, vals),
        decreases n - start,
    {
        let end = find_char(cs.as_slice(), start, n, '\'');
        let paren = start < end && cs[start] == '(';
        let (expr_text, rest) = if paren {
            let close = find_char(cs.as_slice(), start + 1, end, ')');
            if close < end {
                (copy_range(cs.as_slice(), start + 1, close), copy_range(cs.as_slice(), close + 1, end))
            } else {
                (copy_range(cs.as_slice(), start + 1, end), Vec::new())
            }
        } else {
            let split = name_split(cs.as_slice(), start, end);
            (copy_range(cs.as_slice(), start, split), copy_range(cs.as_slice(), split, end))
        };
        assert(expr_text@.len() < raw@.len());
        let toks = tokenize_chars(expr_text.as_slice());
        proof {
            lemma_lexed_names_bounded(expr_text@, toks@);
        }
        proof {
            reveal(evaluates);
            reveal(evaluable);
            reveal(segments_evaluable);
            assert(expr_text@ == seg_expr(raw@, start as int));
            assert(rest@ == seg_rest(raw@, start as int));
            if se {
                assert(forall|j: nat| j < vals.len() ==> !#[trigger] last_seg(raw@, j));
                assert(evaluable(seg_expr(raw@, seg_start(raw@, vals.len() as nat)), env@));
                assert(lexed(expr_text@, toks@));
            }
        }
        let v = eval_bounded(toks.as_slice(), env, line, Ghost(expr_text@.len()))?;
        let ghost before = name@;
        push_name_part(&v, &mut name);
        push_chars(&mut name, rest.as_slice());
        assert(name@.subrange(0, q as int) =~= before.subrange(0, q as int));
        proof {
            let old_vals = vals;
            assert(evaluates(seg_expr(raw@, seg_start(raw@, old_vals.len() as nat)), env@, v)) by {
                assert(lexed(expr_text@, toks@));
            }
            vals = vals.push(v);
            assert(vals.drop_last() =~= old_vals);
            assert(name@ =~= prefix@ + assemble(raw@, vals));
            assert forall|k: int| 0 <= k < vals.len() implies evaluates(seg_expr(raw@, seg_start(raw@, k as nat)), env@, #[trigger] vals[k]) by {
                if k < old_vals.len() {
                    assert(vals[k] == old_vals[k]);
                }
            }
            if end < n {
                assert(!last_seg(raw@, old_vals.len() as nat));
                assert(seg_start(raw@, vals.len() as nat) == end + 1);
            } else {
                assert(last_seg(raw@, old_vals.len() as nat));
            }
        }
        if first {
            if paren {
                first_var.push('(');
                push_chars(&mut first_var, expr_text.as_slice());
                first_var.push(')');
            } else {
                push_chars(&mut first_var, expr_text.as_slice());
            }
            first = false;
            proof {
                assert(first_var@ =~= first_var_text(raw@));
            }
        }
        if end == n {
            break;
        }
        start = end + 1;
    }
    proof {
        assert(raw@.contains('\''));
        assert(forall|k: int| 0 <= k < q ==> #[trigger] raw@[k] != '\'');
        assert(built_name(raw@, env@, name@)) by {
            assert(name@ == raw@.subrange(0, find_in(raw@, 0, raw@.len() as int, '\'')) + assemble(raw@, vals));
        }
    }
    Ok(Resolved {
        name: chars_to_string(name.as_slice()),
        built: true,
        prefix: chars_to_string(prefix.as_slice()),
        var: chars_to_string(first_var.as_slice()),
    })
}

} // verus!
