//! Typed-slot resolution. A verb declares pairwise-distinct typed slots; tokens fill slots by
//! type in any order; the statement fires when every slot is full. A token that fits no
//! remaining slot is a hard error — nothing is silently dropped. The `getal` slot is filled by
//! an arithmetic expression (a run of number/operator/parenthesis/getal-name tokens).
//!
//! `PartialFrame` is also the value behind a curry-named action: a verb with some slots filled
//! (snapshotted when it was made), waiting to be invoked with the rest.

use vstd::prelude::*;

use crate::env::{env_refs_below, key_of, Binding, Env};
use crate::error::{err, ErrorKind, SchildpadError};
use crate::expr::{arith_only, arith_value, error_line_is, eval, fails_with, numeric_value, tok_text};
use crate::lexer::{Tok, Token};
use crate::number::Getal;
use crate::resolve::resolve_name;
use crate::rng::Rng;
use crate::text::string_of;
use crate::value::{TurtleId, Value};
use crate::vocab::{constant_meaning, constant_value, verb_slots, verb_word, Colour, ConstVal, Sampler, Type, Verb, VerbSig};
use crate::program::clone_token;

verus! {

/// The slot values gathered for a turtle verb.
#[derive(Debug, Clone, Copy)]
pub struct SlotValues {
    pub getal: Option<Getal>,
    pub draai: Option<i64>,
    pub schildpad: Option<TurtleId>,
    pub kleur: Option<Colour>,
}

/// A partially-applied verb — a curry-named action: the verb and the slots filled when it was
/// made.
#[derive(Debug, Clone, Copy)]
pub struct PartialFrame {
    pub verb: Verb,
    pub filled: SlotValues,
}


impl SlotValues {
    pub open spec fn empty_spec() -> SlotValues {
        SlotValues { getal: None, draai: None, schildpad: None, kleur: None }
    }

    pub fn empty() -> (r: SlotValues)
        ensures
            r == SlotValues::empty_spec(),
    {
        SlotValues { getal: None, draai: None, schildpad: None, kleur: None }
    }
}

/// Is slot type `t` filled in `sv`? (Types that are not turtle-verb slots count as filled.)
pub open spec fn slot_filled(sv: SlotValues, t: Type) -> bool {
    match t {
        Type::Getal => sv.getal is Some,
        Type::Draairichting => sv.draai is Some,
        Type::Schildpad => sv.schildpad is Some,
        Type::Kleur => sv.kleur is Some,
        _ => true,
    }
}

/// A slot is filled only when the verb declares it.
pub open spec fn only_declared(sig: VerbSig, sv: SlotValues) -> bool {
    &&& sv.getal is Some ==> sig.slots@.contains(Type::Getal)
    &&& sv.draai is Some ==> sig.slots@.contains(Type::Draairichting)
    &&& sv.kleur is Some ==> sig.slots@.contains(Type::Kleur)
}

/// Slots that arrived already filled keep their values.
pub open spec fn keeps_prefilled(start: SlotValues, sv: SlotValues) -> bool {
    &&& start.getal is Some ==> sv.getal == start.getal
    &&& start.draai is Some ==> sv.draai == start.draai
    &&& start.schildpad is Some ==> sv.schildpad == start.schildpad
    &&& start.kleur is Some ==> sv.kleur == start.kleur
}

/// A filled turtle slot refers to a turtle below `n`.
pub open spec fn slot_turtle_below(t: Option<TurtleId>, n: nat) -> bool {
    match t {
        Some(id) => id < n,
        None => true,
    }
}

/// A value `random` drew lies in the domain of the verb's sampler: a whole distance in
/// `[lo, hi]`, or one of the listed angles.
pub open spec fn sampled_in_domain(sig: VerbSig, sv: SlotValues) -> bool {
    match sig.sampler {
        Some(Sampler::UniformGetal { lo, hi }) => sv.getal matches Some(g) && lo <= g@.0 <= hi && g@.1 == 1,
        Some(Sampler::ChoiceDraai(opts)) => sv.draai matches Some(d) && exists|k: int|
            0 <= k < opts@.len() && #[trigger] opts@[k] as i64 == d,
        _ => true,
    }
}

// ---- which tokens fill which slot -----------------------------------------------------------

/// Every name token is plain (no interpolation).
pub open spec fn names_plain(toks: Seq<Token>) -> bool {
    forall|i: int| 0 <= i < toks.len() && (#[trigger] toks[i].kind) is Name ==> !toks[i].kind->Name_0@.contains('\'')
}

/// The binding a plain name token refers to.
pub open spec fn bound(env: Map<Seq<char>, Binding>, t: Tok) -> Option<Binding> {
    if t is Name && env.contains_key(key_of(t->Name_0@)) {
        Some(env[key_of(t->Name_0@)])
    } else {
        None
    }
}

/// The tokens that make up the `getal` expression, in order: numbers, operators, parentheses
/// and names of type `getal`.
pub open spec fn getal_part(toks: Seq<Token>, env: Map<Seq<char>, Binding>) -> Seq<Token>
    decreases toks.len(),
{
    if toks.len() == 0 {
        toks
    } else {
        let pre = getal_part(toks.drop_last(), env);
        let t = toks.last().kind;
        if t is Number || t is BigNumber || t is Op || t is LParen || t is RParen || (bound(env, t) is Some && bound(env, t)->0.ty == Type::Getal) {
            pre.push(toks.last())
        } else {
            pre
        }
    }
}

/// The colour of the last colour word.
pub open spec fn last_colour(toks: Seq<Token>) -> Option<Colour>
    decreases toks.len(),
{
    if toks.len() == 0 {
        None
    } else {
        match toks.last().kind {
            Tok::Colour(c) => Some(c),
            _ => last_colour(toks.drop_last()),
        }
    }
}

/// The turtle of the last name bound to one.
pub open spec fn last_turtle(toks: Seq<Token>, env: Map<Seq<char>, Binding>) -> Option<TurtleId>
    decreases toks.len(),
{
    if toks.len() == 0 {
        None
    } else {
        match bound(env, toks.last().kind) {
            Some(b) => if b.ty == Type::Schildpad && b.value is Schildpad {
                Some(b.value->Schildpad_0)
            } else {
                last_turtle(toks.drop_last(), env)
            },
            None => last_turtle(toks.drop_last(), env),
        }
    }
}

/// The angle of the last direction: `links`/`rechts` or a name of a draairichting.
pub open spec fn last_direction(toks: Seq<Token>, env: Map<Seq<char>, Binding>) -> Option<i64>
    decreases toks.len(),
{
    if toks.len() == 0 {
        None
    } else {
        match toks.last().kind {
            Tok::Const(c) => match constant_meaning(c) {
                ConstVal::Draai(d) => Some(d),
                _ => last_direction(toks.drop_last(), env),
            },
            _ => match bound(env, toks.last().kind) {
                Some(b) => if b.ty == Type::Draairichting && b.value is Draairichting {
                    Some(b.value->Draairichting_0)
                } else {
                    last_direction(toks.drop_last(), env)
                },
                None => last_direction(toks.drop_last(), env),
            },
        }
    }
}

/// The slots a statement's tokens fill, whatever their order: the colour, turtle and direction
/// word they hold (over what was filled before; a resolution that succeeds has at most one of
/// each, see `resolves`), and the `getal` expression made of the number tokens in the order
/// they stand.
pub open spec fn slots_from_tokens(start: SlotValues, toks: Seq<Token>, env: Map<Seq<char>, Binding>, sv: SlotValues, random: bool) -> bool {
    &&& sv.kleur == match last_colour(toks) {
        Some(c) => Some(c),
        None => start.kleur,
    }
    &&& sv.schildpad == match last_turtle(toks, env) {
        Some(id) => Some(id),
        None => start.schildpad,
    }
    &&& !random ==> sv.draai == match last_direction(toks, env) {
        Some(d) => Some(d),
        None => start.draai,
    }
    &&& !random && getal_part(toks, env).len() == 0 ==> sv.getal == start.getal
    &&& !random && getal_part(toks, env).len() > 0 && arith_only(getal_part(toks, env), env) ==> (sv.getal is Some
        && Some(sv.getal->0@) == arith_value(getal_part(toks, env), env))
}

/// The tokens with the one at `k` left out (all of them when `k` is not a position).
pub open spec fn without_at(toks: Seq<Token>, k: int) -> Seq<Token> {
    if 0 <= k < toks.len() { toks.remove(k) } else { toks }
}

/// The position a skip leaves out (none: -1).
pub open spec fn skip_pos(skip: Option<usize>) -> int {
    match skip {
        Some(k) => k as int,
        None => -1,
    }
}

proof fn lemma_without_at_step(toks: Seq<Token>, k: int, i: int)
    requires
        0 <= i < toks.len(),
        k != i,
    ensures
        without_at(toks.subrange(0, i + 1), k) == without_at(toks.subrange(0, i), k).push(toks[i]),
{
    let a = toks.subrange(0, i + 1);
    let b = toks.subrange(0, i);
    if 0 <= k < i {
        assert(a.remove(k) =~= b.remove(k).push(toks[i]));
    } else {
        assert(a =~= b.push(toks[i]));
    }
}

/// How many tokens fill the colour slot.
pub open spec fn n_colour(ts: Seq<Token>) -> nat
    decreases ts.len(),
{
    if ts.len() == 0 { 0 } else { n_colour(ts.drop_last()) + if ts.last().kind is Colour { 1nat } else { 0nat } }
}

/// Is `t` a name of a turtle?
pub open spec fn turtle_tok(env: Map<Seq<char>, Binding>, t: Tok) -> bool {
    bound(env, t) matches Some(b) && b.ty == Type::Schildpad && b.value is Schildpad
}

/// Is `t` a direction: `links`/`rechts` or a name of a draairichting?
pub open spec fn direction_tok(env: Map<Seq<char>, Binding>, t: Tok) -> bool {
    ||| (t is Const && constant_meaning(t->Const_0) is Draai)
    ||| (bound(env, t) matches Some(b) && b.ty == Type::Draairichting && b.value is Draairichting)
}

/// How many tokens fill the turtle slot.
pub open spec fn n_turtle(ts: Seq<Token>, env: Map<Seq<char>, Binding>) -> nat
    decreases ts.len(),
{
    if ts.len() == 0 { 0 } else { n_turtle(ts.drop_last(), env) + if turtle_tok(env, ts.last().kind) { 1nat } else { 0nat } }
}

/// How many tokens fill the direction slot.
pub open spec fn n_direction(ts: Seq<Token>, env: Map<Seq<char>, Binding>) -> nat
    decreases ts.len(),
{
    if ts.len() == 0 { 0 } else { n_direction(ts.drop_last(), env) + if direction_tok(env, ts.last().kind) { 1nat } else { 0nat } }
}

/// How many `random` tokens stand on the line.
pub open spec fn n_random(ts: Seq<Token>) -> nat
    decreases ts.len(),
{
    if ts.len() == 0 { 0 } else { n_random(ts.drop_last()) + if ts.last().kind == Tok::Random { 1nat } else { 0nat } }
}

/// Does token `t` fit a slot of a verb with slots `slots` at all? The verb word itself, number,
/// operator and parenthesis tokens and `random` always do; a colour or direction only when the
/// verb has that slot; a name when it is bound to a value other than nil that is a turtle, a
/// draairichting (for a verb with a direction) or a number (for a verb with a distance).
pub open spec fn fits_slots(slots: Seq<Type>, env: Map<Seq<char>, Binding>, t: Tok) -> bool {
    match t {
        Tok::Verb(_) | Tok::Number(_) | Tok::BigNumber(_) | Tok::Op(_) | Tok::LParen | Tok::RParen | Tok::Random => true,
        Tok::Const(c) => constant_meaning(c) is Draai && slots.contains(Type::Draairichting),
        Tok::Colour(_) => slots.contains(Type::Kleur),
        Tok::Name(_) => bound(env, t) matches Some(b) && !(b.value is Nil) && (turtle_tok(env, t) || (b.ty == Type::Draairichting
            && b.value is Draairichting && slots.contains(Type::Draairichting)) || (b.ty == Type::Getal && slots.contains(Type::Getal))),
        _ => false,
    }
}

pub open spec fn fits_verb(sig: VerbSig, env: Map<Seq<char>, Binding>, t: Tok) -> bool {
    fits_slots(sig.slots@, env, t)
}

pub open spec fn count_of<A>(o: Option<A>) -> nat {
    if o is Some { 1 } else { 0 }
}

/// The bounds of a verb's uniform distance sampler, if it has one.
pub open spec fn uniform_of(s: Option<Sampler>) -> Option<(i64, i64)> {
    match s {
        Some(Sampler::UniformGetal { lo, hi }) => Some((lo, hi)),
        _ => None,
    }
}

/// How many angles a verb's direction sampler chooses from, if it has one.
pub open spec fn choice_of(s: Option<Sampler>) -> Option<nat> {
    match s {
        Some(Sampler::ChoiceDraai(opts)) => Some(opts@.len()),
        _ => None,
    }
}

/// Reading the tokens meets no token that fits no remaining slot: every token fits the verb,
/// and no slot gets a second value (counting the slots filled before).
pub open spec fn scan_fits(slots: Seq<Type>, start: SlotValues, ts: Seq<Token>, env: Map<Seq<char>, Binding>, partial: bool) -> bool {
    &&& forall|i: int| 0 <= i < ts.len() ==> fits_slots(slots, env, #[trigger] ts[i].kind)
    &&& n_colour(ts) + count_of(start.kleur) <= 1
    &&& n_turtle(ts, env) + count_of(start.schildpad) <= 1
    &&& n_direction(ts, env) + count_of(start.draai) <= 1
    &&& n_random(ts) <= 1
    &&& partial ==> n_random(ts) == 0
}

pub open spec fn scan_ok(sig: VerbSig, start: SlotValues, ts: Seq<Token>, env: Map<Seq<char>, Binding>, partial: bool) -> bool {
    scan_fits(sig.slots@, start, ts, env, partial)
}

/// `random` can fill a slot: the verb's sampler has a free slot to fill and no other token
/// fills it.
pub open spec fn random_fits(
    slots: Seq<Type>,
    uniform: Option<(i64, i64)>,
    choice: Option<nat>,
    start: SlotValues,
    ts: Seq<Token>,
    env: Map<Seq<char>, Binding>,
) -> bool {
    &&& getal_part(ts, env).len() == 0
    &&& match uniform {
        Some((lo, hi)) => start.getal is None && slots.contains(Type::Getal) && lo < hi && hi - lo < i64::MAX && lo > i64::MIN,
        None => match choice {
            Some(n) => start.draai is None && n_direction(ts, env) == 0 && slots.contains(Type::Draairichting) && n > 0,
            None => false,
        },
    }
}

/// Slot `t` is filled after reading `ts` over `start`.
pub open spec fn filled_with(
    uniform: Option<(i64, i64)>,
    choice: Option<nat>,
    start: SlotValues,
    ts: Seq<Token>,
    env: Map<Seq<char>, Binding>,
    t: Type,
) -> bool {
    match t {
        Type::Getal => start.getal is Some || getal_part(ts, env).len() > 0 || (n_random(ts) > 0 && uniform is Some),
        Type::Draairichting => start.draai is Some || n_direction(ts, env) > 0 || (n_random(ts) > 0 && uniform is None && choice is Some),
        Type::Schildpad => start.schildpad is Some || n_turtle(ts, env) > 0,
        Type::Kleur => start.kleur is Some || n_colour(ts) > 0,
        _ => true,
    }
}

pub open spec fn filled_after(sig: VerbSig, start: SlotValues, ts: Seq<Token>, env: Map<Seq<char>, Binding>, t: Type) -> bool {
    filled_with(uniform_of(sig.sampler), choice_of(sig.sampler), start, ts, env, t)
}

/// When slot resolution succeeds (for plain names whose number expression is arithmetic): no
/// token fits no remaining slot, `random` has a slot to fill, the number expression has a free
/// distance slot and a value, and (unless only some slots are asked for) every slot is filled.
pub open spec fn resolves_with(
    slots: Seq<Type>,
    uniform: Option<(i64, i64)>,
    choice: Option<nat>,
    start: SlotValues,
    ts: Seq<Token>,
    env: Map<Seq<char>, Binding>,
    partial: bool,
) -> bool {
    &&& scan_fits(slots, start, ts, env, partial)
    &&& n_random(ts) > 0 ==> random_fits(slots, uniform, choice, start, ts, env)
    &&& n_random(ts) == 0 && getal_part(ts, env).len() > 0 ==> slots.contains(Type::Getal) && start.getal is None && arith_value(
        getal_part(ts, env),
        env,
    ) is Some
    &&& !partial ==> forall|k: int| 0 <= k < slots.len() ==> filled_with(uniform, choice, start, ts, env, #[trigger] slots[k])
}

pub open spec fn resolves(sig: VerbSig, start: SlotValues, ts: Seq<Token>, env: Map<Seq<char>, Binding>, partial: bool) -> bool {
    resolves_with(sig.slots@, uniform_of(sig.sampler), choice_of(sig.sampler), start, ts, env, partial)
}

/// Slot resolution for verb `v` succeeds (see `resolves_with`).
pub open spec fn verb_resolves(v: Verb, start: SlotValues, ts: Seq<Token>, env: Map<Seq<char>, Binding>, partial: bool) -> bool {
    resolves_with(
        verb_slots(v),
        if v == Verb::Vooruit { Some((0i64, 100i64)) } else { None },
        if v == Verb::Draai { Some(2nat) } else { None },
        start,
        ts,
        env,
        partial,
    )
}

pub open spec fn has_random(toks: Seq<Token>) -> bool {
    exists|i: int| 0 <= i < toks.len() && (#[trigger] toks[i]).kind == Tok::Random
}

fn wants(sig: &VerbSig, t: Type) -> (r: bool)
    ensures
        r == sig.slots@.contains(t),
{
    let mut i: usize = 0;
    while i < sig.slots.len()
        invariant
            i <= sig.slots@.len(),
            forall|k: int| 0 <= k < i ==> sig.slots@[k] != t,
        decreases sig.slots@.len() - i,
    {
        if sig.slots[i] == t {
            return true;
        }
        i += 1;
    }
    false
}

fn leftover_err(t: &Token, line: u32) -> (e: SchildpadError)
    ensures
        e.line == line,
        e.kind is UnconsumedTokens,
{
    err(line, ErrorKind::UnconsumedTokens { leftover: tok_text(&t.kind) })
}

/// Resolve a turtle-verb statement (`vooruit`, `achteruit`, `draai`, `pen`, `penomhoog`,
/// `penomlaag`) from its tokens, in any order. `toks` includes the verb token (skipped).
pub fn resolve_turtle_verb(sig: &VerbSig, toks: &[Token], env: &Env, rng: &mut Rng, line: u32) -> (r: Result<SlotValues, SchildpadError>)
    ensures
        error_line_is(r, line),
        r is Ok ==> forall|k: int| 0 <= k < sig.slots@.len() ==> slot_filled(r->Ok_0, #[trigger] sig.slots@[k]),
        r is Ok ==> only_declared(*sig, r->Ok_0),
        r is Ok ==> forall|n: nat| #[trigger] env_refs_below(env@, n) ==> slot_turtle_below(r->Ok_0.schildpad, n),
        r is Ok && has_random(toks@) ==> sampled_in_domain(*sig, r->Ok_0),
        r is Ok && names_plain(toks@) ==> slots_from_tokens(SlotValues::empty_spec(), toks@, env@, r->Ok_0, has_random(toks@)),
        names_plain(toks@) && (getal_part(toks@, env@).len() == 0 || arith_only(getal_part(toks@, env@), env@)) ==> (r is Ok
            <==> resolves(*sig, SlotValues::empty_spec(), toks@, env@, false)),
        !has_random(toks@) ==> final(rng)@ == old(rng)@,
{
    resolve_slots(sig, toks, env, rng, line, SlotValues::empty(), None, false)
}

/// Slot resolution, optionally starting from slots filled earlier (a curry-named action),
/// skipping the token at `skip` (the action's own name), and — for building an action —
/// without requiring every slot (`partial`).
pub fn resolve_slots(
    sig: &VerbSig,
    toks: &[Token],
    env: &Env,
    rng: &mut Rng,
    line: u32,
    start: SlotValues,
    skip: Option<usize>,
    partial: bool,
) -> (r: Result<SlotValues, SchildpadError>)
    ensures
        error_line_is(r, line),
        r is Ok && !partial ==> forall|k: int| 0 <= k < sig.slots@.len() ==> slot_filled(r->Ok_0, #[trigger] sig.slots@[k]),
        r is Ok && only_declared(*sig, start) ==> only_declared(*sig, r->Ok_0),
        r is Ok ==> keeps_prefilled(start, r->Ok_0),
        r is Ok ==> forall|n: nat| #[trigger] env_refs_below(env@, n) && slot_turtle_below(start.schildpad, n)
            ==> slot_turtle_below(r->Ok_0.schildpad, n),
        partial && r is Ok && skip is None ==> !has_random(toks@),
        r is Ok && skip is None && has_random(toks@) ==> sampled_in_domain(*sig, r->Ok_0),
        r is Ok && names_plain(toks@) ==> slots_from_tokens(start, without_at(toks@, skip_pos(skip)), env@, r->Ok_0, has_random(toks@)),
        skip is None && names_plain(toks@) && (getal_part(toks@, env@).len() == 0 || arith_only(getal_part(toks@, env@), env@))
            ==> (r is Ok <==> resolves(*sig, start, toks@, env@, partial)),
        !has_random(toks@) ==> final(rng)@ == old(rng)@,
{
    let mut sv = start;
    let mut getal_toks: Vec<Token> = Vec::new();
    let mut random_seen = false;
    let mut i: usize = 0;
    let ghost rng0 = rng@;
    let ghost plain = skip is None && names_plain(toks@);
    assert(rng0 == old(rng)@);
    proof {
        assert(toks@.subrange(0, 0) =~= Seq::<Token>::empty());
    }
    while i < toks.len()
        invariant
            i <= toks@.len(),
            keeps_prefilled(start, sv),
            only_declared(*sig, start) ==> only_declared(*sig, sv),
            random_seen ==> has_random(toks@),
            partial ==> !random_seen,
            partial && skip is None ==> forall|k: int| 0 <= k < i ==> (#[trigger] toks@[k]).kind != Tok::Random,
            skip is None && !random_seen ==> forall|k: int| 0 <= k < i ==> (#[trigger] toks@[k]).kind != Tok::Random,
            rng@ == rng0,
            sv.getal == start.getal,
            plain == (skip is None && names_plain(toks@)),
            forall|n: nat| #[trigger] env_refs_below(env@, n) && slot_turtle_below(start.schildpad, n)
                ==> slot_turtle_below(sv.schildpad, n),
            names_plain(toks@) ==> ({
                let pre = without_at(toks@.subrange(0, i as int), skip_pos(skip));
                &&& sv.kleur == match last_colour(pre) {
                    Some(c) => Some(c),
                    None => start.kleur,
                }
                &&& sv.schildpad == match last_turtle(pre, env@) {
                    Some(id) => Some(id),
                    None => start.schildpad,
                }
                &&& sv.draai == match last_direction(pre, env@) {
                    Some(d) => Some(d),
                    None => start.draai,
                }
                &&& getal_toks@ == getal_part(pre, env@)
            }),
            plain ==> ({
                let pre = toks@.subrange(0, i as int);
                &&& scan_ok(*sig, start, pre, env@, partial)
                &&& (last_colour(pre) is None <==> n_colour(pre) == 0)
                &&& (last_turtle(pre, env@) is None <==> n_turtle(pre, env@) == 0)
                &&& (last_direction(pre, env@) is None <==> n_direction(pre, env@) == 0)
                &&& (random_seen <==> n_random(pre) > 0)
            }),
        decreases toks@.len() - i,
    {
        proof {
            assert(toks@.subrange(0, i + 1).drop_last() =~= toks@.subrange(0, i as int));
            assert(toks@.subrange(0, i + 1).last() == toks@[i as int]);
        }
        if let Some(sk) = skip {
            if sk == i {
                proof {
                    assert(without_at(toks@.subrange(0, i + 1), skip_pos(skip)) =~= toks@.subrange(0, i as int));
                    assert(without_at(toks@.subrange(0, i as int), skip_pos(skip)) =~= toks@.subrange(0, i as int));
                }
                i += 1;
                continue;
            }
        }
        proof {
            lemma_without_at_step(toks@, skip_pos(skip), i as int);
            let pre = without_at(toks@.subrange(0, i as int), skip_pos(skip));
            let pre2 = without_at(toks@.subrange(0, i + 1), skip_pos(skip));
            assert(pre2.drop_last() =~= pre);
            assert(pre2.last() == toks@[i as int]);
            if plain {
                assert(without_at(toks@.subrange(0, i + 1), skip_pos(skip)) == toks@.subrange(0, i + 1));
            }
        }
        let t = &toks[i];
        let ghost pre = toks@.subrange(0, i as int);
        let ghost pre2 = toks@.subrange(0, i + 1);
        match &t.kind {
            Tok::Verb(_) => {},
            Tok::Number(_) | Tok::BigNumber(_) | Tok::Op(_) | Tok::LParen | Tok::RParen => {
                getal_toks.push(clone_token(t));
            },
            Tok::Random => {
                if partial {
                    proof {
                        if plain {
                            lemma_scan_prefix(*sig, start, toks@, env@, partial, i + 1);
                        }
                    }
                    return Err(err(line, ErrorKind::CurriedRandom { verb: string_of(sig.name) }));
                }
                if random_seen {
                    proof {
                        if plain {
                            lemma_scan_prefix(*sig, start, toks@, env@, partial, i + 1);
                        }
                    }
                    return Err(leftover_err(t, line));
                }
                assert(toks@[i as int].kind == Tok::Random);
                random_seen = true;
            },
            Tok::Const(c) => match constant_value(*c) {
                ConstVal::Draai(d) => {
                    if wants(sig, Type::Draairichting) && sv.draai.is_none() {
                        sv.draai = Some(d);
                    } else {
                        proof {
                            if plain {
                                lemma_scan_prefix(*sig, start, toks@, env@, partial, i + 1);
                            }
                        }
                        return Err(leftover_err(t, line));
                    }
                },
                _ => {
                    proof {
                        if plain {
                            lemma_scan_prefix(*sig, start, toks@, env@, partial, i + 1);
                        }
                    }
                    return Err(leftover_err(t, line));
                },
            },
            Tok::Colour(col) => {
                if wants(sig, Type::Kleur) && sv.kleur.is_none() {
                    sv.kleur = Some(*col);
                } else {
                    proof {
                        if plain {
                            lemma_scan_prefix(*sig, start, toks@, env@, partial, i + 1);
                        }
                    }
                    return Err(leftover_err(t, line));
                }
            },
            Tok::Name(raw) => {
                let res = resolve_name(raw.as_str(), env, line)?;
                match env.get(res.name.as_str()) {
                    None => {
                        proof {
                            if plain {
                                lemma_scan_prefix(*sig, start, toks@, env@, partial, i + 1);
                            }
                        }
                        return Err(
                            if res.built {
                                err(line, ErrorKind::DynamicNameNotFound { full: res.name, prefix: res.prefix, var: res.var })
                            } else {
                                err(line, ErrorKind::UnknownNameTurtleHint { name: res.name })
                            },
                        );
                    },
                    Some(b) => {
                        if let Value::Nil = b.value {
                            proof {
                                if plain {
                                    lemma_scan_prefix(*sig, start, toks@, env@, partial, i + 1);
                                }
                            }
                            return Err(err(line, ErrorKind::NilInExpr { name: res.name }));
                        }
                        let refused = match b.ty {
                            Type::Schildpad => {
                                match b.value {
                                    Value::Schildpad(id) => {
                                        if sv.schildpad.is_some() {
                                            proof {
                                                if plain {
                                                    lemma_scan_prefix(*sig, start, toks@, env@, partial, i + 1);
                                                }
                                            }
                                            return Err(leftover_err(t, line));
                                        }
                                        proof {
                                            let k = key_of(res.name@);
                                            assert forall|n: nat| #[trigger] env_refs_below(env@, n) implies id < n by {
                                                assert(env@.contains_key(k));
                                            }
                                        }
                                        sv.schildpad = Some(id);
                                        false
                                    },
                                    _ => true,
                                }
                            },
                            Type::Draairichting => {
                                match b.value {
                                    Value::Draairichting(d) => {
                                        if wants(sig, Type::Draairichting) {
                                            if sv.draai.is_some() {
                                                proof {
                                                    if plain {
                                                        lemma_scan_prefix(*sig, start, toks@, env@, partial, i + 1);
                                                    }
                                                }
                                                return Err(leftover_err(t, line));
                                            }
                                            sv.draai = Some(d);
                                            false
                                        } else {
                                            true
                                        }
                                    },
                                    _ => true,
                                }
                            },
                            Type::Getal => {
                                if wants(sig, Type::Getal) {
                                    getal_toks.push(clone_token(t));
                                    false
                                } else {
                                    true
                                }
                            },
                            _ => true,
                        };
                        if refused {
                            proof {
                                if plain {
                                    lemma_scan_prefix(*sig, start, toks@, env@, partial, i + 1);
                                }
                            }
                            return Err(err(line, ErrorKind::WrongTypeForVerb {
                                name: res.name,
                                ty: string_of(b.ty.nl()),
                                verb: string_of(sig.name),
                            }));
                        }
                    },
                }
            },
            _ => {
                proof {
                    if plain {
                        lemma_scan_prefix(*sig, start, toks@, env@, partial, i + 1);
                    }
                }
                return Err(leftover_err(t, line));
            },
        }
        i += 1;
    }
    proof {
        assert(toks@.subrange(0, toks@.len() as int) =~= toks@);
    }
    if random_seen {
        if getal_toks.len() > 0 {
            return Err(leftover_err(&getal_toks[0], line));
        }
        match sig.sampler {
            Some(Sampler::UniformGetal { lo, hi }) => {
                if start.getal.is_some() {
                    return Err(err(line, ErrorKind::UnconsumedTokens { leftover: string_of("random") }));
                }
                if wants(sig, Type::Getal) && lo < hi && (hi as i128) - (lo as i128) < i64::MAX as i128 && lo > i64::MIN {
                    let v = rng.range_inclusive(lo, hi);
                    sv.getal = Some(Getal::from_i64(v));
                } else {
                    return Err(err(line, ErrorKind::RandomVerbCannotSample { verb: string_of(sig.name) }));
                }
            },
            Some(Sampler::ChoiceDraai(opts)) => {
                if sv.draai.is_some() {
                    return Err(err(line, ErrorKind::UnconsumedTokens { leftover: string_of("random") }));
                }
                if wants(sig, Type::Draairichting) && opts.len() > 0 {
                    let d = *rng.choice(opts);
                    sv.draai = Some(d as i64);
                    proof {
                        let k = ((crate::rng::scramble(rng@) as usize) as int) % (opts@.len() as int);
                        assert(0 <= k < opts@.len());
                        assert(opts@[k] as i64 == d as i64);
                    }
                } else {
                    return Err(err(line, ErrorKind::RandomVerbCannotSample { verb: string_of(sig.name) }));
                }
            },
            _ => return Err(err(line, ErrorKind::RandomVerbCannotSample { verb: string_of(sig.name) })),
        }
    } else if getal_toks.len() > 0 {
        if !wants(sig, Type::Getal) || start.getal.is_some() {
            return Err(leftover_err(&getal_toks[0], line));
        }
        let v = eval(getal_toks.as_slice(), env, line)?;
        match v {
            Value::Getal(n) => sv.getal = Some(n),
            Value::Draairichting(d) => {
                if d > i64::MIN {
                    sv.getal = Some(Getal::from_i64(d));
                } else {
                    return Err(err(line, ErrorKind::NumberOutOfRange));
                }
            },
            other => {
                return Err(err(line, ErrorKind::TypeMismatch { wanted: string_of("getal"), got: string_of(other.type_of().nl()) }));
            },
        }
    }
    if !partial {
        let mut k: usize = 0;
        while k < sig.slots.len()
            invariant
                k <= sig.slots@.len(),
                forall|j: int| 0 <= j < k ==> slot_filled(sv, #[trigger] sig.slots@[j]),
                !random_seen ==> rng@ == rng0,
                random_seen ==> has_random(toks@),
                random_seen ==> sampled_in_domain(*sig, sv),
                skip is None && !random_seen ==> !has_random(toks@),
                rng0 == old(rng)@,
                plain == (skip is None && names_plain(toks@)),
                !partial,
                names_plain(toks@) ==> slots_from_tokens(start, without_at(toks@, skip_pos(skip)), env@, sv, has_random(toks@)),
                plain ==> forall|j: int| 0 <= j < sig.slots@.len() ==> (slot_filled(sv, #[trigger] sig.slots@[j]) <==> filled_after(
                    *sig,
                    start,
                    toks@,
                    env@,
                    sig.slots@[j],
                )),
            decreases sig.slots@.len() - k,
        {
            let slot = sig.slots[k];
            let present = match slot {
                Type::Getal => sv.getal.is_some(),
                Type::Draairichting => sv.draai.is_some(),
                Type::Schildpad => sv.schildpad.is_some(),
                Type::Kleur => sv.kleur.is_some(),
                _ => true,
            };
            if !present {
                proof {
                    if plain {
                        assert(!filled_after(*sig, start, toks@, env@, sig.slots@[k as int]));
                    }
                }
                return Err(missing_slot_error(sig, slot, line));
            }
            k += 1;
        }
    }
    Ok(sv)
}


/// What holds of a line holds of its beginning.
proof fn lemma_scan_prefix(sig: VerbSig, start: SlotValues, ts: Seq<Token>, env: Map<Seq<char>, Binding>, partial: bool, k: int)
    requires
        0 <= k <= ts.len(),
        !scan_ok(sig, start, ts.subrange(0, k), env, partial),
    ensures
        !scan_ok(sig, start, ts, env, partial),
        !resolves(sig, start, ts, env, partial),
{
    lemma_counts_prefix(ts, env, k);
    let p = ts.subrange(0, k);
    if forall|i: int| 0 <= i < ts.len() ==> fits_verb(sig, env, #[trigger] ts[i].kind) {
        assert forall|i: int| 0 <= i < p.len() implies fits_verb(sig, env, #[trigger] p[i].kind) by {
            assert(p[i] == ts[i]);
        }
    }
}

proof fn lemma_counts_prefix(ts: Seq<Token>, env: Map<Seq<char>, Binding>, k: int)
    requires
        0 <= k <= ts.len(),
    ensures
        n_colour(ts.subrange(0, k)) <= n_colour(ts),
        n_turtle(ts.subrange(0, k), env) <= n_turtle(ts, env),
        n_direction(ts.subrange(0, k), env) <= n_direction(ts, env),
        n_random(ts.subrange(0, k)) <= n_random(ts),
    decreases ts.len(),
{
    if k == ts.len() {
        assert(ts.subrange(0, k) =~= ts);
    } else {
        assert(ts.subrange(0, k) =~= ts.drop_last().subrange(0, k));
        lemma_counts_prefix(ts.drop_last(), env, k);
    }
}

/// The precise "what's missing" error for an unfilled slot.
pub fn missing_slot_error(sig: &VerbSig, slot: Type, line: u32) -> (e: SchildpadError)
    ensures
        e.line == line,
        slot == Type::Schildpad ==> e.kind is VerbWantsTurtle && e.kind->VerbWantsTurtle_verb@ == sig.name@
            && e.kind->VerbWantsTurtle_example@ == if sig.verb == Verb::Draai {
            "draai links pietje"@
        } else {
            sig.name@ + " 50 pietje"@
        },
        slot == Type::Draairichting ==> e.kind is VerbWantsDirection && e.kind->VerbWantsDirection_verb@ == sig.name@,
        slot == Type::Kleur ==> e.kind is VerbWantsColour && e.kind->VerbWantsColour_verb@ == sig.name@,
        slot != Type::Schildpad && slot != Type::Draairichting && slot != Type::Kleur ==> e.kind is VerbWantsNumber
            && e.kind->VerbWantsNumber_verb@ == sig.name@,
{
    let verb = string_of(sig.name);
    match slot {
        Type::Schildpad => {
            let example = if sig.verb == Verb::Draai {
                string_of("draai links pietje")
            } else {
                let mut s = string_of(sig.name);
                s.append(" 50 pietje");
                s
            };
            err(line, ErrorKind::VerbWantsTurtle { verb, example })
        },
        Type::Getal => err(line, ErrorKind::VerbWantsNumber { verb }),
        Type::Draairichting => err(line, ErrorKind::VerbWantsDirection { verb }),
        Type::Kleur => err(line, ErrorKind::VerbWantsColour { verb }),
        _ => err(line, ErrorKind::VerbWantsNumber { verb }),
    }
}

// ---- free word order ---------------------------------------------------------------------------

/// Which slot a token feeds: 0 the `getal` expression, 1 the colour, 2 the turtle, 3 the
/// direction, 4 none.
pub open spec fn slot_kind(t: Tok, env: Map<Seq<char>, Binding>) -> nat {
    if t is Number || t is BigNumber || t is Op || t is LParen || t is RParen || (bound(env, t) is Some && bound(env, t)->0.ty == Type::Getal) {
        0
    } else if t is Colour {
        1
    } else if bound(env, t) is Some && bound(env, t)->0.ty == Type::Schildpad && bound(env, t)->0.value is Schildpad {
        2
    } else if (t is Const && constant_meaning(t->Const_0) is Draai) || (bound(env, t) is Some && bound(env, t)->0.ty
        == Type::Draairichting && bound(env, t)->0.value is Draairichting) {
        3
    } else {
        4
    }
}

proof fn lemma_concat_last(u: Seq<Token>, q: Seq<Token>, env: Map<Seq<char>, Binding>)
    ensures
        getal_part(u + q, env) == getal_part(u, env) + getal_part(q, env),
        last_colour(u + q) == match last_colour(q) {
            Some(c) => Some(c),
            None => last_colour(u),
        },
        last_turtle(u + q, env) == match last_turtle(q, env) {
            Some(c) => Some(c),
            None => last_turtle(u, env),
        },
        last_direction(u + q, env) == match last_direction(q, env) {
            Some(c) => Some(c),
            None => last_direction(u, env),
        },
    decreases q.len(),
{
    if q.len() == 0 {
        assert(u + q =~= u);
        assert(getal_part(u, env) + getal_part(q, env) =~= getal_part(u, env));
    } else {
        lemma_concat_last(u, q.drop_last(), env);
        assert((u + q).drop_last() =~= u + q.drop_last());
        assert((u + q).last() == q.last());
        let gq = getal_part(q.drop_last(), env);
        let gu = getal_part(u, env);
        assert(gu + gq.push(q.last()) =~= (gu + gq).push(q.last()));
    }
}

/// Free word order: two neighbouring words that feed different slots (or none) can trade
/// places — the slots the statement fills stay the same.
pub proof fn law_free_word_order(
    p: Seq<Token>,
    x: Token,
    y: Token,
    q: Seq<Token>,
    env: Map<Seq<char>, Binding>,
    start: SlotValues,
    sv: SlotValues,
    random: bool,
)
    requires
        slot_kind(x.kind, env) != slot_kind(y.kind, env) || slot_kind(x.kind, env) == 4,
    ensures
        slots_from_tokens(start, p + seq![x, y] + q, env, sv, random) == slots_from_tokens(start, p + seq![y, x] + q, env, sv, random),
{
    let a = p + seq![x, y];
    let b = p + seq![y, x];
    lemma_concat_last(a, q, env);
    lemma_concat_last(b, q, env);
    lemma_concat_last(p, seq![x, y], env);
    lemma_concat_last(p, seq![y, x], env);
    let xy = seq![x, y];
    let yx = seq![y, x];
    assert(xy.drop_last() =~= seq![x]);
    assert(yx.drop_last() =~= seq![y]);
    assert(seq![x].drop_last() =~= Seq::<Token>::empty());
    assert(seq![y].drop_last() =~= Seq::<Token>::empty());
    reveal_with_fuel(getal_part, 3);
    reveal_with_fuel(last_colour, 3);
    reveal_with_fuel(last_turtle, 3);
    reveal_with_fuel(last_direction, 3);
    assert(getal_part(xy, env) =~= getal_part(yx, env));
}
} // verus!
