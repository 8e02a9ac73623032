//! Runtime values and their printed form.

use vstd::prelude::*;

use crate::frame::PartialFrame;
use crate::number::{abs, round_half_away, Getal};
use crate::text::{
    chars_to_string, decimal, digit, digit_char, push_chars, push_decimal, push_signed_decimal,
    push_str, signed_decimal,
};
use crate::vocab::{colour_name, colour_word, envelope_name, envelope_word, osc_name, osc_word, Colour, Envelope, Osc, Type};

verus! {

/// A handle into the engine's turtle store.
pub type TurtleId = usize;

/// A runtime value. Every binding holds one. The type of a binding is tracked separately
/// (see `env::Binding`) because a nil-typed binding has no value yet.
#[derive(Debug, Clone)]
pub enum Value {
    Getal(Getal),
    /// signed degrees
    Draairichting(i64),
    Schildpad(TurtleId),
    Kleur(Colour),
    Tekst(String),
    Toon(Toon),
    Deuntje(Deuntje),
    Oscillator(Osc),
    Omhullende(Envelope),
    /// A partially-applied verb — a curry-named action.
    Frame(PartialFrame),
    Nil,
}

pub open spec fn value_type(v: Value) -> Type {
    match v {
        Value::Getal(_) => Type::Getal,
        Value::Draairichting(_) => Type::Draairichting,
        Value::Schildpad(_) => Type::Schildpad,
        Value::Kleur(_) => Type::Kleur,
        Value::Tekst(_) => Type::Tekst,
        Value::Toon(_) => Type::Toon,
        Value::Deuntje(_) => Type::Deuntje,
        Value::Oscillator(_) => Type::Oscillator,
        Value::Omhullende(_) => Type::Omhullende,
        Value::Frame(_) => Type::Nil,
        Value::Nil => Type::Nil,
    }
}

impl Value {
    pub fn type_of(&self) -> (t: Type)
        ensures
            t == value_type(*self),
    {
        match self {
            Value::Getal(_) => Type::Getal,
            Value::Draairichting(_) => Type::Draairichting,
            Value::Schildpad(_) => Type::Schildpad,
            Value::Kleur(_) => Type::Kleur,
            Value::Tekst(_) => Type::Tekst,
            Value::Toon(_) => Type::Toon,
            Value::Deuntje(_) => Type::Deuntje,
            Value::Oscillator(_) => Type::Oscillator,
            Value::Omhullende(_) => Type::Omhullende,
            Value::Frame(_) => Type::Nil,
            Value::Nil => Type::Nil,
        }
    }
}

/// One tone: a pitch in hertz (`None` = a rest, `stilte`) plus a duration in beats, and the
/// oscillator/envelope presets that shape it.
#[derive(Debug, Clone, Copy, PartialEq)]
pub struct Toon {
    pub pitch_hz: Option<Getal>,
    pub beats: Getal,
    pub osc: Osc,
    pub env: Envelope,
}

impl Toon {
    pub fn rest(beats: Getal) -> (t: Toon)
        ensures
            t.pitch_hz is None,
            t.beats == beats,
            t.osc == Osc::Sinus,
            t.env == Envelope::Kort,
    {
        Toon { pitch_hz: None, beats, osc: Osc::Sinus, env: Envelope::Kort }
    }

    pub fn pitched(hz: Getal, beats: Getal) -> (t: Toon)
        ensures
            t.pitch_hz == Some(hz),
            t.beats == beats,
            t.osc == Osc::Sinus,
            t.env == Envelope::Kort,
    {
        Toon { pitch_hz: Some(hz), beats, osc: Osc::Sinus, env: Envelope::Kort }
    }
}

/// A tune: a sequence of tones and rests.
#[derive(Debug, Clone, PartialEq)]
pub struct Deuntje {
    pub voices: Vec<Toon>,
    pub tempo_bpm: u16,
}

/// Two values hold the same thing (texts compared by their characters).
pub open spec fn same_as(a: Value, b: Value) -> bool {
    match (a, b) {
        (Value::Tekst(s), Value::Tekst(t)) => s@ == t@,
        (Value::Deuntje(d), Value::Deuntje(e)) => d.voices@ == e.voices@ && d.tempo_bpm == e.tempo_bpm,
        _ => a == b,
    }
}

pub fn copy_tune(d: &Deuntje) -> (r: Deuntje)
    ensures
        r.voices@ == d.voices@,
        r.tempo_bpm == d.tempo_bpm,
{
    let mut voices: Vec<Toon> = Vec::new();
    let mut i: usize = 0;
    while i < d.voices.len()
        invariant
            i <= d.voices@.len(),
            voices@ == d.voices@.subrange(0, i as int),
        decreases d.voices@.len() - i,
    {
        voices.push(d.voices[i]);
        i += 1;
        assert(voices@ =~= d.voices@.subrange(0, i as int));
    }
    assert(d.voices@.subrange(0, d.voices@.len() as int) =~= d.voices@);
    Deuntje { voices, tempo_bpm: d.tempo_bpm }
}

/// A copy of a value.
pub fn copy_value(v: &Value) -> (r: Value)
    ensures
        same_as(r, *v),
        value_type(r) == value_type(*v),
{
    match v {
        Value::Getal(n) => Value::Getal(*n),
        Value::Draairichting(d) => Value::Draairichting(*d),
        Value::Schildpad(id) => Value::Schildpad(*id),
        Value::Kleur(c) => Value::Kleur(*c),
        Value::Tekst(s) => Value::Tekst(s.clone()),
        Value::Toon(t) => Value::Toon(*t),
        Value::Deuntje(d) => Value::Deuntje(copy_tune(d)),
        Value::Oscillator(o) => Value::Oscillator(*o),
        Value::Omhullende(e) => Value::Omhullende(*e),
        Value::Frame(f) => Value::Frame(*f),
        Value::Nil => Value::Nil,
    }
}

// ---- printing -------------------------------------------------------------------------------

/// Hundredths, printed with at most two decimals and no trailing zeros.
pub open spec fn cents_text(r: int) -> Seq<char> {
    let a = abs(r);
    let f = a % 100;
    let sign = if r < 0 { seq!['-'] } else { Seq::<char>::empty() };
    let frac = if f == 0 {
        Seq::<char>::empty()
    } else if f % 10 == 0 {
        seq!['.', digit_char(f / 10)]
    } else {
        seq!['.', digit_char(f / 10), digit_char(f % 10)]
    };
    sign + decimal(a / 100) + frac
}

/// How a number prints: whole numbers without decimals (`12`, not `12.0`); others rounded to
/// two decimals (halves away from zero) with trailing zeros dropped.
pub open spec fn num_text(v: (int, int)) -> Seq<char> {
    if v.1 == 1 { signed_decimal(v.0) } else { cents_text(round_half_away(v.0 * 100, v.1)) }
}

pub fn push_num(x: &Getal, out: &mut Vec<char>)
    ensures
        final(out)@ == old(out)@ + num_text(x@),
{
    if x.is_integer() {
        push_signed_decimal(x.numer() as i128, out);
    } else {
        let r = x.round_scaled(100);
        let a: u128 = if r < 0 { (-r) as u128 } else { r as u128 };
        let ghost before = out@;
        if r < 0 {
            out.push('-');
        }
        push_decimal(a / 100, out);
        let f = a % 100;
        if f != 0 {
            out.push('.');
            out.push(digit(f / 10));
            if f % 10 != 0 {
                out.push(digit(f % 10));
            }
        }
        proof {
            assert(abs(r as int) == a as nat);
            let sign = if r < 0 { seq!['-'] } else { Seq::<char>::empty() };
            assert(out@ =~= before + cents_text(r as int));
        }
    }
}

/// Render a number the way the language prints it.
pub fn fmt_num(x: &Getal) -> (s: String)
    ensures
        s@ == num_text(x@),
{
    let mut out: Vec<char> = Vec::new();
    push_num(x, &mut out);
    assert(out@ =~= num_text(x@));
    chars_to_string(out.as_slice())
}

/// How a value prints; turtles print as their names (`names[id]`).
pub open spec fn value_text(v: Value, names: Seq<Seq<char>>) -> Seq<char> {
    match v {
        Value::Tekst(s) => s@,
        Value::Getal(n) => num_text(n@),
        Value::Draairichting(d) => signed_decimal(d as int),
        Value::Kleur(c) => colour_word(c)@,
        Value::Schildpad(id) => if id < names.len() { names[id as int] } else { Seq::empty() },
        Value::Oscillator(o) => osc_word(o)@,
        Value::Omhullende(e) => envelope_word(e)@,
        Value::Toon(t) => match t.pitch_hz {
            Some(hz) => "toon "@ + num_text(hz@),
            None => "stilte"@,
        },
        Value::Deuntje(d) => "deuntje ("@ + decimal(d.voices@.len()) + " tonen)"@,
        Value::Frame(_) => "actie"@,
        Value::Nil => "nil"@,
    }
}

/// Render any value to a string for `print` / concatenation; a turtle prints as its name.
pub fn str_of(v: &Value, turtle_names: &Vec<String>) -> (s: String)
    ensures
        s@ == value_text(*v, turtle_names@.map_values(|n: String| n@)),
{
    let mut out: Vec<char> = Vec::new();
    match v {
        Value::Tekst(s) => {
            return s.clone();
        },
        Value::Getal(n) => push_num(n, &mut out),
        Value::Draairichting(d) => push_signed_decimal(*d as i128, &mut out),
        Value::Kleur(c) => push_str(&mut out, colour_name(*c)),
        Value::Schildpad(id) => {
            if *id < turtle_names.len() {
                return turtle_names[*id].clone();
            }
        },
        Value::Oscillator(o) => push_str(&mut out, osc_name(*o)),
        Value::Omhullende(e) => push_str(&mut out, envelope_name(*e)),
        Value::Toon(t) => match &t.pitch_hz {
            Some(hz) => {
                push_str(&mut out, "toon ");
                push_num(hz, &mut out);
            },
            None => push_str(&mut out, "stilte"),
        },
        Value::Deuntje(d) => {
            push_str(&mut out, "deuntje (");
            push_decimal(d.voices.len() as u128, &mut out);
            push_str(&mut out, " tonen)");
        },
        Value::Frame(_) => push_str(&mut out, "actie"),
        Value::Nil => push_str(&mut out, "nil"),
    }
    assert(out@ =~= value_text(*v, turtle_names@.map_values(|n: String| n@)));
    chars_to_string(out.as_slice())
}

} // verus!
