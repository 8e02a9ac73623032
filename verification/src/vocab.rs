//! The vocabulary: the `Type` lattice, the reserved words, the verbs with their typed slots and
//! `random` samplers, and the builtin constants, colours, presets and notes.
//!
//! Every word lookup is specified by a `*_of_word` spec function over the word's characters,
//! so the lexer's classification is stated exactly.

use vstd::prelude::*;
use vstd::string::*;

use crate::number::{normal_form, Getal};
use crate::text::{chars_eq_str, str_chars, string_of};

verus! {

/// The built-in type lattice. The reserved types (`schildpad`, `getal`, `draairichting`,
/// `toon`, `deuntje`) can never be names and act as postfix casts; `Kleur`, `Oscillator`,
/// `Omhullende` and `Tekst` are runtime value types that are not surface keywords.
#[derive(Debug, Clone, Copy, PartialEq, Eq, Structural)]
pub enum Type {
    Schildpad,
    Getal,
    Draairichting,
    Toon,
    Deuntje,
    Kleur,
    Oscillator,
    Omhullende,
    Tekst,
    Nil,
}

pub open spec fn type_word(t: Type) -> &'static str {
    match t {
        Type::Schildpad => "schildpad",
        Type::Getal => "getal",
        Type::Draairichting => "draairichting",
        Type::Toon => "toon",
        Type::Deuntje => "deuntje",
        Type::Kleur => "kleur",
        Type::Oscillator => "oscillator",
        Type::Omhullende => "omhullende",
        Type::Tekst => "tekst",
        Type::Nil => "nil",
    }
}

impl Type {
    /// The Dutch name used in error sentences.
    pub fn nl(self) -> (r: &'static str)
        ensures
            r == type_word(self),
    {
        match self {
            Type::Schildpad => "schildpad",
            Type::Getal => "getal",
            Type::Draairichting => "draairichting",
            Type::Toon => "toon",
            Type::Deuntje => "deuntje",
            Type::Kleur => "kleur",
            Type::Oscillator => "oscillator",
            Type::Omhullende => "omhullende",
            Type::Tekst => "tekst",
            Type::Nil => "nil",
        }
    }
}

/// The verbs.
#[derive(Debug, Clone, Copy, PartialEq, Eq, Structural)]
pub enum Verb {
    Vooruit,
    Achteruit,
    Draai,
    Pen,
    Penomhoog,
    Penomlaag,
    Play,
}

pub open spec fn verb_word(v: Verb) -> &'static str {
    match v {
        Verb::Vooruit => "vooruit",
        Verb::Achteruit => "achteruit",
        Verb::Draai => "draai",
        Verb::Pen => "pen",
        Verb::Penomhoog => "penomhoog",
        Verb::Penomlaag => "penomlaag",
        Verb::Play => "play",
    }
}

pub fn verb_name(v: Verb) -> (r: &'static str)
    ensures
        r == verb_word(v),
{
    match v {
        Verb::Vooruit => "vooruit",
        Verb::Achteruit => "achteruit",
        Verb::Draai => "draai",
        Verb::Pen => "pen",
        Verb::Penomhoog => "penomhoog",
        Verb::Penomlaag => "penomlaag",
        Verb::Play => "play",
    }
}

/// The named colours (the names are the language's; the hex values are the host's).
#[derive(Debug, Clone, Copy, PartialEq, Eq, Structural)]
pub enum Colour {
    Rood,
    Groen,
    Blauw,
    Geel,
    Wit,
    Zwart,
    Oranje,
    Paars,
    Cyaan,
    Roze,
}

pub open spec fn colour_word(c: Colour) -> &'static str {
    match c {
        Colour::Rood => "rood",
        Colour::Groen => "groen",
        Colour::Blauw => "blauw",
        Colour::Geel => "geel",
        Colour::Wit => "wit",
        Colour::Zwart => "zwart",
        Colour::Oranje => "oranje",
        Colour::Paars => "paars",
        Colour::Cyaan => "cyaan",
        Colour::Roze => "roze",
    }
}

pub fn colour_name(c: Colour) -> (r: &'static str)
    ensures
        r == colour_word(c),
{
    match c {
        Colour::Rood => "rood",
        Colour::Groen => "groen",
        Colour::Blauw => "blauw",
        Colour::Geel => "geel",
        Colour::Wit => "wit",
        Colour::Zwart => "zwart",
        Colour::Oranje => "oranje",
        Colour::Paars => "paars",
        Colour::Cyaan => "cyaan",
        Colour::Roze => "roze",
    }
}

/// Oscillator presets (the waveform math is the host's).
#[derive(Debug, Clone, Copy, PartialEq, Eq, Structural)]
pub enum Osc {
    Sinus,
    Blok,
    Zaag,
    Driehoek,
}

pub open spec fn osc_word(o: Osc) -> &'static str {
    match o {
        Osc::Sinus => "sinus",
        Osc::Blok => "blok",
        Osc::Zaag => "zaag",
        Osc::Driehoek => "driehoek",
    }
}

pub fn osc_name(o: Osc) -> (r: &'static str)
    ensures
        r == osc_word(o),
{
    match o {
        Osc::Sinus => "sinus",
        Osc::Blok => "blok",
        Osc::Zaag => "zaag",
        Osc::Driehoek => "driehoek",
    }
}

/// Envelope presets (the ADSR numbers are the host's).
#[derive(Debug, Clone, Copy, PartialEq, Eq, Structural)]
pub enum Envelope {
    Kort,
    Lang,
}

pub open spec fn envelope_word(e: Envelope) -> &'static str {
    match e {
        Envelope::Kort => "kort",
        Envelope::Lang => "lang",
    }
}

pub fn envelope_name(e: Envelope) -> (r: &'static str)
    ensures
        r == envelope_word(e),
{
    match e {
        Envelope::Kort => "kort",
        Envelope::Lang => "lang",
    }
}

/// The solfège note literals.
#[derive(Debug, Clone, Copy, PartialEq, Eq, Structural)]
pub enum Note {
    Do,
    Re,
    Mi,
    Fa,
    Sol,
    La,
    Si,
}

pub open spec fn note_word(n: Note) -> &'static str {
    match n {
        Note::Do => "do",
        Note::Re => "re",
        Note::Mi => "mi",
        Note::Fa => "fa",
        Note::Sol => "sol",
        Note::La => "la",
        Note::Si => "si",
    }
}

pub fn note_name(n: Note) -> (r: &'static str)
    ensures
        r == note_word(n),
{
    match n {
        Note::Do => "do",
        Note::Re => "re",
        Note::Mi => "mi",
        Note::Fa => "fa",
        Note::Sol => "sol",
        Note::La => "la",
        Note::Si => "si",
    }
}

/// A note's pitch in hundredths of a hertz (the fourth octave, la = 440 Hz).
pub open spec fn note_centihertz(n: Note) -> int {
    match n {
        Note::Do => 26163,
        Note::Re => 29366,
        Note::Mi => 32963,
        Note::Fa => 34923,
        Note::Sol => 39200,
        Note::La => 44000,
        Note::Si => 49388,
    }
}

/// A note's pitch in hertz, exactly `note_centihertz(n) / 100`.
pub fn note_hz(n: Note) -> (r: Getal)
    ensures
        normal_form(note_centihertz(n), 100) == Some(r@),
{
    let c: i128 = match n {
        Note::Do => 26163,
        Note::Re => 29366,
        Note::Mi => 32963,
        Note::Fa => 34923,
        Note::Sol => 39200,
        Note::La => 44000,
        Note::Si => 49388,
    };
    proof {
        crate::number::lemma_reduced_within(c as int, 100);
    }
    match Getal::from_ratio(c, 100) {
        Some(g) => g,
        None => Getal::zero(),  // unreachable: a small fraction always fits
    }
}

/// The builtin typed constant words.
#[derive(Debug, Clone, Copy, PartialEq, Eq, Structural)]
pub enum Constant {
    Links,
    Rechts,
    Stilte,
}

pub open spec fn constant_word(c: Constant) -> &'static str {
    match c {
        Constant::Links => "links",
        Constant::Rechts => "rechts",
        Constant::Stilte => "stilte",
    }
}

pub fn constant_name(c: Constant) -> (r: &'static str)
    ensures
        r == constant_word(c),
{
    match c {
        Constant::Links => "links",
        Constant::Rechts => "rechts",
        Constant::Stilte => "stilte",
    }
}

/// A builtin typed constant value (`links`, `rechts`, `stilte`).
#[derive(Debug, Clone, Copy, PartialEq, Eq, Structural)]
pub enum ConstVal {
    Draai(i64),
    Getal(i64),
    Rest,
}

pub open spec fn constant_meaning(c: Constant) -> ConstVal {
    match c {
        Constant::Links => ConstVal::Draai(-90i64),
        Constant::Rechts => ConstVal::Draai(90i64),
        Constant::Stilte => ConstVal::Rest,
    }
}

pub fn constant_value(c: Constant) -> (r: ConstVal)
    ensures
        r == constant_meaning(c),
{
    match c {
        Constant::Links => ConstVal::Draai(-90),
        Constant::Rechts => ConstVal::Draai(90),
        Constant::Stilte => ConstVal::Rest,
    }
}

/// The sampler a verb exposes to `random`. Polymorphic by the holding verb — never global.
#[derive(Debug, Clone, Copy)]
pub enum Sampler {
    /// A distance uniform in `[lo, hi]`.
    UniformGetal { lo: i64, hi: i64 },
    /// Uniform over a set of signed angles (degrees).
    ChoiceDraai(&'static [i32]),
    /// Uniform over a set of notes.
    ChoiceNote(&'static [Note]),
}

/// A verb's signature: its ordered, pairwise-distinct typed slots and (optionally) the
/// domain `random` samples from when this verb holds it.
#[derive(Debug, Clone, Copy)]
pub struct VerbSig {
    pub verb: Verb,
    pub name: &'static str,
    pub slots: &'static [Type],
    pub sampler: Option<Sampler>,
}

pub open spec fn verb_slots(v: Verb) -> Seq<Type> {
    match v {
        Verb::Vooruit => seq![Type::Getal, Type::Schildpad],
        Verb::Achteruit => seq![Type::Getal, Type::Schildpad],
        Verb::Draai => seq![Type::Draairichting, Type::Schildpad],
        Verb::Pen => seq![Type::Kleur, Type::Schildpad],
        Verb::Penomhoog => seq![Type::Schildpad],
        Verb::Penomlaag => seq![Type::Schildpad],
        Verb::Play => seq![Type::Deuntje],
    }
}

pub open spec fn all_notes() -> Seq<Note> {
    seq![Note::Do, Note::Re, Note::Mi, Note::Fa, Note::Sol, Note::La, Note::Si]
}

/// The sampler a verb exposes: `vooruit` a distance in `[0, 100]`, `draai` one of
/// `links`/`rechts`, `play` one of the seven notes; the others none.
pub open spec fn verb_sampler_matches(v: Verb, s: Option<Sampler>) -> bool {
    match v {
        Verb::Vooruit => s == Some(Sampler::UniformGetal { lo: 0, hi: 100 }),
        Verb::Draai => s matches Some(Sampler::ChoiceDraai(opts)) && opts@ == seq![-90i32, 90i32],
        Verb::Play => s matches Some(Sampler::ChoiceNote(opts)) && opts@ == all_notes(),
        _ => s is None,
    }
}

pub fn verb_sig(v: Verb) -> (r: VerbSig)
    ensures
        r.verb == v,
        r.name == verb_word(v),
        r.slots@ == verb_slots(v),
        verb_sampler_matches(v, r.sampler),
{
    match v {
        Verb::Vooruit => VerbSig {
            verb: v,
            name: "vooruit",
            slots: &[Type::Getal, Type::Schildpad],
            sampler: Some(Sampler::UniformGetal { lo: 0, hi: 100 }),
        },
        Verb::Achteruit => VerbSig {
            verb: v,
            name: "achteruit",
            slots: &[Type::Getal, Type::Schildpad],
            sampler: None,
        },
        Verb::Draai => VerbSig {
            verb: v,
            name: "draai",
            slots: &[Type::Draairichting, Type::Schildpad],
            sampler: Some(Sampler::ChoiceDraai(&[-90, 90])),
        },
        Verb::Pen => VerbSig {
            verb: v,
            name: "pen",
            slots: &[Type::Kleur, Type::Schildpad],
            sampler: None,
        },
        Verb::Penomhoog => VerbSig {
            verb: v,
            name: "penomhoog",
            slots: &[Type::Schildpad],
            sampler: None,
        },
        Verb::Penomlaag => VerbSig {
            verb: v,
            name: "penomlaag",
            slots: &[Type::Schildpad],
            sampler: None,
        },
        Verb::Play => VerbSig {
            verb: v,
            name: "play",
            slots: &[Type::Deuntje],
            sampler: Some(
                Sampler::ChoiceNote(
                    &[Note::Do, Note::Re, Note::Mi, Note::Fa, Note::Sol, Note::La, Note::Si],
                ),
            ),
        },
    }
}

/// What a reserved non-type keyword does. Drives statement dispatch.
#[derive(Debug, Clone, Copy, PartialEq, Eq, Structural)]
pub enum KwKind {
    Maak,
    Print,
    Loop,
    LoopAux,
    If,
    Else,
    Compare,
    WrapMode,
    Break,
}

// ---- word → meaning (the specification of every lookup) ---------------------------------------

pub open spec fn keyword_of_word(s: Seq<char>) -> Option<KwKind> {
    if s == "maak"@ { Some(KwKind::Maak) }
    else if s == "print"@ { Some(KwKind::Print) }
    else if s == "herhaal"@ { Some(KwKind::Loop) }
    else if s == "doe"@ { Some(KwKind::Loop) }
    else if s == "keer"@ { Some(KwKind::LoopAux) }
    else if s == "stop"@ { Some(KwKind::Break) }
    else if s == "als"@ { Some(KwKind::If) }
    else if s == "anders"@ { Some(KwKind::Else) }
    else if s == "groter"@ { Some(KwKind::Compare) }
    else if s == "kleiner"@ { Some(KwKind::Compare) }
    else if s == "gelijk"@ { Some(KwKind::Compare) }
    else if s == "wrapmode"@ { Some(KwKind::WrapMode) }
    else { None }
}

pub open spec fn reserved_type_of_word(s: Seq<char>) -> Option<Type> {
    if s == "schildpad"@ { Some(Type::Schildpad) }
    else if s == "getal"@ { Some(Type::Getal) }
    else if s == "draairichting"@ { Some(Type::Draairichting) }
    else if s == "toon"@ { Some(Type::Toon) }
    else if s == "deuntje"@ { Some(Type::Deuntje) }
    else { None }
}

pub open spec fn verb_of_word(s: Seq<char>) -> Option<Verb> {
    if s == "vooruit"@ { Some(Verb::Vooruit) }
    else if s == "achteruit"@ { Some(Verb::Achteruit) }
    else if s == "draai"@ { Some(Verb::Draai) }
    else if s == "pen"@ { Some(Verb::Pen) }
    else if s == "penomhoog"@ { Some(Verb::Penomhoog) }
    else if s == "penomlaag"@ { Some(Verb::Penomlaag) }
    else if s == "play"@ { Some(Verb::Play) }
    else { None }
}

pub open spec fn constant_of_word(s: Seq<char>) -> Option<Constant> {
    if s == "links"@ { Some(Constant::Links) }
    else if s == "rechts"@ { Some(Constant::Rechts) }
    else if s == "stilte"@ { Some(Constant::Stilte) }
    else { None }
}

pub open spec fn colour_of_word(s: Seq<char>) -> Option<Colour> {
    if s == "rood"@ { Some(Colour::Rood) }
    else if s == "groen"@ { Some(Colour::Groen) }
    else if s == "blauw"@ { Some(Colour::Blauw) }
    else if s == "geel"@ { Some(Colour::Geel) }
    else if s == "wit"@ { Some(Colour::Wit) }
    else if s == "zwart"@ { Some(Colour::Zwart) }
    else if s == "oranje"@ { Some(Colour::Oranje) }
    else if s == "paars"@ { Some(Colour::Paars) }
    else if s == "cyaan"@ { Some(Colour::Cyaan) }
    else if s == "roze"@ { Some(Colour::Roze) }
    else { None }
}

pub open spec fn osc_of_word(s: Seq<char>) -> Option<Osc> {
    if s == "sinus"@ { Some(Osc::Sinus) }
    else if s == "blok"@ { Some(Osc::Blok) }
    else if s == "zaag"@ { Some(Osc::Zaag) }
    else if s == "driehoek"@ { Some(Osc::Driehoek) }
    else { None }
}

pub open spec fn envelope_of_word(s: Seq<char>) -> Option<Envelope> {
    if s == "kort"@ { Some(Envelope::Kort) }
    else if s == "lang"@ { Some(Envelope::Lang) }
    else { None }
}

pub open spec fn note_of_word(s: Seq<char>) -> Option<Note> {
    if s == "do"@ { Some(Note::Do) }
    else if s == "re"@ { Some(Note::Re) }
    else if s == "mi"@ { Some(Note::Mi) }
    else if s == "fa"@ { Some(Note::Fa) }
    else if s == "sol"@ { Some(Note::Sol) }
    else if s == "la"@ { Some(Note::La) }
    else if s == "si"@ { Some(Note::Si) }
    else { None }
}

/// A word is reserved when it is a keyword, a reserved type, a constant, a colour, a preset,
/// a verb or a note.
pub open spec fn reserved_word(s: Seq<char>) -> bool {
    ||| keyword_of_word(s) is Some
    ||| reserved_type_of_word(s) is Some
    ||| constant_of_word(s) is Some
    ||| colour_of_word(s) is Some
    ||| osc_of_word(s) is Some
    ||| envelope_of_word(s) is Some
    ||| verb_of_word(s) is Some
    ||| note_of_word(s) is Some
}

// ---- lookups on characters ------------------------------------------------------------------

pub fn keyword_of(t: &[char]) -> (r: Option<KwKind>)
    ensures
        r == keyword_of_word(t@),
{
    if chars_eq_str(t, "maak") { Some(KwKind::Maak) }
    else if chars_eq_str(t, "print") { Some(KwKind::Print) }
    else if chars_eq_str(t, "herhaal") { Some(KwKind::Loop) }
    else if chars_eq_str(t, "doe") { Some(KwKind::Loop) }
    else if chars_eq_str(t, "keer") { Some(KwKind::LoopAux) }
    else if chars_eq_str(t, "stop") { Some(KwKind::Break) }
    else if chars_eq_str(t, "als") { Some(KwKind::If) }
    else if chars_eq_str(t, "anders") { Some(KwKind::Else) }
    else if chars_eq_str(t, "groter") { Some(KwKind::Compare) }
    else if chars_eq_str(t, "kleiner") { Some(KwKind::Compare) }
    else if chars_eq_str(t, "gelijk") { Some(KwKind::Compare) }
    else if chars_eq_str(t, "wrapmode") { Some(KwKind::WrapMode) }
    else { None }
}

pub fn reserved_type_of(t: &[char]) -> (r: Option<Type>)
    ensures
        r == reserved_type_of_word(t@),
{
    if chars_eq_str(t, "schildpad") { Some(Type::Schildpad) }
    else if chars_eq_str(t, "getal") { Some(Type::Getal) }
    else if chars_eq_str(t, "draairichting") { Some(Type::Draairichting) }
    else if chars_eq_str(t, "toon") { Some(Type::Toon) }
    else if chars_eq_str(t, "deuntje") { Some(Type::Deuntje) }
    else { None }
}

pub fn verb_of(t: &[char]) -> (r: Option<Verb>)
    ensures
        r == verb_of_word(t@),
{
    if chars_eq_str(t, "vooruit") { Some(Verb::Vooruit) }
    else if chars_eq_str(t, "achteruit") { Some(Verb::Achteruit) }
    else if chars_eq_str(t, "draai") { Some(Verb::Draai) }
    else if chars_eq_str(t, "pen") { Some(Verb::Pen) }
    else if chars_eq_str(t, "penomhoog") { Some(Verb::Penomhoog) }
    else if chars_eq_str(t, "penomlaag") { Some(Verb::Penomlaag) }
    else if chars_eq_str(t, "play") { Some(Verb::Play) }
    else { None }
}

pub fn constant_of(t: &[char]) -> (r: Option<Constant>)
    ensures
        r == constant_of_word(t@),
{
    if chars_eq_str(t, "links") { Some(Constant::Links) }
    else if chars_eq_str(t, "rechts") { Some(Constant::Rechts) }
    else if chars_eq_str(t, "stilte") { Some(Constant::Stilte) }
    else { None }
}

pub fn colour_of(t: &[char]) -> (r: Option<Colour>)
    ensures
        r == colour_of_word(t@),
{
    if chars_eq_str(t, "rood") { Some(Colour::Rood) }
    else if chars_eq_str(t, "groen") { Some(Colour::Groen) }
    else if chars_eq_str(t, "blauw") { Some(Colour::Blauw) }
    else if chars_eq_str(t, "geel") { Some(Colour::Geel) }
    else if chars_eq_str(t, "wit") { Some(Colour::Wit) }
    else if chars_eq_str(t, "zwart") { Some(Colour::Zwart) }
    else if chars_eq_str(t, "oranje") { Some(Colour::Oranje) }
    else if chars_eq_str(t, "paars") { Some(Colour::Paars) }
    else if chars_eq_str(t, "cyaan") { Some(Colour::Cyaan) }
    else if chars_eq_str(t, "roze") { Some(Colour::Roze) }
    else { None }
}

pub fn osc_of(t: &[char]) -> (r: Option<Osc>)
    ensures
        r == osc_of_word(t@),
{
    if chars_eq_str(t, "sinus") { Some(Osc::Sinus) }
    else if chars_eq_str(t, "blok") { Some(Osc::Blok) }
    else if chars_eq_str(t, "zaag") { Some(Osc::Zaag) }
    else if chars_eq_str(t, "driehoek") { Some(Osc::Driehoek) }
    else { None }
}

pub fn envelope_of(t: &[char]) -> (r: Option<Envelope>)
    ensures
        r == envelope_of_word(t@),
{
    if chars_eq_str(t, "kort") { Some(Envelope::Kort) }
    else if chars_eq_str(t, "lang") { Some(Envelope::Lang) }
    else { None }
}

pub fn note_of(t: &[char]) -> (r: Option<Note>)
    ensures
        r == note_of_word(t@),
{
    if chars_eq_str(t, "do") { Some(Note::Do) }
    else if chars_eq_str(t, "re") { Some(Note::Re) }
    else if chars_eq_str(t, "mi") { Some(Note::Mi) }
    else if chars_eq_str(t, "fa") { Some(Note::Fa) }
    else if chars_eq_str(t, "sol") { Some(Note::Sol) }
    else if chars_eq_str(t, "la") { Some(Note::La) }
    else if chars_eq_str(t, "si") { Some(Note::Si) }
    else { None }
}

// ---- lookups by word ------------------------------------------------------------------------

/// The signature of the verb spelled `name`.
pub fn verb(name: &str) -> (r: Option<VerbSig>)
    ensures
        match verb_of_word(name@) {
            Some(v) => r matches Some(sig) && sig.verb == v && sig.name == verb_word(v)
                && sig.slots@ == verb_slots(v) && verb_sampler_matches(v, sig.sampler),
            None => r is None,
        },
{
    let t = str_chars(name);
    match verb_of(t.as_slice()) {
        Some(v) => Some(verb_sig(v)),
        None => None,
    }
}

pub fn is_verb(name: &str) -> (r: bool)
    ensures
        r == (verb_of_word(name@) is Some),
{
    let t = str_chars(name);
    verb_of(t.as_slice()).is_some()
}

pub fn keyword(word: &str) -> (r: Option<KwKind>)
    ensures
        r == keyword_of_word(word@),
{
    let t = str_chars(word);
    keyword_of(t.as_slice())
}

pub fn reserved_type(word: &str) -> (r: Option<Type>)
    ensures
        r == reserved_type_of_word(word@),
{
    let t = str_chars(word);
    reserved_type_of(t.as_slice())
}

pub fn constant(word: &str) -> (r: Option<ConstVal>)
    ensures
        r == (match constant_of_word(word@) {
            Some(c) => Some(constant_meaning(c)),
            None => None,
        }),
{
    let t = str_chars(word);
    match constant_of(t.as_slice()) {
        Some(c) => Some(constant_value(c)),
        None => None,
    }
}

pub fn is_colour(word: &str) -> (r: bool)
    ensures
        r == (colour_of_word(word@) is Some),
{
    let t = str_chars(word);
    colour_of(t.as_slice()).is_some()
}

pub fn is_oscillator(word: &str) -> (r: bool)
    ensures
        r == (osc_of_word(word@) is Some),
{
    let t = str_chars(word);
    osc_of(t.as_slice()).is_some()
}

pub fn is_envelope(word: &str) -> (r: bool)
    ensures
        r == (envelope_of_word(word@) is Some),
{
    let t = str_chars(word);
    envelope_of(t.as_slice()).is_some()
}

/// The pitch (in hertz) of the note spelled `word`.
pub fn note_freq(word: &str) -> (r: Option<Getal>)
    ensures
        match note_of_word(word@) {
            Some(n) => r matches Some(g) && normal_form(note_centihertz(n), 100) == Some(g@),
            None => r is None,
        },
{
    let t = str_chars(word);
    match note_of(t.as_slice()) {
        Some(n) => Some(note_hz(n)),
        None => None,
    }
}

/// Is `word` reserved in any way? Used to forbid it as a name and to classify tokens.
pub fn is_reserved(word: &str) -> (r: bool)
    ensures
        r == reserved_word(word@),
{
    let t = str_chars(word);
    let s = t.as_slice();
    keyword_of(s).is_some() || reserved_type_of(s).is_some() || constant_of(s).is_some()
        || colour_of(s).is_some() || osc_of(s).is_some() || envelope_of(s).is_some()
        || verb_of(s).is_some() || note_of(s).is_some()
}

/// Every reserved word, in table order: keywords, reserved types, constants, colours,
/// oscillators, envelopes, verbs, notes.
pub open spec fn reserved_word_list() -> Seq<Seq<char>> {
    seq![
        "maak"@, "print"@, "herhaal"@, "doe"@, "keer"@, "stop"@, "als"@, "anders"@, "groter"@,
        "kleiner"@, "gelijk"@, "wrapmode"@,
        "schildpad"@, "getal"@, "draairichting"@, "toon"@, "deuntje"@,
        "links"@, "rechts"@, "stilte"@,
        "rood"@, "groen"@, "blauw"@, "geel"@, "wit"@, "zwart"@, "oranje"@, "paars"@, "cyaan"@, "roze"@,
        "sinus"@, "blok"@, "zaag"@, "driehoek"@,
        "kort"@, "lang"@,
        "vooruit"@, "achteruit"@, "draai"@, "pen"@, "penomhoog"@, "penomlaag"@, "play"@,
        "do"@, "re"@, "mi"@, "fa"@, "sol"@, "la"@, "si"@
    ]
}

/// Every reserved word, for the "did you mean a keyword?" typo check.
pub fn all_reserved_words() -> (r: Vec<String>)
    ensures
        r@.len() == reserved_word_list().len(),
        forall|i: int| 0 <= i < r@.len() ==> #[trigger] r@[i]@ == reserved_word_list()[i],
{
    let words: [&'static str; 50] = [
        "maak", "print", "herhaal", "doe", "keer", "stop", "als", "anders", "groter",
        "kleiner", "gelijk", "wrapmode",
        "schildpad", "getal", "draairichting", "toon", "deuntje",
        "links", "rechts", "stilte",
        "rood", "groen", "blauw", "geel", "wit", "zwart", "oranje", "paars", "cyaan", "roze",
        "sinus", "blok", "zaag", "driehoek",
        "kort", "lang",
        "vooruit", "achteruit", "draai", "pen", "penomhoog", "penomlaag", "play",
        "do", "re", "mi", "fa", "sol", "la", "si",
    ];
    assert(words@.map_values(|w: &'static str| w@) =~= reserved_word_list());
    let mut out: Vec<String> = Vec::new();
    let mut i: usize = 0;
    while i < 50
        invariant
            i <= 50,
            words@.len() == 50,
            words@.map_values(|w: &'static str| w@) == reserved_word_list(),
            out@.len() == i,
            forall|j: int| 0 <= j < i ==> #[trigger] out@[j]@ == reserved_word_list()[j],
        decreases 50 - i,
    {
        out.push(string_of(words[i]));
        proof {
            assert(words@.map_values(|w: &'static str| w@)[i as int] == words@[i as int]@);
        }
        i += 1;
    }
    out
}


/// A note's place in the solfege scale: do re mi fa sol la si.
pub open spec fn solfege_rank(n: Note) -> int {
    match n {
        Note::Do => 0,
        Note::Re => 1,
        Note::Mi => 2,
        Note::Fa => 3,
        Note::Sol => 4,
        Note::La => 5,
        Note::Si => 6,
    }
}

/// The scale climbs: a note later in do re mi fa sol la si sounds strictly higher. It is the
/// equal-tempered major scale on la = 440 Hz: each step is a whole tone (a pitch ratio of
/// 2^(2/12) ≈ 1.12246, to four decimals) except mi → fa, a semitone (2^(1/12) ≈ 1.05946).
pub proof fn law_notes_climb_the_scale(a: Note, b: Note)
    ensures
        solfege_rank(a) < solfege_rank(b) ==> note_centihertz(a) < note_centihertz(b),
        note_centihertz(Note::La) == 44000,
        solfege_rank(b) == solfege_rank(a) + 1 && a != Note::Mi ==> 11224 * note_centihertz(a) <= 10000 * note_centihertz(b)
            <= 11225 * note_centihertz(a),
        solfege_rank(b) == solfege_rank(a) + 1 && a == Note::Mi ==> 10594 * note_centihertz(a) <= 10000 * note_centihertz(b)
            <= 10595 * note_centihertz(a),
{
}

/// Reading a verb's own word gives that verb back, and only its own word does: `achteruit` is
/// the backward move, `vooruit` the forward one, and so on for every verb.
pub proof fn law_verb_words_read_back(v: Verb, s: Seq<char>)
    ensures
        verb_of_word(verb_word(v)@) == Some(v),
        verb_of_word(s) == Some(v) ==> s == verb_word(v)@,
{
    reveal_strlit("vooruit");
    reveal_strlit("achteruit");
    reveal_strlit("draai");
    reveal_strlit("pen");
    reveal_strlit("penomhoog");
    reveal_strlit("penomlaag");
    reveal_strlit("play");
    let w = seq!["vooruit"@, "achteruit"@, "draai"@, "pen"@, "penomhoog"@, "penomlaag"@, "play"@];
    assert forall|i: int, j: int| 0 <= i < j < 7 implies w[i] != w[j] by {
        if w[i].len() == w[j].len() {
            assert(w[i][0] != w[j][0] || w[i][5] != w[j][5]);
        }
    }
    assert(w[0] == "vooruit"@ && w[1] == "achteruit"@ && w[2] == "draai"@ && w[3] == "pen"@);
    assert(w[4] == "penomhoog"@ && w[5] == "penomlaag"@ && w[6] == "play"@);
}


/// Reading a colour's own word gives that colour back, and only its own word does.
pub proof fn law_colour_words_read_back(x: Colour, s: Seq<char>)
    ensures
        colour_of_word(colour_word(x)@) == Some(x),
        colour_of_word(s) == Some(x) ==> s == colour_word(x)@,
{
    reveal_strlit("rood");
    reveal_strlit("groen");
    reveal_strlit("blauw");
    reveal_strlit("geel");
    reveal_strlit("wit");
    reveal_strlit("zwart");
    reveal_strlit("oranje");
    reveal_strlit("paars");
    reveal_strlit("cyaan");
    reveal_strlit("roze");
    let w = seq!["rood"@, "groen"@, "blauw"@, "geel"@, "wit"@, "zwart"@, "oranje"@, "paars"@, "cyaan"@, "roze"@];
    assert forall|i: int, j: int| 0 <= i < j < 10 implies w[i] != w[j] by {
        if w[i].len() == w[j].len() {
            assert(w[i][0] != w[j][0] || w[i][1] != w[j][1] || w[i][2] != w[j][2]);
        }
    }
    assert(w[0] == "rood"@ && w[1] == "groen"@ && w[2] == "blauw"@ && w[3] == "geel"@ && w[4] == "wit"@ && w[5] == "zwart"@ && w[6] == "oranje"@ && w[7] == "paars"@ && w[8] == "cyaan"@ && w[9] == "roze"@);
}

/// Reading a note's own word gives that note back, and only its own word does.
pub proof fn law_note_words_read_back(x: Note, s: Seq<char>)
    ensures
        note_of_word(note_word(x)@) == Some(x),
        note_of_word(s) == Some(x) ==> s == note_word(x)@,
{
    reveal_strlit("do");
    reveal_strlit("re");
    reveal_strlit("mi");
    reveal_strlit("fa");
    reveal_strlit("sol");
    reveal_strlit("la");
    reveal_strlit("si");
    let w = seq!["do"@, "re"@, "mi"@, "fa"@, "sol"@, "la"@, "si"@];
    assert forall|i: int, j: int| 0 <= i < j < 7 implies w[i] != w[j] by {
        if w[i].len() == w[j].len() {
            assert(w[i][0] != w[j][0] || w[i][1] != w[j][1]);
        }
    }
    assert(w[0] == "do"@ && w[1] == "re"@ && w[2] == "mi"@ && w[3] == "fa"@ && w[4] == "sol"@ && w[5] == "la"@ && w[6] == "si"@);
}

/// Reading a builtin value's own word gives that value back, and only its own word does.
pub proof fn law_constant_words_read_back(x: Constant, s: Seq<char>)
    ensures
        constant_of_word(constant_word(x)@) == Some(x),
        constant_of_word(s) == Some(x) ==> s == constant_word(x)@,
{
    reveal_strlit("links");
    reveal_strlit("rechts");
    reveal_strlit("stilte");
    let w = seq!["links"@, "rechts"@, "stilte"@];
    assert forall|i: int, j: int| 0 <= i < j < 3 implies w[i] != w[j] by {
        if w[i].len() == w[j].len() {
            assert(w[i][0] != w[j][0]);
        }
    }
    assert(w[0] == "links"@ && w[1] == "rechts"@ && w[2] == "stilte"@);
}

/// Reading an oscillator preset's own word gives that preset back, and only its own word does.
pub proof fn law_oscillator_words_read_back(x: Osc, s: Seq<char>)
    ensures
        osc_of_word(osc_word(x)@) == Some(x),
        osc_of_word(s) == Some(x) ==> s == osc_word(x)@,
{
    reveal_strlit("sinus");
    reveal_strlit("blok");
    reveal_strlit("zaag");
    reveal_strlit("driehoek");
    let w = seq!["sinus"@, "blok"@, "zaag"@, "driehoek"@];
    assert forall|i: int, j: int| 0 <= i < j < 4 implies w[i] != w[j] by {
        if w[i].len() == w[j].len() {
            assert(w[i][0] != w[j][0]);
        }
    }
    assert(w[0] == "sinus"@ && w[1] == "blok"@ && w[2] == "zaag"@ && w[3] == "driehoek"@);
}

/// Reading an envelope preset's own word gives that preset back, and only its own word does.
pub proof fn law_envelope_words_read_back(x: Envelope, s: Seq<char>)
    ensures
        envelope_of_word(envelope_word(x)@) == Some(x),
        envelope_of_word(s) == Some(x) ==> s == envelope_word(x)@,
{
    reveal_strlit("kort");
    reveal_strlit("lang");
    let w = seq!["kort"@, "lang"@];
    assert forall|i: int, j: int| 0 <= i < j < 2 implies w[i] != w[j] by {
        if w[i].len() == w[j].len() {
            assert(w[i][0] != w[j][0]);
        }
    }
    assert(w[0] == "kort"@ && w[1] == "lang"@);
}

/// `links` and `rechts` are opposite quarter turns, `links` turning the heading back.
pub proof fn law_left_and_right_are_opposite_quarter_turns()
    ensures
        constant_meaning(Constant::Links) matches ConstVal::Draai(l) && constant_meaning(Constant::Rechts) matches ConstVal::Draai(r) && l == -r
            && r == 90,
        constant_meaning(Constant::Stilte) == ConstVal::Rest,
{
}

} // verus!
