//! Runtime errors: a structured `ErrorKind` carrying the reconstructed intent (the built dynamic
//! name and its parts, the wanted/given types, …) plus a patient Dutch renderer. The sentences
//! are product copy: each one is stated exactly by `sentence`.

use vstd::prelude::*;
use vstd::string::*;

use crate::text::{decimal, decimal_string};

verus! {

#[derive(Debug, Clone)]
pub struct SchildpadError {
    pub line: u32,
    pub kind: ErrorKind,
}

#[derive(Debug, Clone, PartialEq)]
pub enum ErrorKind {
    AssignToUndeclared { rhs: String, name: String },
    PrintNil { name: String },
    NilInExpr { name: String },
    BareRandom,
    /// `full` is the computed name (`a-7`), `prefix` the literal part (`a-`), `var` the source
    /// text of the interpolated expression (`i`) — reconstructed from the resolution itself.
    DynamicNameNotFound { full: String, prefix: String, var: String },
    UnknownName { name: String },
    UnknownNameTurtleHint { name: String },
    ReservedAsName { word: String },
    VerbWantsTurtle { verb: String, example: String },
    VerbWantsNumber { verb: String },
    VerbWantsDirection { verb: String },
    VerbWantsColour { verb: String },
    WrongTypeForVerb { name: String, ty: String, verb: String },
    TypeMismatch { wanted: String, got: String },
    DivideByZero,
    UnconsumedTokens { leftover: String },
    ExpectedMoreInExpr,
    NotUnderstood { text: String },
    NotAStatement { src: String },
    RandomVerbCannotSample { verb: String },
    LoopViaEnter,
    MaakNeedsName,
    MaakNotUnderstood { src: String, name: String },
    /// Left of `=` must be a nameable word, not a value (`maak 0 = score`).
    MaakNameNotAWord { word: String },
    /// `maak hoe_ver = vooruit random` — currying `random` would freeze one draw.
    CurriedRandom { verb: String },
    /// `maak x = play …` — `play` can't be stored half-finished; make a deuntje instead.
    CurryPlay,
    /// A number (or a turtle's position) outgrew what can be computed exactly.
    NumberOutOfRange,
}

/// The Dutch sentence for an error on line `line`.
pub open spec fn sentence(kind: ErrorKind, line: u32) -> Seq<char> {
    let l = decimal(line as nat);
    match kind {
        ErrorKind::AssignToUndeclared { rhs, name } =>
            "je probeerde '"@ + rhs@ + "' toe te kennen aan '"@ + name@ + "' op regel "@ + l
                + ", maar '"@ + name@ + "' bestaat op dat moment nog niet. misschien wil je '"@
                + name@ + "' eerst maken met 'maak "@ + name@ + "'?"@,
        ErrorKind::PrintNil { name } =>
            "je probeerde '"@ + name@
                + "' te printen, maar die had op dat moment de waarde nil. ik weet niet hoe ik nil moet printen."@,
        ErrorKind::NilInExpr { name } =>
            "'"@ + name@
                + "' bestaat wel, maar had op dat moment de waarde nil. ik weet niet hoe ik daar mee moet rekenen."@,
        ErrorKind::BareRandom =>
            "random waarvan? ik kan alleen willekeurig kiezen als er een werkwoord voor staat dat weet waaruit het mag kiezen, zoals 'vooruit random' of 'draai random'."@,
        ErrorKind::DynamicNameNotFound { full, prefix, var } =>
            "ik probeerde '"@ + full@ + "' te vinden, opgebouwd uit '"@ + prefix@
                + "' en de waarde van "@ + var@ + ", maar die bestaat niet."@,
        ErrorKind::UnknownName { name } =>
            "ik ken geen '"@ + name@ + "'. misschien moet je die eerst maken met 'maak "@ + name@
                + "'?"@,
        ErrorKind::UnknownNameTurtleHint { name } =>
            "ik ken geen '"@ + name@ + "'. heb je die al gemaakt met 'maak "@ + name@
                + " schildpad'?"@,
        ErrorKind::ReservedAsName { word } =>
            "'"@ + word@ + "' is een gereserveerd woord; je kunt het niet als naam gebruiken."@,
        ErrorKind::VerbWantsTurtle { verb, example } =>
            "'"@ + verb@
                + "' wil weten welke schildpad het moet besturen, maar ik zie er geen op deze regel. bijvoorbeeld: '"@
                + example@ + "'."@,
        ErrorKind::VerbWantsNumber { verb } =>
            "'"@ + verb@
                + "' wil een getal (een afstand), maar dat zie ik niet op deze regel. bijvoorbeeld '"@
                + verb@ + " 50 ...'."@,
        ErrorKind::VerbWantsDirection { verb } =>
            "'"@ + verb@ + "' wil een richting, zoals 'links' of 'rechts'."@,
        ErrorKind::VerbWantsColour { verb } =>
            "'"@ + verb@ + "' wil een kleur, zoals 'rood' of 'blauw'."@,
        ErrorKind::WrongTypeForVerb { name, ty, verb } =>
            "'"@ + name@ + "' is een "@ + ty@ + "; daar weet '"@ + verb@ + "' geen raad mee."@,
        ErrorKind::TypeMismatch { wanted, got } =>
            "ik wilde hier een "@ + wanted@ + ", maar kreeg een "@ + got@ + "."@,
        ErrorKind::DivideByZero => "ik kan niet door nul delen."@,
        ErrorKind::UnconsumedTokens { leftover } =>
            "ik snapte het begin van regel "@ + l + ", maar wist niet wat ik met '"@ + leftover@
                + "' moest. ik laat liever niets stiekem vallen."@,
        ErrorKind::ExpectedMoreInExpr =>
            "ik verwachtte hier nog een getal of een naam, maar de regel hield op."@,
        ErrorKind::NotUnderstood { text } => "ik begreep '"@ + text@ + "' hier niet."@,
        ErrorKind::NotAStatement { src } =>
            "ik weet niet wat ik met '"@ + src@
                + "' moet doen. een regel begint meestal met 'maak', 'print', of een werkwoord zoals 'vooruit'."@,
        ErrorKind::RandomVerbCannotSample { verb } =>
            "'"@ + verb@
                + "' kan niets willekeurig kiezen. random werkt bij 'vooruit' (een afstand) en 'draai' (links of rechts)."@,
        ErrorKind::LoopViaEnter =>
            "een herhaal- of doe-lus moet je met de afspeelknop of stap-knop draaien, niet los met enter."@,
        ErrorKind::MaakNeedsName =>
            "na 'maak' verwacht ik een naam, bijvoorbeeld 'maak pietje schildpad'."@,
        ErrorKind::MaakNotUnderstood { src, name } =>
            "ik begreep '"@ + src@ + "' niet. probeer 'maak "@ + name@ + " schildpad' of 'maak "@
                + name@ + " = 0'."@,
        ErrorKind::MaakNameNotAWord { word } =>
            "ik kan hier geen naam van maken: links van '=' hoort een naam te staan, niet '"@ + word@
                + "'. bijvoorbeeld 'maak score = 0'."@,
        ErrorKind::CurriedRandom { verb } =>
            "een actie met 'random' erin kan ik niet opslaan: dan zou ik '"@ + verb@
                + " random' één keer gooien en dat ene getal voor altijd onthouden. schrijf '"@
                + verb@ + " random pietje' los in je lus, dan gooit hij elke keer opnieuw."@,
        ErrorKind::CurryPlay =>
            "je kunt 'play' niet half af opslaan als actie. maak liever een deuntje: 'maak liedje deuntje = do re mi'."@,
        ErrorKind::NumberOutOfRange =>
            "dit getal wordt te groot of te fijn om nog precies mee te rekenen."@,
    }
}

impl SchildpadError {
    pub fn render_nl(&self) -> (r: String)
        ensures
            r@ == sentence(self.kind, self.line),
    {
        self.kind.render_nl(self.line)
    }
}

impl ErrorKind {
    pub fn render_nl(&self, line: u32) -> (r: String)
        ensures
            r@ == sentence(*self, line),
    {
        let l = decimal_string(line as u128);
        let mut s = String::new();
        match self {
            ErrorKind::AssignToUndeclared { rhs, name } => {
                s.append("je probeerde '");
                s.append(rhs.as_str());
                s.append("' toe te kennen aan '");
                s.append(name.as_str());
                s.append("' op regel ");
                s.append(l.as_str());
                s.append(", maar '");
                s.append(name.as_str());
                s.append("' bestaat op dat moment nog niet. misschien wil je '");
                s.append(name.as_str());
                s.append("' eerst maken met 'maak ");
                s.append(name.as_str());
                s.append("'?");
            },
            ErrorKind::PrintNil { name } => {
                s.append("je probeerde '");
                s.append(name.as_str());
                s.append("' te printen, maar die had op dat moment de waarde nil. ik weet niet hoe ik nil moet printen.");
            },
            ErrorKind::NilInExpr { name } => {
                s.append("'");
                s.append(name.as_str());
                s.append("' bestaat wel, maar had op dat moment de waarde nil. ik weet niet hoe ik daar mee moet rekenen.");
            },
            ErrorKind::BareRandom => {
                s.append("random waarvan? ik kan alleen willekeurig kiezen als er een werkwoord voor staat dat weet waaruit het mag kiezen, zoals 'vooruit random' of 'draai random'.");
            },
            ErrorKind::DynamicNameNotFound { full, prefix, var } => {
                s.append("ik probeerde '");
                s.append(full.as_str());
                s.append("' te vinden, opgebouwd uit '");
                s.append(prefix.as_str());
                s.append("' en de waarde van ");
                s.append(var.as_str());
                s.append(", maar die bestaat niet.");
            },
            ErrorKind::UnknownName { name } => {
                s.append("ik ken geen '");
                s.append(name.as_str());
                s.append("'. misschien moet je die eerst maken met 'maak ");
                s.append(name.as_str());
                s.append("'?");
            },
            ErrorKind::UnknownNameTurtleHint { name } => {
                s.append("ik ken geen '");
                s.append(name.as_str());
                s.append("'. heb je die al gemaakt met 'maak ");
                s.append(name.as_str());
                s.append(" schildpad'?");
            },
            ErrorKind::ReservedAsName { word } => {
                s.append("'");
                s.append(word.as_str());
                s.append("' is een gereserveerd woord; je kunt het niet als naam gebruiken.");
            },
            ErrorKind::VerbWantsTurtle { verb, example } => {
                s.append("'");
                s.append(verb.as_str());
                s.append("' wil weten welke schildpad het moet besturen, maar ik zie er geen op deze regel. bijvoorbeeld: '");
                s.append(example.as_str());
                s.append("'.");
            },
            ErrorKind::VerbWantsNumber { verb } => {
                s.append("'");
                s.append(verb.as_str());
                s.append("' wil een getal (een afstand), maar dat zie ik niet op deze regel. bijvoorbeeld '");
                s.append(verb.as_str());
                s.append(" 50 ...'.");
            },
            ErrorKind::VerbWantsDirection { verb } => {
                s.append("'");
                s.append(verb.as_str());
                s.append("' wil een richting, zoals 'links' of 'rechts'.");
            },
            ErrorKind::VerbWantsColour { verb } => {
                s.append("'");
                s.append(verb.as_str());
                s.append("' wil een kleur, zoals 'rood' of 'blauw'.");
            },
            ErrorKind::WrongTypeForVerb { name, ty, verb } => {
                s.append("'");
                s.append(name.as_str());
                s.append("' is een ");
                s.append(ty.as_str());
                s.append("; daar weet '");
                s.append(verb.as_str());
                s.append("' geen raad mee.");
            },
            ErrorKind::TypeMismatch { wanted, got } => {
                s.append("ik wilde hier een ");
                s.append(wanted.as_str());
                s.append(", maar kreeg een ");
                s.append(got.as_str());
                s.append(".");
            },
            ErrorKind::DivideByZero => {
                s.append("ik kan niet door nul delen.");
            },
            ErrorKind::UnconsumedTokens { leftover } => {
                s.append("ik snapte het begin van regel ");
                s.append(l.as_str());
                s.append(", maar wist niet wat ik met '");
                s.append(leftover.as_str());
                s.append("' moest. ik laat liever niets stiekem vallen.");
            },
            ErrorKind::ExpectedMoreInExpr => {
                s.append("ik verwachtte hier nog een getal of een naam, maar de regel hield op.");
            },
            ErrorKind::NotUnderstood { text } => {
                s.append("ik begreep '");
                s.append(text.as_str());
                s.append("' hier niet.");
            },
            ErrorKind::NotAStatement { src } => {
                s.append("ik weet niet wat ik met '");
                s.append(src.as_str());
                s.append("' moet doen. een regel begint meestal met 'maak', 'print', of een werkwoord zoals 'vooruit'.");
            },
            ErrorKind::RandomVerbCannotSample { verb } => {
                s.append("'");
                s.append(verb.as_str());
                s.append("' kan niets willekeurig kiezen. random werkt bij 'vooruit' (een afstand) en 'draai' (links of rechts).");
            },
            ErrorKind::LoopViaEnter => {
                s.append("een herhaal- of doe-lus moet je met de afspeelknop of stap-knop draaien, niet los met enter.");
            },
            ErrorKind::MaakNeedsName => {
                s.append("na 'maak' verwacht ik een naam, bijvoorbeeld 'maak pietje schildpad'.");
            },
            ErrorKind::MaakNotUnderstood { src, name } => {
                s.append("ik begreep '");
                s.append(src.as_str());
                s.append("' niet. probeer 'maak ");
                s.append(name.as_str());
                s.append(" schildpad' of 'maak ");
                s.append(name.as_str());
                s.append(" = 0'.");
            },
            ErrorKind::MaakNameNotAWord { word } => {
                s.append("ik kan hier geen naam van maken: links van '=' hoort een naam te staan, niet '");
                s.append(word.as_str());
                s.append("'. bijvoorbeeld 'maak score = 0'.");
            },
            ErrorKind::CurriedRandom { verb } => {
                s.append("een actie met 'random' erin kan ik niet opslaan: dan zou ik '");
                s.append(verb.as_str());
                s.append(" random' één keer gooien en dat ene getal voor altijd onthouden. schrijf '");
                s.append(verb.as_str());
                s.append(" random pietje' los in je lus, dan gooit hij elke keer opnieuw.");
            },
            ErrorKind::CurryPlay => {
                s.append("je kunt 'play' niet half af opslaan als actie. maak liever een deuntje: 'maak liedje deuntje = do re mi'.");
            },
            ErrorKind::NumberOutOfRange => {
                s.append("dit getal wordt te groot of te fijn om nog precies mee te rekenen.");
            },
        }
        s
    }
}

/// Convenience constructor.
pub fn err(line: u32, kind: ErrorKind) -> (e: SchildpadError)
    ensures
        e.line == line,
        e.kind == kind,
{
    SchildpadError { line, kind }
}


/// The texts an error carries, each of which its sentence quotes.
pub open spec fn text_fields(kind: ErrorKind) -> Seq<Seq<char>> {
    match kind {
        ErrorKind::AssignToUndeclared { rhs, name } => seq![rhs@, name@],
        ErrorKind::PrintNil { name } => seq![name@],
        ErrorKind::NilInExpr { name } => seq![name@],
        ErrorKind::DynamicNameNotFound { full, prefix, var } => seq![full@, prefix@, var@],
        ErrorKind::UnknownName { name } => seq![name@],
        ErrorKind::UnknownNameTurtleHint { name } => seq![name@],
        ErrorKind::ReservedAsName { word } => seq![word@],
        ErrorKind::VerbWantsTurtle { verb, example } => seq![verb@, example@],
        ErrorKind::VerbWantsNumber { verb } => seq![verb@],
        ErrorKind::VerbWantsDirection { verb } => seq![verb@],
        ErrorKind::VerbWantsColour { verb } => seq![verb@],
        ErrorKind::WrongTypeForVerb { name, ty, verb } => seq![name@, ty@, verb@],
        ErrorKind::TypeMismatch { wanted, got } => seq![wanted@, got@],
        ErrorKind::UnconsumedTokens { leftover } => seq![leftover@],
        ErrorKind::NotUnderstood { text } => seq![text@],
        ErrorKind::NotAStatement { src } => seq![src@],
        ErrorKind::RandomVerbCannotSample { verb } => seq![verb@],
        ErrorKind::MaakNotUnderstood { src, name } => seq![src@, name@],
        ErrorKind::MaakNameNotAWord { word } => seq![word@],
        ErrorKind::CurriedRandom { verb } => seq![verb@],
        _ => seq![],
    }
}

/// `f` stands in `s` as a contiguous run.
pub open spec fn quotes(s: Seq<char>, f: Seq<char>) -> bool {
    exists|i: int| 0 <= i && i + f.len() <= s.len() && #[trigger] s.subrange(i, i + f.len()) == f
}

proof fn lemma_quotes_middle(a: Seq<char>, f: Seq<char>)
    ensures
        quotes(a + f, f),
{
    assert((a + f).subrange(a.len() as int, (a.len() + f.len()) as int) =~= f);
}

proof fn lemma_quotes_extend(x: Seq<char>, y: Seq<char>, f: Seq<char>)
    requires
        quotes(x, f),
    ensures
        quotes(x + y, f),
{
    let i = choose|i: int| 0 <= i && i + f.len() <= x.len() && #[trigger] x.subrange(i, i + f.len()) == f;
    assert((x + y).subrange(i, i + f.len()) =~= x.subrange(i, i + f.len()));
}

/// Every sentence holds the texts of its error (the names, words and source it is about), so
/// the child sees exactly what went wrong.
pub proof fn law_sentence_quotes_its_fields(kind: ErrorKind, line: u32)
    ensures
        forall|k: int| 0 <= k < text_fields(kind).len() ==> quotes(sentence(kind, line), #[trigger] text_fields(kind)[k]),
{
    assert forall|a: Seq<char>, f: Seq<char>| #[trigger] quotes(a + f, f) by {
        lemma_quotes_middle(a, f);
    }
    assert forall|x: Seq<char>, y: Seq<char>, f: Seq<char>| quotes(x, f) implies #[trigger] quotes(x + y, f) by {
        lemma_quotes_extend(x, y, f);
    }
}

} // verus!
