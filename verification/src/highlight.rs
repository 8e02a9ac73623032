//! Syntax-highlighting spans for the editor: a pure projection of the lexer's classification
//! into a small set of colour kinds — no parsing, no evaluation. The same kinds drive editor
//! highlighting and the on-screen keyboard palette.

use vstd::prelude::*;

use crate::lexer::{lexed, tokenize_chars, Tok, Token};
use crate::text::{copy_range, str_chars};

verus! {

/// The colour kind of a token. Each kind gets exactly one colour, shared editor ↔ palette.
#[derive(Debug, Clone, Copy, PartialEq, Eq, Structural)]
pub enum Kind {
    /// maak, print, herhaal, doe, keer, stop, als, anders, wrapmode, groter/kleiner/gelijk.
    Keyword,
    /// vooruit, achteruit, draai, pen, penomhoog, penomlaag, play.
    Verb,
    /// Reserved type words: schildpad, getal, draairichting, toon, deuntje.
    Type,
    /// Colour names.
    Colour,
    /// Note literals.
    Note,
    /// Other builtin value words: links, rechts, stilte, and the presets.
    Value,
    /// `random` — the one source of unpredictability; deliberately its own colour.
    Random,
    Number,
    Text,
    /// Operators and brackets: + - * / = ( ) [ ].
    Op,
    /// A user identifier — the child's own words.
    Name,
    /// A stray character (lexically suspect; paired with `ok == false`).
    Unknown,
}

pub open spec fn kind_tag(k: Kind) -> &'static str {
    match k {
        Kind::Keyword => "keyword",
        Kind::Verb => "verb",
        Kind::Type => "type",
        Kind::Colour => "colour",
        Kind::Note => "note",
        Kind::Value => "value",
        Kind::Random => "random",
        Kind::Number => "number",
        Kind::Text => "text",
        Kind::Op => "op",
        Kind::Name => "name",
        Kind::Unknown => "unknown",
    }
}

impl Kind {
    /// A stable lowercase tag for the host.
    pub fn tag(self) -> (r: &'static str)
        ensures
            r == kind_tag(self),
    {
        match self {
            Kind::Keyword => "keyword",
            Kind::Verb => "verb",
            Kind::Type => "type",
            Kind::Colour => "colour",
            Kind::Note => "note",
            Kind::Value => "value",
            Kind::Random => "random",
            Kind::Number => "number",
            Kind::Text => "text",
            Kind::Op => "op",
            Kind::Name => "name",
            Kind::Unknown => "unknown",
        }
    }
}

/// One highlighted span: a token's position (1-based line, 0-based column, length — both in
/// characters), its colour kind, and whether it is lexically sound.
#[derive(Debug, Clone, PartialEq, Eq)]
pub struct Span {
    pub line: u32,
    pub col: u32,
    pub len: u32,
    pub kind: Kind,
    pub ok: bool,
}

pub open spec fn kind_of_tok(t: Tok) -> Kind {
    match t {
        Tok::Maak | Tok::Print | Tok::WrapMode | Tok::Loop(_) | Tok::LoopKeer | Tok::Stop
        | Tok::If | Tok::Else | Tok::Compare(_) => Kind::Keyword,
        Tok::Random => Kind::Random,
        Tok::Verb(_) => Kind::Verb,
        Tok::Type(_) => Kind::Type,
        Tok::Colour(_) => Kind::Colour,
        Tok::Note(_, _) => Kind::Note,
        Tok::Const(_) | Tok::Osc(_) | Tok::Env(_) => Kind::Value,
        Tok::Number(_) | Tok::BigNumber(_) => Kind::Number,
        Tok::Str(_) => Kind::Text,
        Tok::Op(_) | Tok::LParen | Tok::RParen | Tok::LBracket | Tok::RBracket => Kind::Op,
        Tok::Name(_) => Kind::Name,
        Tok::Unknown(_) => Kind::Unknown,
    }
}

pub fn kind_of(t: &Tok) -> (k: Kind)
    ensures
        k == kind_of_tok(*t),
{
    match t {
        Tok::Maak | Tok::Print | Tok::WrapMode | Tok::Loop(_) | Tok::LoopKeer | Tok::Stop
        | Tok::If | Tok::Else | Tok::Compare(_) => Kind::Keyword,
        Tok::Random => Kind::Random,
        Tok::Verb(_) => Kind::Verb,
        Tok::Type(_) => Kind::Type,
        Tok::Colour(_) => Kind::Colour,
        Tok::Note(_, _) => Kind::Note,
        Tok::Const(_) | Tok::Osc(_) | Tok::Env(_) => Kind::Value,
        Tok::Number(_) | Tok::BigNumber(_) => Kind::Number,
        Tok::Str(_) => Kind::Text,
        Tok::Op(_) | Tok::LParen | Tok::RParen | Tok::LBracket | Tok::RBracket => Kind::Op,
        Tok::Name(_) => Kind::Name,
        Tok::Unknown(_) => Kind::Unknown,
    }
}

/// The index of the first `'\n'` in `cs` at or after `i`, or `cs.len()`.
pub open spec fn line_end(cs: Seq<char>, i: int) -> int
    decreases cs.len() - i,
{
    if i >= cs.len() || i < 0 { cs.len() as int } else if cs[i] == '\n' { i } else { line_end(cs, i + 1) }
}

/// The lines of `cs` from position `i` on, split at `'\n'` (a trailing newline gives a last,
/// empty line).
pub open spec fn lines_from(cs: Seq<char>, i: int) -> Seq<Seq<char>>
    decreases cs.len() - i,
{
    let e = line_end(cs, i);
    proof {
        lemma_line_end_bounds(cs, i);
    }
    if i < 0 || i > cs.len() || e >= cs.len() {
        seq![cs.subrange(if 0 <= i <= cs.len() { i } else { cs.len() as int }, cs.len() as int)]
    } else {
        seq![cs.subrange(i, e)] + lines_from(cs, e + 1)
    }
}

pub proof fn lemma_line_end_bounds(cs: Seq<char>, i: int)
    ensures
        0 <= i <= cs.len() ==> i <= line_end(cs, i) <= cs.len(),
    decreases cs.len() - i,
{
    if 0 <= i < cs.len() && cs[i] != '\n' {
        lemma_line_end_bounds(cs, i + 1);
    }
}

pub proof fn lemma_lines_from_nonempty(cs: Seq<char>, i: int)
    ensures
        lines_from(cs, i).len() >= 1,
{
    lemma_line_end_bounds(cs, i);
}

/// The lines of a source text.
pub open spec fn source_lines(cs: Seq<char>) -> Seq<Seq<char>> {
    lines_from(cs, 0)
}

pub open spec fn span_of(line_index: int, t: Token) -> Span {
    Span {
        line: (line_index as u32).wrapping_add(1),
        col: t.col as u32,
        len: t.len as u32,
        kind: kind_of_tok(t.kind),
        ok: t.ok,
    }
}

/// The spans of a list of lines with their token lists.
pub open spec fn spans_of(tss: Seq<Seq<Token>>) -> Seq<Span>
    decreases tss.len(),
{
    if tss.len() == 0 {
        seq![]
    } else {
        spans_of(tss.drop_last()) + tss.last().map_values(|t: Token| span_of(tss.len() - 1, t))
    }
}

pub open spec fn highlighted(cs: Seq<char>, spans: Seq<Span>) -> bool {
    exists|tss: Seq<Seq<Token>>|
        #![trigger spans_of(tss)]
        tss.len() == source_lines(cs).len()
            && (forall|i: int| 0 <= i < tss.len() ==> lexed(#[trigger] source_lines(cs)[i], tss[i]))
            && spans == spans_of(tss)
}

fn find_line_end(cs: &[char], i: usize) -> (e: usize)
    requires
        i <= cs@.len(),
    ensures
        e == line_end(cs@, i as int),
        i <= e <= cs@.len(),
{
    let mut e = i;
    while e < cs.len() && cs[e] != '\n'
        invariant
            i <= e <= cs@.len(),
            line_end(cs@, i as int) == line_end(cs@, e as int),
        decreases cs@.len() - e,
    {
        e += 1;
    }
    e
}

proof fn lemma_spans_of_push(tss: Seq<Seq<Token>>, ts: Seq<Token>)
    ensures
        spans_of(tss.push(ts)) == spans_of(tss) + ts.map_values(|t: Token| span_of(tss.len() as int, t)),
{
    assert(tss.push(ts).drop_last() =~= tss);
}

/// Tokenize each line of `src` and return a flat list of colour spans in document order.
pub fn highlight(src: &str) -> (spans: Vec<Span>)
    ensures
        highlighted(src@, spans@),
{
    let cs = str_chars(src);
    let n = cs.len();
    let ghost all = source_lines(cs@);
    let mut spans: Vec<Span> = Vec::new();
    let ghost mut tss: Seq<Seq<Token>> = seq![];
    let mut i: usize = 0;
    let mut line_no: usize = 0;
    loop
        invariant_except_break
            line_no == tss.len(),
            line_no <= i,
            tss.len() < all.len(),
            lines_from(cs@, i as int) == all.subrange(tss.len() as int, all.len() as int),
        invariant
            n == cs@.len(),
            i <= n,
            forall|k: int| 0 <= k < tss.len() ==> lexed(#[trigger] all[k], tss[k]),
            spans@ == spans_of(tss),
        ensures
            tss.len() == all.len(),
            forall|k: int| 0 <= k < tss.len() ==> lexed(#[trigger] all[k], tss[k]),
            spans@ == spans_of(tss),
        decreases n - i,
    {
        let e = find_line_end(cs.as_slice(), i);
        let line = copy_range(cs.as_slice(), i, e);
        let toks = tokenize_chars(line.as_slice());
        proof {
            lemma_line_end_bounds(cs@, i as int);
            assert(lines_from(cs@, i as int)[0] == all[tss.len() as int]);
            assert(lines_from(cs@, i as int)[0] == cs@.subrange(i as int, e as int));
        }
        let ln = (line_no as u32).wrapping_add(1);
        let mut k: usize = 0;
        let ghost before = spans@;
        while k < toks.len()
            invariant
                k <= toks@.len(),
                ln == (tss.len() as u32).wrapping_add(1),
                spans@ == before + toks@.subrange(0, k as int).map_values(|t: Token| span_of(tss.len() as int, t)),
            decreases toks@.len() - k,
        {
            let t = &toks[k];
            spans.push(Span { line: ln, col: t.col as u32, len: t.len as u32, kind: kind_of(&t.kind), ok: t.ok });
            k += 1;
            assert(toks@.subrange(0, k as int).map_values(|t: Token| span_of(tss.len() as int, t)) =~=
                toks@.subrange(0, k - 1 as int).map_values(|t: Token| span_of(tss.len() as int, t)).push(span_of(tss.len() as int, toks@[k - 1])));
        }
        assert(toks@.subrange(0, toks@.len() as int) =~= toks@);
        let ghost old_len = tss.len();
        proof {
            lemma_spans_of_push(tss, toks@);
            tss = tss.push(toks@);
        }
        if e >= n {
            break;
        }
        proof {
            let rest = lines_from(cs@, e + 1);
            lemma_lines_from_nonempty(cs@, e + 1);
            let whole = lines_from(cs@, i as int);
            assert(whole == seq![cs@.subrange(i as int, e as int)] + rest);
            assert(whole == all.subrange(old_len as int, all.len() as int));
            assert forall|j: int| 0 <= j < rest.len() implies rest[j] == all[old_len + 1 + j] by {
                assert(rest[j] == whole[j + 1]);
            }
            assert(rest =~= all.subrange(tss.len() as int, all.len() as int));
        }
        line_no += 1;
        i = e + 1;
    }
    proof {
        assert(spans_of(tss) == spans@);
    }
    spans
}


/// Each kind of word is highlighted as what it is, and nothing else gets its colour: colour
/// words as colours, notes as notes, numbers as numbers, strings as text, the child's own
/// names as names, verbs as verbs, type words as types, `random` as random, builtin values
/// and presets as values, operators and brackets as operators, keywords as keywords, and what
/// the lexer could not read as unknown.
pub proof fn law_words_get_their_own_kind(t: Tok)
    ensures
        t is Colour <==> kind_of_tok(t) == Kind::Colour,
        t is Note <==> kind_of_tok(t) == Kind::Note,
        (t is Number || t is BigNumber) <==> kind_of_tok(t) == Kind::Number,
        t is Str <==> kind_of_tok(t) == Kind::Text,
        t is Name <==> kind_of_tok(t) == Kind::Name,
        t is Verb <==> kind_of_tok(t) == Kind::Verb,
        t is Type <==> kind_of_tok(t) == Kind::Type,
        t == Tok::Random <==> kind_of_tok(t) == Kind::Random,
        t is Unknown <==> kind_of_tok(t) == Kind::Unknown,
        (t is Const || t is Osc || t is Env) <==> kind_of_tok(t) == Kind::Value,
        (t is Op || t is LParen || t is RParen || t is LBracket || t is RBracket) <==> kind_of_tok(t) == Kind::Op,
        (t is Maak || t is Print || t is WrapMode || t is Loop || t is LoopKeer || t is Stop || t is If || t is Else || t is Compare)
            <==> kind_of_tok(t) == Kind::Keyword,
{
}

} // verus!
