//! The tokenizer. Classifies each word against the vocabulary so the parser and resolver work
//! on typed tokens. A name may carry dynamic interpolation (`a-'i`, `a-'(i+1)`), captured whole
//! here and expanded by the resolver.

use vstd::prelude::*;

use crate::number::{normal_form, Getal};
use crate::text::{ascii_lower, ascii_lowercase, chars_to_string, copy_range, str_chars};
use crate::vocab::{
    colour_of, colour_of_word, constant_of, constant_of_word, envelope_of, envelope_of_word,
    keyword_of, keyword_of_word, note_of, note_of_word, osc_of, osc_of_word, reserved_type_of,
    reserved_type_of_word, verb_of, verb_of_word, Colour, Constant, Envelope, KwKind, Note, Osc,
    Type, Verb,
};

verus! {

#[derive(Debug, Clone, Copy, PartialEq, Eq, Structural)]
pub enum Cmp {
    Groter,
    Kleiner,
    Gelijk,
}

/// Which loop word: `herhaal` or `doe` (they differ: only `doe` has the unbounded form).
#[derive(Debug, Clone, Copy, PartialEq, Eq, Structural)]
pub enum LoopWord {
    Herhaal,
    Doe,
}

#[derive(Debug, Clone, PartialEq)]
pub enum Tok {
    Maak,
    Print,
    Random,
    WrapMode,
    Loop(LoopWord),
    LoopKeer,
    /// break out of the innermost loop
    Stop,
    If,
    Else,
    Compare(Cmp),
    Verb(Verb),
    Type(Type),
    Colour(Colour),
    Osc(Osc),
    Env(Envelope),
    /// a note and its duration in beats: `do` = 1, `do2` = 2, `do/4` = 1/4
    Note(Note, Getal),
    /// links / rechts / stilte
    Const(Constant),
    Number(Getal),
    /// a number literal too large to hold exactly, with its text
    BigNumber(String),
    Str(String),
    /// `+`, `-`, `*`, `/`, `=`
    Op(u8),
    LParen,
    RParen,
    LBracket,
    RBracket,
    /// A user identifier, with its exact text (including any `'` interpolation).
    Name(String),
    Unknown(char),
}

#[derive(Debug, Clone, PartialEq)]
pub struct Token {
    pub kind: Tok,
    pub col: usize,
    pub len: usize,
    /// false for an unclosed string, an unknown character or an out-of-range number — a hint
    /// that the token is lexically suspect.
    pub ok: bool,
}

// ---- character classes ----------------------------------------------------------------------

pub open spec fn is_blank(c: char) -> bool {
    c == ' ' || c == '\t'
}

pub open spec fn is_digit(c: char) -> bool {
    '0' <= c <= '9'
}

pub open spec fn is_alpha(c: char) -> bool {
    ('a' <= c <= 'z') || ('A' <= c <= 'Z')
}

pub open spec fn name_char(c: char) -> bool {
    is_alpha(c) || is_digit(c) || c == '_'
}

pub open spec fn is_op_char(c: char) -> bool {
    c == '+' || c == '-' || c == '*' || c == '/' || c == '='
}

pub fn is_name_start(c: char) -> (r: bool)
    ensures
        r == is_alpha(c),
{
    ('a' <= c && c <= 'z') || ('A' <= c && c <= 'Z')
}

pub fn is_name_char(c: char) -> (r: bool)
    ensures
        r == name_char(c),
{
    ('a' <= c && c <= 'z') || ('A' <= c && c <= 'Z') || ('0' <= c && c <= '9') || c == '_'
}

fn is_digit_char(c: char) -> (r: bool)
    ensures
        r == is_digit(c),
{
    '0' <= c && c <= '9'
}

// ---- the specification of a token -----------------------------------------------------------

pub open spec fn token_text(cs: Seq<char>, t: Token) -> Seq<char> {
    cs.subrange(t.col as int, t.col + t.len)
}

pub open spec fn token_end(t: Token) -> int {
    t.col + t.len
}

/// The value of a run of decimal digits.
pub open spec fn digits_value(ds: Seq<char>) -> nat
    decreases ds.len(),
{
    if ds.len() == 0 {
        0
    } else {
        digits_value(ds.drop_last()) * 10 + ((ds.last() as u32) - ('0' as u32)) as nat
    }
}

pub open spec fn pow10(k: nat) -> nat
    decreases k,
{
    if k == 0 { 1 } else { 10 * pow10((k - 1) as nat) }
}

pub open spec fn count_dots(s: Seq<char>) -> nat
    decreases s.len(),
{
    if s.len() == 0 { 0 } else { count_dots(s.drop_last()) + if s.last() == '.' { 1nat } else { 0nat } }
}

/// A number literal's digits with the dot removed.
pub open spec fn mantissa_digits(s: Seq<char>) -> Seq<char>
    decreases s.len(),
{
    if s.len() == 0 {
        s
    } else if s.last() == '.' {
        mantissa_digits(s.drop_last())
    } else {
        mantissa_digits(s.drop_last()).push(s.last())
    }
}

/// The number of digits after the dot (none without a dot).
pub open spec fn frac_len(s: Seq<char>) -> nat
    decreases s.len(),
{
    if s.len() == 0 || s.last() == '.' || count_dots(s.drop_last()) == 0 { 0 } else { frac_len(s.drop_last()) + 1 }
}

/// Literals with more than this many digits are not taken as exact numbers.
pub open spec fn max_literal_digits() -> nat {
    36
}

/// The length of the maximal run of name characters starting at `i`.
pub open spec fn name_run(cs: Seq<char>, i: int) -> nat
    decreases cs.len() - i,
{
    if 0 <= i < cs.len() && name_char(cs[i]) { 1 + name_run(cs, i + 1) } else { 0 }
}

/// The length of the maximal run of digits starting at `i`.
pub open spec fn digit_run(cs: Seq<char>, i: int) -> nat
    decreases cs.len() - i,
{
    if 0 <= i < cs.len() && is_digit(cs[i]) { 1 + digit_run(cs, i + 1) } else { 0 }
}

/// The length of the maximal run of digits and dots starting at `i`.
pub open spec fn number_run(cs: Seq<char>, i: int) -> nat
    decreases cs.len() - i,
{
    if 0 <= i < cs.len() && (is_digit(cs[i]) || cs[i] == '.') { 1 + number_run(cs, i + 1) } else { 0 }
}

/// A number literal: the maximal run of digits and dots starting with a digit, always well
/// formed. With at most one dot it denotes `mantissa / 10^frac_len` exactly; a literal too large
/// to hold exactly keeps its text (the range problem is reported where it is used); a
/// malformed literal (two or more dots) denotes 0.
pub open spec fn number_token(cs: Seq<char>, t: Token) -> bool {
    let text = token_text(cs, t);
    &&& t.len == number_run(cs, t.col as int)
    &&& t.ok
    &&& if count_dots(text) > 1 {
        t.kind matches Tok::Number(g) && g@ == (0int, 1int)
    } else if mantissa_digits(text).len() <= max_literal_digits() && normal_form(
        digits_value(mantissa_digits(text)) as int,
        pow10(frac_len(text)) as int,
    ) is Some {
        t.kind matches Tok::Number(g) && Some(g@) == normal_form(
            digits_value(mantissa_digits(text)) as int,
            pow10(frac_len(text)) as int,
        )
    } else {
        t.kind matches Tok::BigNumber(s) && s@ == text
    }
}

/// A string literal: from `"` to the next `"` (ok), or to the end of the line (suspect).
pub open spec fn string_token(cs: Seq<char>, t: Token) -> bool {
    let text = token_text(cs, t);
    &&& t.kind matches Tok::Str(v)
    &&& forall|k: int| 0 <= k < v@.len() ==> #[trigger] v@[k] != '"'
    &&& if t.ok {
        text.len() >= 2 && text.last() == '"' && v@ == text.subrange(1, text.len() - 1)
    } else {
        token_end(t) == cs.len() && v@ == text.drop_first()
    }
}

/// The meaning of a word given its ASCII-lowercase form (`raw` is kept for names).
pub open spec fn word_meaning(lower: Seq<char>, raw: Seq<char>, kind: Tok) -> bool {
    if lower == "random"@ {
        kind == Tok::Random
    } else if keyword_of_word(lower) is Some {
        kind == keyword_tok(keyword_of_word(lower).unwrap(), lower)
    } else if reserved_type_of_word(lower) is Some {
        kind == Tok::Type(reserved_type_of_word(lower).unwrap())
    } else if verb_of_word(lower) is Some {
        kind == Tok::Verb(verb_of_word(lower).unwrap())
    } else if constant_of_word(lower) is Some {
        kind == Tok::Const(constant_of_word(lower).unwrap())
    } else if colour_of_word(lower) is Some {
        kind == Tok::Colour(colour_of_word(lower).unwrap())
    } else if osc_of_word(lower) is Some {
        kind == Tok::Osc(osc_of_word(lower).unwrap())
    } else if envelope_of_word(lower) is Some {
        kind == Tok::Env(envelope_of_word(lower).unwrap())
    } else {
        kind matches Tok::Name(s) && s@ == raw
    }
}

pub open spec fn keyword_tok(kw: KwKind, lower: Seq<char>) -> Tok {
    match kw {
        KwKind::Maak => Tok::Maak,
        KwKind::Print => Tok::Print,
        KwKind::Loop => Tok::Loop(if lower == "herhaal"@ { LoopWord::Herhaal } else { LoopWord::Doe }),
        KwKind::LoopAux => Tok::LoopKeer,
        KwKind::Break => Tok::Stop,
        KwKind::If => Tok::If,
        KwKind::Else => Tok::Else,
        KwKind::WrapMode => Tok::WrapMode,
        KwKind::Compare => Tok::Compare(
            if lower == "groter"@ { Cmp::Groter } else if lower == "kleiner"@ { Cmp::Kleiner } else { Cmp::Gelijk },
        ),
    }
}

/// The length of the maximal run of letters in `s` starting at `i`.
pub open spec fn alpha_run(s: Seq<char>, i: int) -> nat
    decreases s.len() - i,
{
    if 0 <= i < s.len() && is_alpha(s[i]) { 1 + alpha_run(s, i + 1) } else { 0 }
}

/// The length of the alphabetic prefix of `s`.
pub open spec fn alpha_prefix_len(s: Seq<char>) -> nat {
    alpha_run(s, 0)
}

/// A note word with an optional whole number of beats (`do`, `do2`): the note and the beats,
/// or `None` for any other word (`dog`, `do_x`, `do2x` stay names).
pub open spec fn note_with_beats(lower: Seq<char>) -> Option<(Note, nat)> {
    let split = alpha_prefix_len(lower);
    let base = lower.subrange(0, split as int);
    let rest = lower.subrange(split as int, lower.len() as int);
    if rest.len() != 0 && !(forall|k: int| 0 <= k < rest.len() ==> is_digit(#[trigger] rest[k])) {
        None
    } else if note_of_word(base) is None {
        None
    } else if rest.len() == 0 {
        Some((note_of_word(base).unwrap(), 1))
    } else {
        let v = digits_value(rest);
        Some((note_of_word(base).unwrap(), if v > u32::MAX { 1 } else if v == 0 { 1 } else { v }))
    }
}

/// After a name, a `'` or `-'` continues it with interpolation (`a'i`, `a-'i`, `a-'(i+1)`).
pub open spec fn continues_dynamically(cs: Seq<char>, j: int) -> bool {
    j < cs.len() && (cs[j] == '\'' || (cs[j] == '-' && j + 1 < cs.len() && cs[j + 1] == '\''))
}

/// Where a parenthesised interpolation closes: scanning from `j` with `depth` open
/// parentheses, the position just after the one that closes the first (or the end of the line).
pub open spec fn paren_close(cs: Seq<char>, j: int, depth: nat) -> int
    decreases cs.len() - j,
{
    if 0 <= j < cs.len() && depth > 0 {
        paren_close(
            cs,
            j + 1,
            if cs[j] == '(' { depth + 1 } else if cs[j] == ')' { (depth - 1) as nat } else { depth },
        )
    } else {
        j
    }
}

pub proof fn lemma_paren_close_after(cs: Seq<char>, j: int, depth: nat)
    requires
        0 <= j <= cs.len(),
    ensures
        j <= paren_close(cs, j, depth) <= cs.len(),
    decreases cs.len() - j,
{
    if j < cs.len() && depth > 0 {
        lemma_paren_close_after(
            cs,
            j + 1,
            if cs[j] == '(' { depth + 1 } else if cs[j] == ')' { (depth - 1) as nat } else { depth },
        );
    }
}

/// Where a dynamic name that continues at `j` ends: each `'` is followed by a parenthesised
/// expression (to its matching `)`) or a run of name characters, and `-'` carries it on.
pub open spec fn dynamic_end(cs: Seq<char>, j: int) -> int
    decreases cs.len() - j,
{
    if 0 <= j < cs.len() && cs[j] == '\'' {
        if j + 1 < cs.len() && cs[j + 1] == '(' {
            proof {
                lemma_paren_close_after(cs, j + 2, 1);
            }
            dynamic_end(cs, paren_close(cs, j + 2, 1))
        } else {
            proof {
                lemma_name_run_bound(cs, j + 1);
            }
            dynamic_end(cs, j + 1 + name_run(cs, j + 1))
        }
    } else if 0 <= j && j + 1 < cs.len() && cs[j] == '-' && cs[j + 1] == '\'' {
        dynamic_end(cs, j + 1)
    } else {
        j
    }
}

/// `1/N` of a beat for the fraction suffix `/N` (N read as a u32; 0 or too large reads as 1).
pub open spec fn fraction_den(v: nat) -> nat {
    if v > u32::MAX { 1 } else if v == 0 { 1 } else { v }
}

/// A word: the maximal run of name characters at the token's column. Followed by `'` or
/// `-'` it is a dynamic name (kept whole, never reserved). Otherwise it is a note (a bare note
/// may take a `/N` fraction suffix), or it is classified against the vocabulary.
pub open spec fn word_token(cs: Seq<char>, t: Token) -> bool {
    let i = t.col as int;
    let w = name_run(cs, i);
    let after = i + w;
    let core = cs.subrange(i, after);
    let lower = ascii_lower(core);
    &&& t.ok
    &&& if continues_dynamically(cs, after) {
        &&& t.len > w
        &&& t.col + t.len == dynamic_end(cs, after)
        &&& t.kind matches Tok::Name(s)
        &&& s@ == token_text(cs, t)
    } else if note_with_beats(lower) is Some {
        let (n, b) = note_with_beats(lower).unwrap();
        if alpha_prefix_len(core) == w && after + 1 < cs.len() && cs[after] == '/' && is_digit(cs[after + 1]) {
            let dl = digit_run(cs, after + 1);
            &&& t.len == w + 1 + dl
            &&& t.kind matches Tok::Note(nn, g)
            &&& nn == n
            &&& g@ == (1int, fraction_den(digits_value(cs.subrange(after + 1, after + 1 + dl))) as int)
        } else {
            &&& t.len == w
            &&& t.kind matches Tok::Note(nn, g)
            &&& nn == n
            &&& g@ == (b as int, 1int)
        }
    } else {
        t.len == w && word_meaning(lower, core, t.kind)
    }
}

/// Every token is classified by its first character.
pub open spec fn token_fits(cs: Seq<char>, t: Token) -> bool {
    let text = token_text(cs, t);
    let c = text[0];
    &&& t.len >= 1
    &&& token_end(t) <= cs.len()
    &&& !is_blank(c)
    &&& if c == '"' {
        string_token(cs, t)
    } else if is_digit(c) {
        number_token(cs, t)
    } else if is_op_char(c) {
        t.len == 1 && t.ok && t.kind == Tok::Op(c as u8)
    } else if c == '(' {
        t.len == 1 && t.ok && t.kind == Tok::LParen
    } else if c == ')' {
        t.len == 1 && t.ok && t.kind == Tok::RParen
    } else if c == '[' {
        t.len == 1 && t.ok && t.kind == Tok::LBracket
    } else if c == ']' {
        t.len == 1 && t.ok && t.kind == Tok::RBracket
    } else if is_alpha(c) {
        word_token(cs, t)
    } else {
        t.len == 1 && !t.ok && t.kind == Tok::Unknown(c)
    }
}

/// Where the blank stretch before token `i` starts.
pub open spec fn gap_start(ts: Seq<Token>, i: int) -> int {
    if i == 0 { 0 } else { token_end(ts[i - 1]) }
}

pub open spec fn blank_between(cs: Seq<char>, a: int, b: int) -> bool {
    forall|k: int| a <= k < b ==> is_blank(#[trigger] cs[k])
}

/// `ts` is the token list of the line `cs`: tokens in order without overlap, each one fitting
/// its text, and only blanks between them.
pub open spec fn lexed(cs: Seq<char>, ts: Seq<Token>) -> bool {
    &&& forall|i: int| 0 <= i < ts.len() ==> #[trigger] token_fits(cs, ts[i])
    &&& forall|i: int| 0 <= i < ts.len() ==> gap_start(ts, i) <= #[trigger] ts[i].col
    &&& forall|i: int| 0 <= i < ts.len() ==> blank_between(cs, gap_start(ts, i), #[trigger] ts[i].col as int)
    &&& blank_between(cs, gap_start(ts, ts.len() as int), cs.len() as int)
}


// ---- scanning ------------------------------------------------------------------------------

fn scan_name(cs: &[char], i: usize) -> (j: usize)
    requires
        i <= cs@.len(),
    ensures
        j == i + name_run(cs@, i as int),
        j <= cs@.len(),
        forall|k: int| i <= k < j ==> name_char(#[trigger] cs@[k]),
{
    let mut j = i;
    while j < cs.len() && is_name_char(cs[j])
        invariant
            i <= j <= cs@.len(),
            name_run(cs@, i as int) == (j - i) + name_run(cs@, j as int),
            forall|k: int| i <= k < j ==> name_char(#[trigger] cs@[k]),
        decreases cs@.len() - j,
    {
        j += 1;
    }
    j
}

fn scan_digits(cs: &[char], i: usize) -> (j: usize)
    requires
        i <= cs@.len(),
    ensures
        j == i + digit_run(cs@, i as int),
        j <= cs@.len(),
        forall|k: int| i <= k < j ==> is_digit(#[trigger] cs@[k]),
{
    let mut j = i;
    while j < cs.len() && is_digit_char(cs[j])
        invariant
            i <= j <= cs@.len(),
            digit_run(cs@, i as int) == (j - i) + digit_run(cs@, j as int),
            forall|k: int| i <= k < j ==> is_digit(#[trigger] cs@[k]),
        decreases cs@.len() - j,
    {
        j += 1;
    }
    j
}

fn scan_number(cs: &[char], i: usize) -> (j: usize)
    requires
        i <= cs@.len(),
    ensures
        j == i + number_run(cs@, i as int),
        j <= cs@.len(),
        forall|k: int| i <= k < j ==> (is_digit(#[trigger] cs@[k]) || cs@[k] == '.'),
{
    let mut j = i;
    while j < cs.len() && (is_digit_char(cs[j]) || cs[j] == '.')
        invariant
            i <= j <= cs@.len(),
            number_run(cs@, i as int) == (j - i) + number_run(cs@, j as int),
            forall|k: int| i <= k < j ==> (is_digit(#[trigger] cs@[k]) || cs@[k] == '.'),
        decreases cs@.len() - j,
    {
        j += 1;
    }
    j
}

proof fn lemma_digits_value_push(s: Seq<char>, c: char)
    ensures
        digits_value(s.push(c)) == digits_value(s) * 10 + ((c as u32) - ('0' as u32)) as nat,
{
    assert(s.push(c).drop_last() =~= s);
}

/// The value of a run of digits, or `None` when it exceeds `u32::MAX`.
fn digits_u32(cs: &[char], a: usize, b: usize) -> (r: Option<u64>)
    requires
        a <= b <= cs@.len(),
        forall|k: int| a <= k < b ==> is_digit(#[trigger] cs@[k]),
    ensures
        match r {
            Some(v) => v == digits_value(cs@.subrange(a as int, b as int)) && v <= u32::MAX,
            None => digits_value(cs@.subrange(a as int, b as int)) > u32::MAX,
        },
{
    let mut v: u64 = 0;
    let mut k = a;
    let mut over = false;
    while k < b
        invariant
            a <= k <= b <= cs@.len(),
            forall|m: int| a <= m < b ==> is_digit(#[trigger] cs@[m]),
            !over ==> v == digits_value(cs@.subrange(a as int, k as int)) && v <= u32::MAX,
            over ==> digits_value(cs@.subrange(a as int, k as int)) > u32::MAX,
        decreases b - k,
    {
        let c = cs[k];
        let d = (c as u32 - '0' as u32) as u64;
        proof {
            lemma_digits_value_push(cs@.subrange(a as int, k as int), c);
            assert(cs@.subrange(a as int, k + 1 as int) =~= cs@.subrange(a as int, k as int).push(c));
            assert(is_digit(cs@[k as int]));
        }
        if !over {
            let nv = v * 10 + d;
            if nv > 0xffff_ffff {
                over = true;
            } else {
                v = nv;
            }
        }
        k += 1;
    }
    if over { None } else { Some(v) }
}

proof fn lemma_count_dots_push(s: Seq<char>, c: char)
    ensures
        count_dots(s.push(c)) == count_dots(s) + if c == '.' { 1nat } else { 0nat },
        mantissa_digits(s.push(c)) == if c == '.' { mantissa_digits(s) } else { mantissa_digits(s).push(c) },
        frac_len(s.push(c)) == if c == '.' || count_dots(s) == 0 { 0 } else { frac_len(s) + 1 },
{
    assert(s.push(c).drop_last() =~= s);
}

proof fn lemma_frac_len_le(s: Seq<char>)
    ensures
        frac_len(s) <= mantissa_digits(s).len(),
    decreases s.len(),
{
    if s.len() > 0 {
        lemma_frac_len_le(s.drop_last());
    }
}

fn pow10_i128(k: u32) -> (r: i128)
    requires
        k <= 36,
    ensures
        r == pow10(k as nat),
        1 <= r <= 1_000_000_000_000_000_000_000_000_000_000_000_000,
{
    let mut r: i128 = 1;
    let mut i: u32 = 0;
    proof {
        lemma_pow10_mono(0, 36);
        assert(pow10(36) == 1_000_000_000_000_000_000_000_000_000_000_000_000) by {
            reveal_with_fuel(pow10, 37);
        }
    }
    while i < k
        invariant
            i <= k <= 36,
            r == pow10(i as nat),
            1 <= r <= pow10(i as nat),
            pow10(i as nat) <= pow10(36),
            pow10(36) == 1_000_000_000_000_000_000_000_000_000_000_000_000,
        decreases k - i,
    {
        proof {
            lemma_pow10_mono(i as nat + 1, 36);
        }
        r = r * 10;
        i += 1;
    }
    proof {
        assert(pow10(36) == 1_000_000_000_000_000_000_000_000_000_000_000_000) by {
            reveal_with_fuel(pow10, 37);
        }
    }
    r
}

proof fn lemma_pow10_mono(a: nat, b: nat)
    requires
        a <= b,
    ensures
        pow10(a) <= pow10(b),
    decreases b,
{
    if a < b {
        lemma_pow10_mono(a, (b - 1) as nat);
    }
}

/// The value of a number literal (a run of digits and dots) and whether it is well formed.
#[verifier::spinoff_prover]
#[verifier::rlimit(40)]
fn number_value(cs: &[char], a: usize, b: usize) -> (r: (Getal, bool))
    requires
        a <= b <= cs@.len(),
        forall|k: int| a <= k < b ==> (is_digit(#[trigger] cs@[k]) || cs@[k] == '.'),
    ensures
        ({
            let text = cs@.subrange(a as int, b as int);
            if count_dots(text) > 1 {
                r.0@ == (0int, 1int) && r.1
            } else if mantissa_digits(text).len() <= max_literal_digits() {
                match normal_form(digits_value(mantissa_digits(text)) as int, pow10(frac_len(text)) as int) {
                    Some(v) => r.0@ == v && r.1,
                    None => r.0@ == (0int, 1int) && !r.1,
                }
            } else {
                r.0@ == (0int, 1int) && !r.1
            }
        }),
{
    let mut mant: i128 = 0;
    let mut ndigits: u32 = 0;
    let mut nfrac: u32 = 0;
    let mut dots: u32 = 0;
    let mut k = a;
    while k < b
        invariant
            a <= k <= b <= cs@.len(),
            forall|m: int| a <= m < b ==> (is_digit(#[trigger] cs@[m]) || cs@[m] == '.'),
            ({
                let pre = cs@.subrange(a as int, k as int);
                &&& dots == (if count_dots(pre) > 2 { 2 } else { count_dots(pre) })
                &&& ndigits == (if mantissa_digits(pre).len() > 37 { 37 } else { mantissa_digits(pre).len() })
                &&& mantissa_digits(pre).len() <= 36 ==> mant == digits_value(mantissa_digits(pre)) && nfrac == frac_len(pre)
                &&& 0 <= mant < pow10(ndigits as nat)
                &&& ndigits <= 37
                &&& nfrac <= ndigits
            }),
        decreases b - k,
    {
        let c = cs[k];
        let ghost pre = cs@.subrange(a as int, k as int);
        proof {
            lemma_count_dots_push(pre, c);
            assert(cs@.subrange(a as int, k + 1 as int) =~= pre.push(c));
            assert(is_digit(cs@[k as int]) || cs@[k as int] == '.');
        }
        if c == '.' {
            if dots < 2 {
                dots += 1;
            }
            nfrac = 0;
        } else {
            proof {
                lemma_digits_value_push(mantissa_digits(pre), c);
            }
            if ndigits < 36 {
                let d = (c as u32 - '0' as u32) as i128;
                proof {
                    lemma_pow10_mono(ndigits as nat, 36);
                    assert(pow10(36) == 1_000_000_000_000_000_000_000_000_000_000_000_000) by {
                        reveal_with_fuel(pow10, 37);
                    }
                }
                mant = mant * 10 + d;
                ndigits += 1;
                if dots > 0 {
                    nfrac += 1;
                }
            } else if ndigits == 36 {
                ndigits = 37;
                mant = 0;
            }
        }
        k += 1;
    }
    proof {
        assert(pow10(0) == 1);
    }
    let ghost text = cs@.subrange(a as int, b as int);
    if dots > 1 {
        (Getal::zero(), true)
    } else if ndigits > 36 {
        (Getal::zero(), false)
    } else {
        proof {
            lemma_frac_len_le(text);
            lemma_pow10_mono(ndigits as nat, 36);
            assert(pow10(36) == 1_000_000_000_000_000_000_000_000_000_000_000_000) by {
                reveal_with_fuel(pow10, 37);
            }
        }
        let den = pow10_i128(nfrac);
        match Getal::from_ratio(mant, den) {
            Some(g) => (g, true),
            None => (Getal::zero(), false),
        }
    }
}


fn alpha_prefix(t: &[char]) -> (r: usize)
    ensures
        r == alpha_prefix_len(t@),
        r <= t@.len(),
        forall|k: int| 0 <= k < r ==> is_alpha(#[trigger] t@[k]),
{
    let mut j: usize = 0;
    while j < t.len() && is_name_start(t[j])
        invariant
            j <= t@.len(),
            alpha_run(t@, 0) == j + alpha_run(t@, j as int),
            forall|k: int| 0 <= k < j ==> is_alpha(#[trigger] t@[k]),
        decreases t@.len() - j,
    {
        j += 1;
    }
    j
}

/// A note word with an optional whole number of beats.
fn note_beats(lower: &[char]) -> (r: Option<(Note, u64)>)
    ensures
        match note_with_beats(lower@) {
            Some((n, b)) => r == Some((n, b as u64)) && 1 <= b <= u32::MAX,
            None => r is None,
        },
{
    let split = alpha_prefix(lower);
    let mut k = split;
    let mut all_digits = true;
    while k < lower.len()
        invariant
            split <= k <= lower@.len(),
            all_digits == (forall|m: int| split <= m < k ==> is_digit(#[trigger] lower@[m])),
        decreases lower@.len() - k,
    {
        if !is_digit_char(lower[k]) {
            all_digits = false;
        }
        k += 1;
    }
    let ghost rest = lower@.subrange(split as int, lower@.len() as int);
    assert(all_digits == (forall|m: int| 0 <= m < rest.len() ==> is_digit(#[trigger] rest[m]))) by {
        if !all_digits {
            let m = choose|m: int| split <= m < lower@.len() && !is_digit(#[trigger] lower@[m]);
            assert(!is_digit(rest[m - split]));
        }
    }
    if split < lower.len() && !all_digits {
        return None;
    }
    let base = copy_range(lower, 0, split);
    let n = match note_of(base.as_slice()) {
        Some(n) => n,
        None => return None,
    };
    if split == lower.len() {
        return Some((n, 1));
    }
    match digits_u32(lower, split, lower.len()) {
        Some(v) => if v == 0 { Some((n, 1)) } else { Some((n, v)) },
        None => Some((n, 1)),
    }
}

fn keyword_token(kw: KwKind, lower: &[char]) -> (r: Tok)
    ensures
        r == keyword_tok(kw, lower@),
{
    match kw {
        KwKind::Maak => Tok::Maak,
        KwKind::Print => Tok::Print,
        KwKind::Loop => Tok::Loop(
            if crate::text::chars_eq_str(lower, "herhaal") { LoopWord::Herhaal } else { LoopWord::Doe },
        ),
        KwKind::LoopAux => Tok::LoopKeer,
        KwKind::Break => Tok::Stop,
        KwKind::If => Tok::If,
        KwKind::Else => Tok::Else,
        KwKind::WrapMode => Tok::WrapMode,
        KwKind::Compare => Tok::Compare(
            if crate::text::chars_eq_str(lower, "groter") {
                Cmp::Groter
            } else if crate::text::chars_eq_str(lower, "kleiner") {
                Cmp::Kleiner
            } else {
                Cmp::Gelijk
            },
        ),
    }
}

/// Classify a lowercased word against the vocabulary; `raw` is kept for a name.
fn classify(lower: &[char], raw: &[char]) -> (r: Tok)
    ensures
        word_meaning(lower@, raw@, r),
{
    if crate::text::chars_eq_str(lower, "random") {
        return Tok::Random;
    }
    if let Some(kw) = keyword_of(lower) {
        return keyword_token(kw, lower);
    }
    if let Some(t) = reserved_type_of(lower) {
        return Tok::Type(t);
    }
    if let Some(v) = verb_of(lower) {
        return Tok::Verb(v);
    }
    if let Some(c) = constant_of(lower) {
        return Tok::Const(c);
    }
    if let Some(c) = colour_of(lower) {
        return Tok::Colour(c);
    }
    if let Some(o) = osc_of(lower) {
        return Tok::Osc(o);
    }
    if let Some(e) = envelope_of(lower) {
        return Tok::Env(e);
    }
    Tok::Name(chars_to_string(raw))
}

proof fn lemma_gcd_one_left(d: nat)
    requires
        d >= 1,
    ensures
        crate::number::gcd(1, d) == 1,
{
    if d == 1 {
        assert(1nat % 1nat == 0);
        assert(crate::number::gcd(1, 0) == 1);
    } else {
        vstd::arithmetic::div_mod::lemma_small_mod(1, d);
        assert(crate::number::gcd(d, 1) == crate::number::gcd(1, d % 1));
        assert(d % 1 == 0);
        assert(crate::number::gcd(1, 0) == 1);
    }
}

/// `1/d` of a beat.
fn beat_fraction(d: u64) -> (g: Getal)
    requires
        1 <= d <= u32::MAX,
    ensures
        g@ == (1int, d as int),
{
    proof {
        lemma_gcd_one_left(d as nat);
        assert(crate::number::abs(1) == 1);
        assert(1nat / 1nat == 1);
        assert((d as int) / 1 == d as int);
        crate::number::lemma_reduced_within(1, d as int);
    }
    match Getal::from_ratio(1, d as i128) {
        Some(g) => g,
        None => Getal::zero(),
    }
}

/// After a `'` (or `-'`), the rest of a dynamic name: an interpolated `(...)` group or word,
/// repeatedly.
fn scan_dynamic(cs: &[char], start: usize) -> (j: usize)
    requires
        start <= cs@.len(),
        continues_dynamically(cs@, start as int),
    ensures
        start < j <= cs@.len(),
        j == dynamic_end(cs@, start as int),
{
    let n = cs.len();
    let mut j = start;
    loop
        invariant
            start <= j <= n,
            n == cs@.len(),
            j == start ==> continues_dynamically(cs@, start as int),
            dynamic_end(cs@, start as int) == dynamic_end(cs@, j as int),
        ensures
            start < j <= n,
            j == dynamic_end(cs@, start as int),
        decreases n - j,
    {
        let ghost j0 = j;
        if j < n && cs[j] == '\'' {
            j += 1;
            if j < n && cs[j] == '(' {
                let mut depth: usize = 1;
                j += 1;
                let ghost p0 = j;
                while j < n && depth > 0
                    invariant
                        start < j <= n,
                        j0 < j,
                        n == cs@.len(),
                        depth <= j,
                        paren_close(cs@, p0 as int, 1) == paren_close(cs@, j as int, depth as nat),
                        dynamic_end(cs@, start as int) == dynamic_end(cs@, paren_close(cs@, p0 as int, 1)),
                    decreases n - j,
                {
                    if cs[j] == '(' {
                        depth += 1;
                    } else if cs[j] == ')' {
                        depth -= 1;
                    }
                    j += 1;
                }
            } else {
                j = scan_name(cs, j);
            }
        } else if j < n && j + 1 < n && cs[j] == '-' && cs[j + 1] == '\'' {
            j += 1;
        } else {
            break;
        }
    }
    j
}

fn lex_word(cs: &[char], i: usize) -> (t: Token)
    requires
        i < cs@.len(),
        is_alpha(cs@[i as int]),
    ensures
        t.col == i,
        token_fits(cs@, t),
{
    let n = cs.len();
    let after = scan_name(cs, i);
    proof {
        assert(name_char(cs@[i as int]));
        assert(name_run(cs@, i as int) >= 1);
    }
    if after < n && (cs[after] == '\'' || (cs[after] == '-' && after + 1 < n && cs[after + 1] == '\'')) {
        let j = scan_dynamic(cs, after);
        let raw = copy_range(cs, i, j);
        return Token { kind: Tok::Name(chars_to_string(raw.as_slice())), col: i, len: j - i, ok: true };
    }
    let core = copy_range(cs, i, after);
    let lower = ascii_lowercase(core.as_slice());
    match note_beats(lower.as_slice()) {
        Some((note, b)) => {
            let ap = alpha_prefix(core.as_slice());
            if ap == after - i && after < n && after + 1 < n && cs[after] == '/' && is_digit_char(cs[after + 1]) {
                let k = scan_digits(cs, after + 1);
                let d: u64 = match digits_u32(cs, after + 1, k) {
                    Some(v) => if v == 0 { 1 } else { v },
                    None => 1,
                };
                Token { kind: Tok::Note(note, beat_fraction(d)), col: i, len: k - i, ok: true }
            } else {
                Token { kind: Tok::Note(note, Getal::from_i64(b as i64)), col: i, len: after - i, ok: true }
            }
        },
        None => Token { kind: classify(lower.as_slice(), core.as_slice()), col: i, len: after - i, ok: true },
    }
}

fn lex_string(cs: &[char], i: usize) -> (t: Token)
    requires
        i < cs@.len(),
        cs@[i as int] == '"',
    ensures
        t.col == i,
        token_fits(cs@, t),
{
    let n = cs.len();
    let mut j = i + 1;
    let mut val: Vec<char> = Vec::new();
    while j < n && cs[j] != '"'
        invariant
            i + 1 <= j <= n,
            n == cs@.len(),
            val@ == cs@.subrange(i + 1, j as int),
            forall|k: int| 0 <= k < val@.len() ==> #[trigger] val@[k] != '"',
        decreases n - j,
    {
        val.push(cs[j]);
        j += 1;
        assert(val@ =~= cs@.subrange(i + 1, j as int));
    }
    let closed = j < n;
    if closed {
        j += 1;
    }
    let t = Token { kind: Tok::Str(chars_to_string(val.as_slice())), col: i, len: j - i, ok: closed };
    proof {
        let text = token_text(cs@, t);
        if closed {
            assert(text.subrange(1, text.len() - 1) =~= val@);
        } else {
            assert(text.drop_first() =~= val@);
        }
    }
    t
}

fn lex_number(cs: &[char], i: usize) -> (t: Token)
    requires
        i < cs@.len(),
        is_digit(cs@[i as int]),
    ensures
        t.col == i,
        token_fits(cs@, t),
{
    let j = scan_number(cs, i);
    let (g, fits) = number_value(cs, i, j);
    if fits {
        Token { kind: Tok::Number(g), col: i, len: j - i, ok: true }
    } else {
        let text = copy_range(cs, i, j);
        Token { kind: Tok::BigNumber(chars_to_string(text.as_slice())), col: i, len: j - i, ok: true }
    }
}

fn op_byte(c: char) -> (b: u8)
    requires
        is_op_char(c),
    ensures
        b == c as u8,
{
    if c == '+' { 43 } else if c == '-' { 45 } else if c == '*' { 42 } else if c == '/' { 47 } else { 61 }
}

fn lex_one(cs: &[char], i: usize) -> (t: Token)
    requires
        i < cs@.len(),
        !is_blank(cs@[i as int]),
    ensures
        t.col == i,
        token_fits(cs@, t),
{
    let c = cs[i];
    if c == '"' {
        lex_string(cs, i)
    } else if is_digit_char(c) {
        lex_number(cs, i)
    } else if c == '+' || c == '-' || c == '*' || c == '/' || c == '=' {
        Token { kind: Tok::Op(op_byte(c)), col: i, len: 1, ok: true }
    } else if c == '(' {
        Token { kind: Tok::LParen, col: i, len: 1, ok: true }
    } else if c == ')' {
        Token { kind: Tok::RParen, col: i, len: 1, ok: true }
    } else if c == '[' {
        Token { kind: Tok::LBracket, col: i, len: 1, ok: true }
    } else if c == ']' {
        Token { kind: Tok::RBracket, col: i, len: 1, ok: true }
    } else if is_name_start(c) {
        lex_word(cs, i)
    } else {
        Token { kind: Tok::Unknown(c), col: i, len: 1, ok: false }
    }
}

/// Tokenize one line given as characters.
pub fn tokenize_chars(cs: &[char]) -> (ts: Vec<Token>)
    ensures
        lexed(cs@, ts@),
{
    let n = cs.len();
    let mut toks: Vec<Token> = Vec::new();
    let mut i: usize = 0;
    while i < n
        invariant
            i <= n,
            n == cs@.len(),
            forall|k: int| 0 <= k < toks@.len() ==> #[trigger] token_fits(cs@, toks@[k]),
            forall|k: int| 0 <= k < toks@.len() ==> gap_start(toks@, k) <= #[trigger] toks@[k].col,
            forall|k: int| 0 <= k < toks@.len() ==> blank_between(cs@, gap_start(toks@, k), #[trigger] toks@[k].col as int),
            gap_start(toks@, toks@.len() as int) <= i,
            blank_between(cs@, gap_start(toks@, toks@.len() as int), i as int),
        decreases n - i,
    {
        let c = cs[i];
        if c == ' ' || c == '\t' {
            i += 1;
            continue;
        }
        let t = lex_one(cs, i);
        let j = t.col + t.len;
        let ghost old_toks = toks@;
        toks.push(t);
        proof {
            assert forall|k: int| 0 <= k < old_toks.len() implies gap_start(toks@, k) == gap_start(old_toks, k) by {
                if k > 0 {
                    assert(toks@[k - 1] == old_toks[k - 1]);
                }
            }
            assert(gap_start(toks@, old_toks.len() as int) == gap_start(old_toks, old_toks.len() as int));
            assert(toks@[old_toks.len() as int] == t);
        }
        i = j;
    }
    toks
}

/// Tokenize one line. Bracket tokens are emitted; the parser filters them.
pub fn tokenize(line: &str) -> (ts: Vec<Token>)
    ensures
        lexed(line@, ts@),
{
    let cs = str_chars(line);
    tokenize_chars(cs.as_slice())
}


pub proof fn lemma_name_run_bound(cs: Seq<char>, i: int)
    ensures
        0 <= i <= cs.len() ==> name_run(cs, i) <= cs.len() - i,
    decreases cs.len() - i,
{
    if 0 <= i < cs.len() && name_char(cs[i]) {
        lemma_name_run_bound(cs, i + 1);
    }
}

/// A name token is never longer than its line.
pub proof fn lemma_lexed_names_bounded(cs: Seq<char>, ts: Seq<Token>)
    requires
        lexed(cs, ts),
    ensures
        crate::expr::names_bounded(ts, cs.len()),
{
    assert forall|i: int| 0 <= i < ts.len() implies crate::expr::name_len_within(#[trigger] ts[i].kind, cs.len()) by {
        let t = ts[i];
        assert(token_fits(cs, t));
        lemma_name_run_bound(cs, t.col as int);
    }
}
} // verus!
