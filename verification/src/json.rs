//! The flat event schema the host reads, tagged by `t`:
//!
//!   {"t":"line","line":4}
//!   {"t":"clear","fb":0}
//!   {"t":"plot","fb":0,"x":10,"y":20,"colour":"rood"}
//!   {"t":"text","fb":0,"col":0,"row":0,"text":"hoi","colour":"wit"}
//!   {"t":"wrap","fb":0,"mode":"wrap"}
//!   {"t":"audio","tempo":120,"voices":[{"hz":261.63,"beats":1,"osc":"sinus","env":"kort"}]}
//!   {"t":"error","line":4,"msg":"…"}
//!   {"t":"done"}
//!
//! Highlight spans and sprites have arrays of their own. Every text written here is stated
//! exactly by a spec function.

use vstd::prelude::*;

use crate::command::{AudioCmd, DrawOp, Event, Sprite, Voice, WrapMode};
use crate::error::sentence;
use crate::highlight::{kind_tag, Span};
use crate::text::{chars_to_string, decimal, digit, digit_char, push_decimal, push_str, str_chars};
use crate::value::{num_text, push_num};

verus! {

/// A lowercase hexadecimal digit.
pub open spec fn hex_char(d: nat) -> char {
    if d < 10 {
        digit_char(d)
    } else if d == 10 {
        'a'
    } else if d == 11 {
        'b'
    } else if d == 12 {
        'c'
    } else if d == 13 {
        'd'
    } else if d == 14 {
        'e'
    } else {
        'f'
    }
}

fn hex(d: u32) -> (c: char)
    requires
        d < 16,
    ensures
        c == hex_char(d as nat),
{
    if d < 10 {
        digit(d as u128)
    } else if d == 10 {
        'a'
    } else if d == 11 {
        'b'
    } else if d == 12 {
        'c'
    } else if d == 13 {
        'd'
    } else if d == 14 {
        'e'
    } else {
        'f'
    }
}

/// How one character is written inside a JSON string.
pub open spec fn esc_char(c: char) -> Seq<char> {
    if c == '"' {
        seq!['\\', '"']
    } else if c == '\\' {
        seq!['\\', '\\']
    } else if c == '\n' {
        seq!['\\', 'n']
    } else if c == '\r' {
        seq!['\\', 'r']
    } else if c == '\t' {
        seq!['\\', 't']
    } else if (c as u32) < 0x20 {
        seq!['\\', 'u', '0', '0', hex_char((c as u32 / 16) as nat), hex_char((c as u32 % 16) as nat)]
    } else {
        seq![c]
    }
}

/// The characters of `s`, escaped.
pub open spec fn esc_body(s: Seq<char>) -> Seq<char>
    decreases s.len(),
{
    if s.len() == 0 {
        Seq::empty()
    } else {
        esc_body(s.drop_last()) + esc_char(s.last())
    }
}

/// `s` as a JSON string literal.
pub open spec fn quoted(s: Seq<char>) -> Seq<char> {
    seq!['"'] + esc_body(s) + seq!['"']
}

fn push_escaped(cs: &[char], out: &mut Vec<char>)
    ensures
        final(out)@ == old(out)@ + quoted(cs@),
{
    out.push('"');
    let ghost start = out@;
    let mut i: usize = 0;
    while i < cs.len()
        invariant
            i <= cs@.len(),
            out@ == start + esc_body(cs@.subrange(0, i as int)),
        decreases cs@.len() - i,
    {
        let c = cs[i];
        let ghost before = out@;
        if c == '"' {
            out.push('\\');
            out.push('"');
        } else if c == '\\' {
            out.push('\\');
            out.push('\\');
        } else if c == '\n' {
            out.push('\\');
            out.push('n');
        } else if c == '\r' {
            out.push('\\');
            out.push('r');
        } else if c == '\t' {
            out.push('\\');
            out.push('t');
        } else if (c as u32) < 0x20 {
            let u = c as u32;
            out.push('\\');
            out.push('u');
            out.push('0');
            out.push('0');
            out.push(hex(u / 16));
            out.push(hex(u % 16));
        } else {
            out.push(c);
        }
        proof {
            assert(cs@.subrange(0, i + 1).drop_last() =~= cs@.subrange(0, i as int));
            assert(out@ =~= before + esc_char(c));
        }
        i += 1;
    }
    out.push('"');
    proof {
        assert(cs@.subrange(0, cs@.len() as int) =~= cs@);
    }
}

/// Append `s` as a JSON string literal (quoted and escaped).
pub fn esc(s: &str, out: &mut String)
    ensures
        final(out)@ == old(out)@ + quoted(s@),
{
    let cs = str_chars(s);
    let mut v: Vec<char> = Vec::new();
    push_escaped(cs.as_slice(), &mut v);
    assert(v@ =~= quoted(s@));
    let t = chars_to_string(v.as_slice());
    out.append(t.as_str());
}

pub open spec fn bool_text(b: bool) -> Seq<char> {
    if b { "true"@ } else { "false"@ }
}

fn push_bool(b: bool, out: &mut Vec<char>)
    ensures
        final(out)@ == old(out)@ + bool_text(b),
{
    if b {
        push_str(out, "true");
    } else {
        push_str(out, "false");
    }
}

pub open spec fn wrap_word(m: WrapMode) -> Seq<char> {
    match m {
        WrapMode::Wrap => "wrap"@,
        WrapMode::Clamp => "klem"@,
    }
}

/// The JSON object of a draw op.
pub open spec fn draw_text(d: DrawOp) -> Seq<char> {
    match d {
        DrawOp::Clear { fb } => "{\"t\":\"clear\",\"fb\":"@ + decimal(fb as nat) + "}"@,
        DrawOp::Plot { fb, x, y, colour } => "{\"t\":\"plot\",\"fb\":"@ + decimal(fb as nat) + ",\"x\":"@ + decimal(x as nat)
            + ",\"y\":"@ + decimal(y as nat) + ",\"colour\":"@ + quoted(colour@) + "}"@,
        DrawOp::Text { fb, col, row, text, colour } => "{\"t\":\"text\",\"fb\":"@ + decimal(fb as nat) + ",\"col\":"@
            + decimal(col as nat) + ",\"row\":"@ + decimal(row as nat) + ",\"text\":"@ + quoted(text@) + ",\"colour\":"@
            + quoted(colour@) + "}"@,
        DrawOp::SetWrap { fb, mode } => "{\"t\":\"wrap\",\"fb\":"@ + decimal(fb as nat) + ",\"mode\":\""@ + wrap_word(mode)
            + "\"}"@,
    }
}

fn push_draw(d: &DrawOp, out: &mut Vec<char>)
    ensures
        final(out)@ == old(out)@ + draw_text(*d),
{
    let ghost before = out@;
    match d {
        DrawOp::Clear { fb } => {
            push_str(out, "{\"t\":\"clear\",\"fb\":");
            push_decimal(*fb as u128, out);
            push_str(out, "}");
        },
        DrawOp::Plot { fb, x, y, colour } => {
            push_str(out, "{\"t\":\"plot\",\"fb\":");
            push_decimal(*fb as u128, out);
            push_str(out, ",\"x\":");
            push_decimal(*x as u128, out);
            push_str(out, ",\"y\":");
            push_decimal(*y as u128, out);
            push_str(out, ",\"colour\":");
            let cs = str_chars(colour);
            push_escaped(cs.as_slice(), out);
            push_str(out, "}");
        },
        DrawOp::Text { fb, col, row, text, colour } => {
            push_str(out, "{\"t\":\"text\",\"fb\":");
            push_decimal(*fb as u128, out);
            push_str(out, ",\"col\":");
            push_decimal(*col as u128, out);
            push_str(out, ",\"row\":");
            push_decimal(*row as u128, out);
            push_str(out, ",\"text\":");
            let ts = str_chars(text.as_str());
            push_escaped(ts.as_slice(), out);
            push_str(out, ",\"colour\":");
            let cs = str_chars(colour);
            push_escaped(cs.as_slice(), out);
            push_str(out, "}");
        },
        DrawOp::SetWrap { fb, mode } => {
            push_str(out, "{\"t\":\"wrap\",\"fb\":");
            push_decimal(*fb as u128, out);
            push_str(out, ",\"mode\":\"");
            match mode {
                WrapMode::Wrap => push_str(out, "wrap"),
                WrapMode::Clamp => push_str(out, "klem"),
            }
            push_str(out, "\"}");
        },
    }
    assert(out@ =~= before + draw_text(*d));
}

/// Append the JSON object of a draw op.
pub fn draw_json(d: &DrawOp, s: &mut String)
    ensures
        final(s)@ == old(s)@ + draw_text(*d),
{
    let mut v: Vec<char> = Vec::new();
    push_draw(d, &mut v);
    assert(v@ =~= draw_text(*d));
    let t = chars_to_string(v.as_slice());
    s.append(t.as_str());
}

/// The JSON object of one voice; a rest has a `null` pitch.
pub open spec fn voice_text(v: Voice) -> Seq<char> {
    "{\"hz\":"@ + match v.pitch_hz {
        Some(h) => num_text(h@),
        None => "null"@,
    } + ",\"beats\":"@ + num_text(v.beats@) + ",\"osc\":\""@ + v.osc@ + "\",\"env\":\""@ + v.env@ + "\"}"@
}

pub open spec fn voices_body(vs: Seq<Voice>) -> Seq<char>
    decreases vs.len(),
{
    if vs.len() == 0 {
        Seq::empty()
    } else if vs.len() == 1 {
        voice_text(vs[0])
    } else {
        voices_body(vs.drop_last()) + ","@ + voice_text(vs.last())
    }
}

pub open spec fn audio_text(a: AudioCmd) -> Seq<char> {
    match a {
        AudioCmd::Sequence { tempo_bpm, voices } => "{\"t\":\"audio\",\"tempo\":"@ + decimal(tempo_bpm as nat) + ",\"voices\":["@
            + voices_body(voices@) + "]}"@,
    }
}

fn push_voice(v: &Voice, out: &mut Vec<char>)
    ensures
        final(out)@ == old(out)@ + voice_text(*v),
{
    let ghost before = out@;
    push_str(out, "{\"hz\":");
    match &v.pitch_hz {
        Some(h) => push_num(h, out),
        None => push_str(out, "null"),
    }
    push_str(out, ",\"beats\":");
    push_num(&v.beats, out);
    push_str(out, ",\"osc\":\"");
    push_str(out, v.osc);
    push_str(out, "\",\"env\":\"");
    push_str(out, v.env);
    push_str(out, "\"}");
    assert(out@ =~= before + voice_text(*v));
}

fn push_audio(a: &AudioCmd, out: &mut Vec<char>)
    ensures
        final(out)@ == old(out)@ + audio_text(*a),
{
    let ghost before = out@;
    match a {
        AudioCmd::Sequence { tempo_bpm, voices } => {
            push_str(out, "{\"t\":\"audio\",\"tempo\":");
            push_decimal(*tempo_bpm as u128, out);
            push_str(out, ",\"voices\":[");
            let ghost start = out@;
            let mut i: usize = 0;
            while i < voices.len()
                invariant
                    i <= voices@.len(),
                    out@ == start + voices_body(voices@.subrange(0, i as int)),
                decreases voices@.len() - i,
            {
                let ghost mid = out@;
                if i > 0 {
                    push_str(out, ",");
                }
                push_voice(&voices[i], out);
                proof {
                    let sub = voices@.subrange(0, i + 1);
                    assert(sub.drop_last() =~= voices@.subrange(0, i as int));
                    assert(sub.last() == voices@[i as int]);
                    if i == 0 {
                        assert(out@ =~= start + voices_body(sub));
                    } else {
                        assert(out@ =~= mid + ","@ + voice_text(voices@[i as int]));
                        assert(out@ =~= start + voices_body(sub));
                    }
                }
                i += 1;
            }
            proof {
                assert(voices@.subrange(0, voices@.len() as int) =~= voices@);
            }
            push_str(out, "]}");
        },
    }
    assert(out@ =~= before + audio_text(*a));
}

/// The JSON object of an event; an error carries its Dutch sentence.
pub open spec fn event_text(e: Event) -> Seq<char> {
    match e {
        Event::Line(n) => "{\"t\":\"line\",\"line\":"@ + decimal(n as nat) + "}"@,
        Event::Done => "{\"t\":\"done\"}"@,
        Event::Error(err) => "{\"t\":\"error\",\"line\":"@ + decimal(err.line as nat) + ",\"msg\":"@ + quoted(
            sentence(err.kind, err.line),
        ) + "}"@,
        Event::Draw(d) => draw_text(d),
        Event::Audio(a) => audio_text(a),
    }
}

fn push_event(e: &Event, out: &mut Vec<char>)
    ensures
        final(out)@ == old(out)@ + event_text(*e),
{
    let ghost before = out@;
    match e {
        Event::Line(n) => {
            push_str(out, "{\"t\":\"line\",\"line\":");
            push_decimal(*n as u128, out);
            push_str(out, "}");
        },
        Event::Done => push_str(out, "{\"t\":\"done\"}"),
        Event::Error(err) => {
            push_str(out, "{\"t\":\"error\",\"line\":");
            push_decimal(err.line as u128, out);
            push_str(out, ",\"msg\":");
            let msg = err.render_nl();
            let cs = str_chars(msg.as_str());
            push_escaped(cs.as_slice(), out);
            push_str(out, "}");
        },
        Event::Draw(d) => push_draw(d, out),
        Event::Audio(a) => push_audio(a, out),
    }
    assert(out@ =~= before + event_text(*e));
}

/// Items joined by commas.
pub open spec fn events_body(es: Seq<Event>) -> Seq<char>
    decreases es.len(),
{
    if es.len() == 0 {
        Seq::empty()
    } else if es.len() == 1 {
        event_text(es[0])
    } else {
        events_body(es.drop_last()) + ","@ + event_text(es.last())
    }
}

/// A list of events as a JSON array.
pub fn events_to_json(events: &[Event]) -> (s: String)
    ensures
        s@ == "["@ + events_body(events@) + "]"@,
{
    let mut out: Vec<char> = Vec::new();
    push_str(&mut out, "[");
    let ghost start = out@;
    let mut i: usize = 0;
    while i < events.len()
        invariant
            i <= events@.len(),
            out@ == start + events_body(events@.subrange(0, i as int)),
        decreases events@.len() - i,
    {
        let ghost mid = out@;
        if i > 0 {
            push_str(&mut out, ",");
        }
        push_event(&events[i], &mut out);
        proof {
            let sub = events@.subrange(0, i + 1);
            assert(sub.drop_last() =~= events@.subrange(0, i as int));
            assert(sub.last() == events@[i as int]);
            if i == 0 {
                assert(out@ =~= start + events_body(sub));
            } else {
                assert(out@ =~= mid + ","@ + event_text(events@[i as int]));
                assert(out@ =~= start + events_body(sub));
            }
        }
        i += 1;
    }
    push_str(&mut out, "]");
    proof {
        assert(events@.subrange(0, events@.len() as int) =~= events@);
        assert(out@ =~= "["@ + events_body(events@) + "]"@);
    }
    chars_to_string(out.as_slice())
}

/// The JSON object of a highlight span.
pub open spec fn span_text(sp: Span) -> Seq<char> {
    "{\"line\":"@ + decimal(sp.line as nat) + ",\"col\":"@ + decimal(sp.col as nat) + ",\"len\":"@ + decimal(sp.len as nat)
        + ",\"kind\":\""@ + kind_tag(sp.kind)@ + "\",\"ok\":"@ + bool_text(sp.ok) + "}"@
}

pub open spec fn spans_body(ss: Seq<Span>) -> Seq<char>
    decreases ss.len(),
{
    if ss.len() == 0 {
        Seq::empty()
    } else if ss.len() == 1 {
        span_text(ss[0])
    } else {
        spans_body(ss.drop_last()) + ","@ + span_text(ss.last())
    }
}

/// Highlight spans as a JSON array.
pub fn spans_to_json(spans: &[Span]) -> (s: String)
    ensures
        s@ == "["@ + spans_body(spans@) + "]"@,
{
    let mut out: Vec<char> = Vec::new();
    push_str(&mut out, "[");
    let ghost start = out@;
    let mut i: usize = 0;
    while i < spans.len()
        invariant
            i <= spans@.len(),
            out@ == start + spans_body(spans@.subrange(0, i as int)),
        decreases spans@.len() - i,
    {
        let ghost mid = out@;
        if i > 0 {
            push_str(&mut out, ",");
        }
        let ghost mid2 = out@;
        let sp = &spans[i];
        push_str(&mut out, "{\"line\":");
        push_decimal(sp.line as u128, &mut out);
        push_str(&mut out, ",\"col\":");
        push_decimal(sp.col as u128, &mut out);
        push_str(&mut out, ",\"len\":");
        push_decimal(sp.len as u128, &mut out);
        push_str(&mut out, ",\"kind\":\"");
        push_str(&mut out, sp.kind.tag());
        push_str(&mut out, "\",\"ok\":");
        push_bool(sp.ok, &mut out);
        push_str(&mut out, "}");
        proof {
            assert(out@ =~= mid2 + span_text(*sp));
            let sub = spans@.subrange(0, i + 1);
            assert(sub.drop_last() =~= spans@.subrange(0, i as int));
            assert(sub.last() == spans@[i as int]);
            if i == 0 {
                assert(out@ =~= start + spans_body(sub));
            } else {
                assert(out@ =~= start + spans_body(sub));
            }
        }
        i += 1;
    }
    push_str(&mut out, "]");
    proof {
        assert(spans@.subrange(0, spans@.len() as int) =~= spans@);
        assert(out@ =~= "["@ + spans_body(spans@) + "]"@);
    }
    chars_to_string(out.as_slice())
}

/// The JSON object of a sprite.
pub open spec fn sprite_text(sp: Sprite) -> Seq<char> {
    "{\"id\":"@ + decimal(sp.id as nat) + ",\"fb\":"@ + decimal(sp.fb as nat) + ",\"x\":"@ + decimal(sp.x as nat) + ",\"y\":"@
        + decimal(sp.y as nat) + ",\"heading\":"@ + decimal(sp.heading_deg as nat) + ",\"tint\":"@ + decimal(sp.tint as nat)
        + ",\"penDown\":"@ + bool_text(sp.pen_down) + "}"@
}

pub open spec fn sprites_body(ss: Seq<Sprite>) -> Seq<char>
    decreases ss.len(),
{
    if ss.len() == 0 {
        Seq::empty()
    } else if ss.len() == 1 {
        sprite_text(ss[0])
    } else {
        sprites_body(ss.drop_last()) + ","@ + sprite_text(ss.last())
    }
}

/// Sprites as a JSON array.
pub fn sprites_to_json(sprites: &[Sprite]) -> (s: String)
    ensures
        s@ == "["@ + sprites_body(sprites@) + "]"@,
{
    let mut out: Vec<char> = Vec::new();
    push_str(&mut out, "[");
    let ghost start = out@;
    let mut i: usize = 0;
    while i < sprites.len()
        invariant
            i <= sprites@.len(),
            out@ == start + sprites_body(sprites@.subrange(0, i as int)),
        decreases sprites@.len() - i,
    {
        let ghost mid = out@;
        if i > 0 {
            push_str(&mut out, ",");
        }
        let ghost mid2 = out@;
        let sp = &sprites[i];
        push_str(&mut out, "{\"id\":");
        push_decimal(sp.id as u128, &mut out);
        push_str(&mut out, ",\"fb\":");
        push_decimal(sp.fb as u128, &mut out);
        push_str(&mut out, ",\"x\":");
        push_decimal(sp.x as u128, &mut out);
        push_str(&mut out, ",\"y\":");
        push_decimal(sp.y as u128, &mut out);
        push_str(&mut out, ",\"heading\":");
        push_decimal(sp.heading_deg as u128, &mut out);
        push_str(&mut out, ",\"tint\":");
        push_decimal(sp.tint as u128, &mut out);
        push_str(&mut out, ",\"penDown\":");
        push_bool(sp.pen_down, &mut out);
        push_str(&mut out, "}");
        proof {
            assert(out@ =~= mid2 + sprite_text(*sp));
            let sub = sprites@.subrange(0, i + 1);
            assert(sub.drop_last() =~= sprites@.subrange(0, i as int));
            assert(sub.last() == sprites@[i as int]);
            assert(out@ =~= start + sprites_body(sub));
        }
        i += 1;
    }
    push_str(&mut out, "]");
    proof {
        assert(sprites@.subrange(0, sprites@.len() as int) =~= sprites@);
        assert(out@ =~= "["@ + sprites_body(sprites@) + "]"@);
    }
    chars_to_string(out.as_slice())
}


/// The value of a lowercase hexadecimal digit.
pub open spec fn hex_val(c: char) -> nat {
    if c == '1' { 1 } else if c == '2' { 2 } else if c == '3' { 3 } else if c == '4' { 4 } else if c == '5' { 5 }
    else if c == '6' { 6 } else if c == '7' { 7 } else if c == '8' { 8 } else if c == '9' { 9 } else if c == 'a' { 10 }
    else if c == 'b' { 11 } else if c == 'c' { 12 } else if c == 'd' { 13 } else if c == 'e' { 14 } else if c == 'f' { 15 }
    else { 0 }
}

/// How a JSON reader takes back the characters of an escaped string body.
pub open spec fn unesc(t: Seq<char>) -> Seq<char>
    decreases t.len(),
{
    if t.len() == 0 {
        Seq::empty()
    } else if t[0] == '\\' && t.len() >= 6 && t[1] == 'u' {
        let v = hex_val(t[2]) * 4096 + hex_val(t[3]) * 256 + hex_val(t[4]) * 16 + hex_val(t[5]);
        seq![(v as u32) as char] + unesc(t.subrange(6, t.len() as int))
    } else if t[0] == '\\' && t.len() >= 2 {
        let c = if t[1] == 'n' { '\n' } else if t[1] == 'r' { '\r' } else if t[1] == 't' { '\t' } else { t[1] };
        seq![c] + unesc(t.subrange(2, t.len() as int))
    } else {
        seq![t[0]] + unesc(t.subrange(1, t.len() as int))
    }
}

proof fn lemma_esc_body_front(s: Seq<char>)
    requires
        s.len() > 0,
    ensures
        esc_body(s) == esc_char(s[0]) + esc_body(s.drop_first()),
    decreases s.len(),
{
    if s.len() == 1 {
        assert(s.drop_last() =~= Seq::<char>::empty());
        assert(s.drop_first() =~= Seq::<char>::empty());
        assert(esc_body(s.drop_last()) == Seq::<char>::empty());
        assert(esc_body(s.drop_first()) == Seq::<char>::empty());
        assert(s.last() == s[0]);
        assert(esc_body(s) =~= esc_char(s[0]) + esc_body(s.drop_first()));
    } else {
        lemma_esc_body_front(s.drop_last());
        assert(s.drop_last().drop_first() =~= s.drop_first().drop_last());
        assert(s.drop_first().last() == s.last());
    }
}

proof fn lemma_unesc_char(c: char, rest: Seq<char>)
    ensures
        unesc(esc_char(c) + rest) == seq![c] + unesc(rest),
{
    let t = esc_char(c) + rest;
    let n = esc_char(c).len() as int;
    assert(t.subrange(n, t.len() as int) =~= rest);
    if c != '"' && c != '\\' && c != '\n' && c != '\r' && c != '\t' && (c as u32) < 0x20 {
        let a = (c as u32 / 16) as nat;
        let b = (c as u32 % 16) as nat;
        assert(a < 2 && b < 16);
        assert(hex_val(hex_char(a)) == a);
        assert(hex_val(hex_char(b)) == b);
        assert(hex_val('0') == 0);
        assert(((a * 16 + b) as u32) as char == c);
    }
}

/// Reading an escaped string back gives the string that was escaped: `esc` loses nothing.
pub proof fn law_escape_round_trip(s: Seq<char>)
    ensures
        unesc(esc_body(s)) == s,
    decreases s.len(),
{
    if s.len() == 0 {
        assert(esc_body(s) =~= Seq::<char>::empty());
    } else {
        lemma_esc_body_front(s);
        lemma_unesc_char(s[0], esc_body(s.drop_first()));
        law_escape_round_trip(s.drop_first());
        assert(seq![s[0]] + s.drop_first() =~= s);
    }
}

} // verus!
