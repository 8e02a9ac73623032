use schildpad_core::ascii::{count_output, draw_canvas, last_error, render_ascii};
use schildpad_core::command::{DrawOp, Event, Sprite, WrapMode};
use schildpad_core::env::{Binding, Env};
use schildpad_core::error::err;
use schildpad_core::fixed::{clamp, cos_q12, norm_deg, sin_q12, wrap, FixedPos};
use schildpad_core::highlight::{highlight, Kind};
use schildpad_core::json::{draw_json, esc, events_to_json, spans_to_json, sprites_to_json};
use schildpad_core::lexer::{is_name_char, is_name_start, tokenize, Tok};
use schildpad_core::number::Getal;
use schildpad_core::rng::Rng;
use schildpad_core::value::{fmt_num, Value};
use schildpad_core::vocab::{
    all_reserved_words, constant, is_colour, is_envelope, is_oscillator, is_reserved, is_verb, keyword,
    note_freq, reserved_type, verb, ConstVal, KwKind, Note, Type, Verb,
};
use schildpad_core::ErrorKind;

fn g(n: i128, d: i128) -> Getal {
    Getal::from_ratio(n, d).unwrap()
}

#[test]
fn number_literals_are_exact() {
    let kinds: Vec<Tok> = tokenize("7 2.5 0.125 1.2.3").into_iter().map(|t| t.kind).collect();
    assert_eq!(kinds, vec![Tok::Number(g(7, 1)), Tok::Number(g(5, 2)), Tok::Number(g(1, 8)), Tok::Number(g(0, 1))]);
    let huge = tokenize("1234567890123456789012345678901234567890");
    assert_eq!(huge.len(), 1);
    assert!(huge[0].ok);
    assert_eq!(huge[0].kind, Tok::BigNumber("1234567890123456789012345678901234567890".to_string()));
}

#[test]
fn notes_carry_their_length() {
    let kinds: Vec<Tok> = tokenize("do do2 re/4 dog").into_iter().map(|t| t.kind).collect();
    assert_eq!(
        kinds,
        vec![
            Tok::Note(Note::Do, g(1, 1)),
            Tok::Note(Note::Do, g(2, 1)),
            Tok::Note(Note::Re, g(1, 4)),
            Tok::Name("dog".to_string()),
        ]
    );
}

#[test]
fn words_are_classified() {
    let toks = tokenize("maak Pietje schildpad = \"hoi\" + a-'i");
    let kinds: Vec<Tok> = toks.iter().map(|t| t.kind.clone()).collect();
    assert_eq!(
        kinds,
        vec![
            Tok::Maak,
            Tok::Name("Pietje".to_string()),
            Tok::Type(Type::Schildpad),
            Tok::Op(b'='),
            Tok::Str("hoi".to_string()),
            Tok::Op(b'+'),
            Tok::Name("a-'i".to_string()),
        ]
    );
    assert_eq!((toks[1].col, toks[1].len), (5, 6));
    assert!(is_name_start('a') && !is_name_start('1'));
    assert!(is_name_char('_') && is_name_char('9') && !is_name_char('-'));
}

#[test]
fn rational_arithmetic() {
    assert_eq!(g(1, 3).add(&g(1, 6)), Some(g(1, 2)));
    assert_eq!(g(1, 3).add(&g(1, 6)), g(1, 6).add(&g(1, 3)));
    assert_eq!(g(2, 3).mul(&g(3, 4)), Some(g(1, 2)));
    assert_eq!(g(1, 2).sub(&g(3, 4)), Some(g(-1, 4)));
    assert_eq!(g(1, 2).div(&g(0, 1)), None);
    assert_eq!(g(6, 4), g(3, 2));
    assert_eq!(g(-7, 2).trunc(), -3);
    assert!(g(1, 3).lt(&g(1, 2)));
    assert!(g(2, 4).same(&g(1, 2)));
    assert_eq!(Getal::from_i64(i64::MAX).add(&Getal::from_i64(1)), None);
}

#[test]
fn numbers_print_compactly() {
    assert_eq!(fmt_num(&g(12, 1)), "12");
    assert_eq!(fmt_num(&g(-5, 2)), "-2.5");
    assert_eq!(fmt_num(&g(1, 8)), "0.13");
    assert_eq!(fmt_num(&g(-1, 8)), "-0.13");
    assert_eq!(fmt_num(&g(2, 3)), "0.67");
    assert_eq!(fmt_num(&g(1, 1000)), "0");
}

#[test]
fn angles_and_fixed_point() {
    assert_eq!(norm_deg(-90), 270);
    assert_eq!(norm_deg(720), 0);
    assert_eq!(sin_q12(90), 4096);
    assert_eq!(sin_q12(-90), -4096);
    assert_eq!(sin_q12(30), 2048);
    assert_eq!(sin_q12(150), sin_q12(30));
    assert_eq!(sin_q12(210), -sin_q12(30));
    assert_eq!(cos_q12(0), 4096);
    assert_eq!(cos_q12(180), -4096);
    let p = FixedPos::from_px(3, -4);
    assert_eq!((p.x, p.y), (768, -1024));
    let q = FixedPos { x: 128, y: -128 };
    assert_eq!((q.px_x(), q.px_y()), (1, -1));
    let r = FixedPos { x: 127, y: -127 };
    assert_eq!((r.px_x(), r.px_y()), (0, 0));
}

#[test]
fn wrapping_and_clamping() {
    assert_eq!(wrap(330, 320), 10);
    assert_eq!(wrap(-1, 320), 319);
    assert_eq!(wrap(-640, 320), 0);
    assert_eq!(wrap(5, 0), 0);
    assert_eq!(clamp(-5, 320), 0);
    assert_eq!(clamp(400, 320), 319);
    assert_eq!(clamp(17, 320), 17);
}

#[test]
fn rng_is_xorshift_star() {
    let mut r = Rng::new(0);
    assert_eq!(r.next_u64(), 12492341101037700564);
    let mut a = Rng::new(42);
    let mut b = Rng::new(42);
    for _ in 0..100 {
        let x = a.range_inclusive(0, 100);
        assert_eq!(x, b.range_inclusive(0, 100));
        assert!((0..=100).contains(&x));
        assert_ne!(a.next_u64(), 0);
        b.next_u64();
    }
    assert_eq!(a.range_inclusive(5, 5), 5);
    let opts = [-90, 90];
    let c = *a.choice(&opts);
    assert!(c == -90 || c == 90);
}

#[test]
fn env_reads_back_what_was_written() {
    let mut e = Env::new();
    assert!(!e.has("x"));
    e.set(Binding { ty: Type::Getal, value: Value::Getal(g(1, 1)), name: "Score".to_string() });
    e.set(Binding { ty: Type::Tekst, value: Value::Tekst("a".to_string()), name: "naam".to_string() });
    assert!(e.has("score") && e.has("SCORE"));
    e.set(Binding { ty: Type::Getal, value: Value::Getal(g(2, 1)), name: "SCORE".to_string() });
    let b = e.get("Score").unwrap();
    assert_eq!(b.name, "SCORE");
    assert!(matches!(b.value, Value::Getal(v) if v == g(2, 1)));
    assert!(matches!(&e.get("naam").unwrap().value, Value::Tekst(t) if t == "a"));
    e.clear();
    assert!(e.get("naam").is_none());
}

#[test]
fn vocabulary_lookups() {
    let v = verb("vooruit").unwrap();
    assert_eq!(v.verb, Verb::Vooruit);
    assert_eq!(v.slots, &[Type::Getal, Type::Schildpad]);
    assert!(verb("spring").is_none());
    assert!(is_verb("play") && !is_verb("maak"));
    assert_eq!(keyword("herhaal"), Some(KwKind::Loop));
    assert_eq!(keyword("anders"), Some(KwKind::Else));
    assert_eq!(reserved_type("deuntje"), Some(Type::Deuntje));
    assert_eq!(reserved_type("kleur"), None);
    assert_eq!(constant("links"), Some(ConstVal::Draai(-90)));
    assert_eq!(constant("stilte"), Some(ConstVal::Rest));
    assert!(is_colour("cyaan") && !is_colour("paarsblauw"));
    assert!(is_oscillator("zaag") && is_envelope("kort"));
    assert_eq!(note_freq("la"), Some(g(440, 1)));
    assert!(is_reserved("maak") && is_reserved("rood") && !is_reserved("pietje"));
    let words = all_reserved_words();
    assert!(words.contains(&"schildpad".to_string()) && words.contains(&"groter".to_string()));
    assert_eq!(Type::Draairichting.nl(), "draairichting");
}

#[test]
fn highlight_spans() {
    let spans = highlight("maak p\n  vooruit 10 p");
    let summary: Vec<(u32, u32, u32, Kind)> = spans.iter().map(|s| (s.line, s.col, s.len, s.kind)).collect();
    assert_eq!(
        summary,
        vec![
            (1, 0, 4, Kind::Keyword),
            (1, 5, 1, Kind::Name),
            (2, 2, 7, Kind::Verb),
            (2, 10, 2, Kind::Number),
            (2, 13, 1, Kind::Name),
        ]
    );
    assert_eq!(Kind::Colour.tag(), "colour");
}

#[test]
fn json_is_exact() {
    let events = vec![
        Event::Line(4),
        Event::Draw(DrawOp::Plot { fb: 0, x: 10, y: 20, colour: "rood" }),
        Event::Draw(DrawOp::SetWrap { fb: 0, mode: WrapMode::Clamp }),
        Event::Error(err(2, ErrorKind::DivideByZero)),
        Event::Done,
    ];
    assert_eq!(
        events_to_json(&events),
        "[{\"t\":\"line\",\"line\":4},{\"t\":\"plot\",\"fb\":0,\"x\":10,\"y\":20,\"colour\":\"rood\"},{\"t\":\"wrap\",\"fb\":0,\"mode\":\"klem\"},{\"t\":\"error\",\"line\":2,\"msg\":\"ik kan niet door nul delen.\"},{\"t\":\"done\"}]"
    );
    let mut s = String::from("x=");
    esc("a\"b\\c\n\u{1}é", &mut s);
    assert_eq!(s, "x=\"a\\\"b\\\\c\\n\\u0001é\"");
    let mut d = String::new();
    draw_json(&DrawOp::Text { fb: 0, col: 1, row: 2, text: "hoi".to_string(), colour: "wit" }, &mut d);
    assert_eq!(d, "{\"t\":\"text\",\"fb\":0,\"col\":1,\"row\":2,\"text\":\"hoi\",\"colour\":\"wit\"}");
    let sprites = vec![Sprite { id: 0, fb: 0, x: 3, y: 4, heading_deg: 90, tint: 0, pen_down: false }];
    assert_eq!(sprites_to_json(&sprites), "[{\"id\":0,\"fb\":0,\"x\":3,\"y\":4,\"heading\":90,\"tint\":0,\"penDown\":false}]");
    assert_eq!(spans_to_json(&highlight("maak")), "[{\"line\":1,\"col\":0,\"len\":4,\"kind\":\"keyword\",\"ok\":true}]");
    assert_eq!(events_to_json(&[]), "[]");
}

#[test]
fn audio_json_uses_exact_numbers() {
    let mut e = schildpad_core::Engine::new();
    let mut events = e.load("play la/2 stilte");
    while !e.done() {
        events.extend(e.step());
    }
    let json = events_to_json(&events);
    assert!(json.contains(
        "{\"t\":\"audio\",\"tempo\":120,\"voices\":[{\"hz\":440,\"beats\":0.5,\"osc\":\"sinus\",\"env\":\"kort\"},{\"hz\":null,\"beats\":1,\"osc\":\"sinus\",\"env\":\"kort\"}]}"
    ), "{json}");
}

#[test]
fn canvas_and_ascii_view() {
    let events = vec![
        Event::Draw(DrawOp::Plot { fb: 0, x: 0, y: 0, colour: "wit" }),
        Event::Draw(DrawOp::Clear { fb: 0 }),
        Event::Draw(DrawOp::Plot { fb: 0, x: 1, y: 1, colour: "wit" }),
        Event::Draw(DrawOp::Plot { fb: 0, x: 3, y: 2, colour: "wit" }),
        Event::Draw(DrawOp::Plot { fb: 0, x: 9, y: 9, colour: "wit" }),
        Event::Audio(schildpad_core::AudioCmd::Sequence { tempo_bpm: 120, voices: vec![] }),
    ];
    let c = draw_canvas(&events, 4, 3);
    assert_eq!(c, vec![false, false, false, false, false, true, false, false, false, false, false, true]);
    assert_eq!(count_output(&events), (4, 1));
    assert_eq!(last_error(&events), None);
    let lines = render_ascii(&c, 4, 3);
    assert_eq!(lines, vec![" #", "   #"]);
    let with_err = vec![Event::Error(err(1, ErrorKind::BareRandom)), Event::Done, Event::Error(err(2, ErrorKind::BareRandom))];
    assert_eq!(last_error(&with_err), Some(2));
}

#[test]
fn leftover_tokens_are_quoted() {
    let env = Env::new();
    let toks = tokenize("1 + 2 3 4");
    let r = schildpad_core::expr::eval(&toks, &env, 5);
    match r {
        Err(e) => {
            assert_eq!(e.line, 5);
            assert_eq!(format!("{:?}", e.kind), format!("{:?}", ErrorKind::UnconsumedTokens { leftover: "3 4".to_string() }));
        }
        Ok(_) => panic!("leftover tokens must be refused"),
    }
}

#[test]
fn division_by_literal_zero_is_its_own_error() {
    let env = Env::new();
    let toks = tokenize("7 / 0");
    let r = schildpad_core::expr::eval(&toks, &env, 2);
    assert!(matches!(r, Err(ref e) if e.kind == ErrorKind::DivideByZero && e.line == 2));
}

#[test]
fn positions_cover_the_whole_integer_range() {
    let far = FixedPos::from_px(1 << 60, -1);
    assert_eq!((far.x, far.y), (0, -256));
    let edge = FixedPos::from_px(i64::MAX, i64::MIN);
    assert_eq!((edge.x, edge.y), (i64::MAX << 8, i64::MIN << 8));
    let big = FixedPos { x: i64::MAX - 128, y: i64::MIN + 129 };
    assert_eq!((big.px_x(), big.px_y()), (i64::MAX / 256, -(i64::MAX / 256)));
}

#[test]
fn built_names_join_prefix_values_and_rests() {
    let mut e = Env::new();
    e.set(Binding { ty: Type::Getal, value: Value::Getal(g(7, 1)), name: "i".to_string() });
    e.set(Binding { ty: Type::Tekst, value: Value::Tekst("x".to_string()), name: "t".to_string() });
    let r = schildpad_core::resolve::resolve_name("a-'i-b'(i+1)c't", &e, 3).expect("resolves");
    assert_eq!(r.name, "a-7-b8cx");
    assert!(r.built);
    assert_eq!(r.prefix, "a-");
    assert_eq!(r.var, "i");
    let missing = schildpad_core::resolve::resolve_name("a-'j", &e, 3);
    assert!(matches!(missing, Err(ref err) if err.line == 3));
}

#[test]
fn sentences_quote_their_fields() {
    let kind = ErrorKind::WrongTypeForVerb { name: "kleurtje".to_string(), ty: "kleur".to_string(), verb: "vooruit".to_string() };
    let s = err(4, kind).render_nl();
    for f in ["kleurtje", "kleur", "vooruit"] {
        assert!(s.contains(&format!("{}", f)));
    }
    let s = err(1, ErrorKind::MaakNotUnderstood { src: "maak a b".to_string(), name: "a".to_string() }).render_nl();
    assert!(s.contains("'maak a b'") && s.contains("maak a schildpad"));
}
