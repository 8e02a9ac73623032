use schildpad_core::command::{AudioCmd, DrawOp, Event, WrapMode};
use schildpad_core::number::Getal;
use schildpad_core::program::{compile, Stmt};
use schildpad_core::Engine;

fn run(src: &str) -> (Vec<Event>, Option<String>) {
    let mut e = Engine::new();
    let mut events = e.load(src);
    let mut guard = 0;
    while !e.done() && guard < 100_000 {
        events.extend(e.step());
        guard += 1;
    }
    let err = events.iter().find_map(|ev| match ev {
        Event::Error(se) => Some(se.render_nl()),
        _ => None,
    });
    (events, err)
}

fn error_of(src: &str) -> String {
    run(src).1.expect("an error")
}

fn texts(events: &[Event]) -> Vec<String> {
    events
        .iter()
        .filter_map(|e| match e {
            Event::Draw(DrawOp::Text { text, .. }) => Some(text.clone()),
            _ => None,
        })
        .collect()
}

fn plots(events: &[Event]) -> Vec<(u16, u16)> {
    events
        .iter()
        .filter_map(|e| match e {
            Event::Draw(DrawOp::Plot { x, y, .. }) => Some((*x, *y)),
            _ => None,
        })
        .collect()
}

// ---- every error kind, from an input that gives it -------------------------------------------

#[test]
fn nil_in_expression_errors() {
    let e = error_of("maak x\nmaak y = x + 1");
    assert_eq!(e, "'x' bestaat wel, maar had op dat moment de waarde nil. ik weet niet hoe ik daar mee moet rekenen.");
}

#[test]
fn unknown_name_errors() {
    let e = error_of("print onbekend");
    assert_eq!(e, "ik ken geen 'onbekend'. misschien moet je die eerst maken met 'maak onbekend'?");
}

#[test]
fn unknown_turtle_hints_at_maak() {
    let e = error_of("vooruit 10 bob");
    assert_eq!(e, "ik ken geen 'bob'. heb je die al gemaakt met 'maak bob schildpad'?");
}

#[test]
fn verb_without_turtle_errors() {
    let e = error_of("vooruit 10");
    assert_eq!(
        e,
        "'vooruit' wil weten welke schildpad het moet besturen, maar ik zie er geen op deze regel. bijvoorbeeld: 'vooruit 50 pietje'."
    );
}

#[test]
fn verb_without_number_errors() {
    let e = error_of("maak p schildpad\nvooruit p");
    assert!(e.starts_with("'vooruit' wil een getal"), "{e}");
}

#[test]
fn verb_without_direction_errors() {
    let e = error_of("maak p schildpad\ndraai p");
    assert_eq!(e, "'draai' wil een richting, zoals 'links' of 'rechts'.");
}

#[test]
fn verb_without_colour_errors() {
    let e = error_of("maak p schildpad\npen p");
    assert_eq!(e, "'pen' wil een kleur, zoals 'rood' of 'blauw'.");
}

#[test]
fn wrong_type_for_verb_errors() {
    let e = error_of("maak p schildpad\nmaak k = \"x\"\nvooruit k p");
    assert_eq!(e, "'k' is een tekst; daar weet 'vooruit' geen raad mee.");
}

#[test]
fn type_mismatch_on_cast_errors() {
    let e = error_of("maak g getal = \"a\"");
    assert_eq!(e, "ik wilde hier een getal, maar kreeg een tekst.");
}

#[test]
fn divide_by_zero_errors() {
    assert_eq!(error_of("print 1 / 0"), "ik kan niet door nul delen.");
}

#[test]
fn leftover_token_errors() {
    let e = error_of("maak p schildpad\nvooruit 10 p rood");
    assert_eq!(e, "ik snapte het begin van regel 2, maar wist niet wat ik met 'rood' moest. ik laat liever niets stiekem vallen.");
}

#[test]
fn expression_cut_short_errors() {
    let e = error_of("maak x = 1 +");
    assert_eq!(e, "ik verwachtte hier nog een getal of een naam, maar de regel hield op.");
}

#[test]
fn unknown_wrapmode_errors() {
    assert_eq!(error_of("wrapmode rond"), "ik begreep 'wrapmode' hier niet.");
}

#[test]
fn not_a_statement_errors() {
    let e = error_of("rood");
    assert!(e.starts_with("ik weet niet wat ik met 'rood' moet doen."), "{e}");
}

#[test]
fn random_on_a_verb_without_sampler_errors() {
    let e = error_of("maak p schildpad\npen random p");
    assert!(e.starts_with("'pen' kan niets willekeurig kiezen."), "{e}");
}

#[test]
fn loop_via_enter_errors() {
    let mut e = Engine::new();
    let events = e.run_line("herhaal 3", 7);
    match &events[..] {
        [Event::Error(se)] => {
            assert_eq!(se.line, 7);
            assert!(se.render_nl().starts_with("een herhaal- of doe-lus"));
        },
        other => panic!("{other:?}"),
    }
}

#[test]
fn maak_without_name_errors() {
    assert_eq!(error_of("maak"), "na 'maak' verwacht ik een naam, bijvoorbeeld 'maak pietje schildpad'.");
}

#[test]
fn maak_with_two_names_errors() {
    let e = error_of("maak a b");
    assert_eq!(e, "ik begreep 'maak a b' niet. probeer 'maak a schildpad' of 'maak a = 0'.");
}

#[test]
fn turtle_with_value_errors() {
    let e = error_of("maak p schildpad = 3");
    assert!(e.starts_with("ik begreep 'maak p schildpad = 3' niet."), "{e}");
}

#[test]
fn move_out_of_range_errors() {
    let e = error_of("maak p schildpad\nvooruit 99999999999999999 p");
    assert_eq!(e, "dit getal wordt te groot of te fijn om nog precies mee te rekenen.");
}

#[test]
fn errors_carry_their_line() {
    let (events, _) = run("maak p schildpad\n\nvooruit 10");
    let err_line = events.iter().find_map(|e| match e {
        Event::Error(se) => Some(se.line),
        _ => None,
    });
    assert_eq!(err_line, Some(3));
    assert!(matches!(events.last(), Some(Event::Error(_))));
}

// ---- numbers and printing ------------------------------------------------------------------

#[test]
fn arithmetic_is_exact_and_prints_compactly() {
    let (events, err) = run("print 7\nprint 10 / 4\nprint 1 / 3\nprint 0 - 2 / 3\nprint 2 * (3 + 4)\nprint 0.1 + 0.2");
    assert!(err.is_none(), "{err:?}");
    assert_eq!(texts(&events), vec!["7", "2.5", "0.33", "-0.67", "14", "0.3"]);
}

#[test]
fn text_concatenates() {
    let (events, err) = run("maak n = 3\nprint \"keer \" + n");
    assert!(err.is_none(), "{err:?}");
    assert_eq!(texts(&events), vec!["keer 3"]);
}

#[test]
fn names_are_case_insensitive() {
    let (events, err) = run("maak Score = 5\nSCORE = score + 1\nprint sCoRe");
    assert!(err.is_none(), "{err:?}");
    assert_eq!(texts(&events), vec!["6"]);
}

#[test]
fn print_cursor_advances_and_wraps() {
    let mut e = Engine::new();
    e.set_render_target(4, 2);
    let mut events = e.load("print \"abc\"\nprint \"de\"\nprint \"fghij\"");
    while !e.done() {
        events.extend(e.step());
    }
    let cells: Vec<(u16, u16)> = events
        .iter()
        .filter_map(|ev| match ev {
            Event::Draw(DrawOp::Text { col, row, .. }) => Some((*col, *row)),
            _ => None,
        })
        .collect();
    // "abc" at (0,0); cursor to (3,0); "de" at (3,0) → 5 chars → (1,1); "fghij" at (1,1)
    assert_eq!(cells, vec![(0, 0), (3, 0), (1, 1)]);
}

// ---- turtles -------------------------------------------------------------------------------

#[test]
fn turtle_moves_and_turns() {
    let mut e = Engine::new();
    e.load("maak p schildpad\nvooruit 10 p\ndraai rechts p\nvooruit 5 p");
    while !e.done() {
        e.step();
    }
    let sp = e.sprites();
    assert_eq!(sp.len(), 1);
    assert_eq!((sp[0].x, sp[0].y, sp[0].heading_deg), (10, 5, 90));
    assert!(sp[0].pen_down);
}

#[test]
fn trail_has_one_plot_per_pixel_step() {
    let (events, err) = run("maak p schildpad\nvooruit 3 p");
    assert!(err.is_none(), "{err:?}");
    assert_eq!(plots(&events), vec![(0, 0), (1, 0), (2, 0), (3, 0)]);
}

#[test]
fn positions_wrap_around_the_buffer() {
    let (events, err) = run("maak p schildpad\ndraai links p\nvooruit 2 p");
    assert!(err.is_none(), "{err:?}");
    // 30 rows of 8 px: y = -1 wraps to 239
    assert_eq!(plots(&events), vec![(0, 0), (0, 239), (0, 238)]);
}

#[test]
fn clamp_keeps_plots_at_the_edge() {
    let (events, err) = run("wrapmode klem\nmaak p schildpad\ndraai links p\nvooruit 2 p");
    assert!(err.is_none(), "{err:?}");
    assert!(events.iter().any(|e| matches!(e, Event::Draw(DrawOp::SetWrap { fb: 0, mode: WrapMode::Clamp }))));
    assert_eq!(plots(&events), vec![(0, 0), (0, 0), (0, 0)]);
}

#[test]
fn pen_up_draws_nothing() {
    let (events, err) = run("maak p schildpad\npenomhoog p\nvooruit 20 p\npenomlaag p\nvooruit 1 p");
    assert!(err.is_none(), "{err:?}");
    assert_eq!(plots(&events), vec![(20, 0), (21, 0)]);
}

#[test]
fn pen_colour_is_used_and_new_turtles_get_default_pens() {
    let (events, err) = run("maak a schildpad\nmaak b schildpad\nvooruit 1 a\nvooruit 1 b\npen roze a\nvooruit 1 a");
    assert!(err.is_none(), "{err:?}");
    let colours: Vec<&str> = events
        .iter()
        .filter_map(|e| match e {
            Event::Draw(DrawOp::Plot { colour, .. }) => Some(*colour),
            _ => None,
        })
        .collect();
    assert_eq!(colours, vec!["groen", "groen", "blauw", "blauw", "roze", "roze"]);
}

#[test]
fn random_distance_stays_in_its_domain() {
    for seed in 1..20u64 {
        let mut e = Engine::new();
        e.reset_seed(seed);
        e.load("maak p schildpad\nvooruit random p\ndraai random p");
        while !e.done() {
            e.step();
        }
        let sp = e.sprites();
        assert!(sp[0].x <= 100, "seed {seed}: {}", sp[0].x);
        assert!(sp[0].heading_deg == 90 || sp[0].heading_deg == 270);
    }
}

// ---- loops, conditionals, transport ------------------------------------------------------------

#[test]
fn loop_counts_truncate_and_non_positive_counts_skip() {
    let (events, err) = run("herhaal 2.9\n  print \"x\"\nherhaal 0 - 1\n  print \"y\"\ndoe 2 keer\n  print \"z\"");
    assert!(err.is_none(), "{err:?}");
    assert_eq!(texts(&events), vec!["x", "x", "z", "z"]);
}

#[test]
fn nested_loops_multiply() {
    let (events, err) = run("herhaal 3\n  herhaal 2\n    print \"a\"");
    assert!(err.is_none(), "{err:?}");
    assert_eq!(texts(&events).len(), 6);
}

#[test]
fn conditions_compare_exactly() {
    let (events, err) = run("als 1 / 3 gelijk 2 / 6\n  print \"ja\"\nals 2 kleiner 1\n  print \"nee\"\nanders\n  print \"anders\"");
    assert!(err.is_none(), "{err:?}");
    assert_eq!(texts(&events), vec!["ja", "anders"]);
}

#[test]
fn step_reports_lines_and_finishes_with_done() {
    let mut e = Engine::new();
    e.load("maak p schildpad\nvooruit 1 p");
    assert_eq!(e.current_line(), Some(1));
    let first = e.step();
    assert!(matches!(first[..], [Event::Line(1)]));
    assert_eq!(e.current_line(), Some(2));
    let second = e.step();
    assert!(matches!(second[0], Event::Line(2)));
    let third = e.step();
    assert!(matches!(third[..], [Event::Done]));
    assert!(e.done());
    assert_eq!(e.current_line(), None);
    assert!(e.step().is_empty());
}

#[test]
fn an_error_halts_the_program() {
    let mut e = Engine::new();
    e.load("print 1 / 0\nprint 1");
    let ev = e.step();
    assert!(matches!(ev.last(), Some(Event::Error(_))));
    assert!(e.done());
    assert!(e.step().is_empty());
}

#[test]
fn empty_program_is_done_at_once() {
    let mut e = Engine::new();
    let ev = e.load("\n   \n");
    assert!(matches!(ev[..], [Event::Draw(DrawOp::Clear { fb: 0 })]));
    assert!(e.done());
}

#[test]
fn reset_replays_from_the_defined_start() {
    let mut e = Engine::new();
    e.reset_seed(7);
    e.load("maak p schildpad\nvooruit random p\nprint p");
    let mut first = Vec::new();
    while !e.done() {
        first.extend(e.step());
    }
    let mut second = e.reset();
    while !e.done() {
        second.extend(e.step());
    }
    let mut third = e.reset();
    while !e.done() {
        third.extend(e.step());
    }
    assert_eq!(plots(&second), plots(&third));
    assert_eq!(texts(&second), vec!["p"]);
}

#[test]
fn run_line_executes_against_live_state() {
    let mut e = Engine::new();
    assert!(e.run_line("   ", 1).is_empty());
    assert!(e.run_line("maak p schildpad", 1).is_empty());
    let ev = e.run_line("vooruit 2 p", 2);
    assert_eq!(plots(&ev), vec![(0, 0), (1, 0), (2, 0)]);
    let sp = e.sprites();
    assert_eq!(sp[0].x, 2);
}

#[test]
fn tunes_play_with_note_lengths_and_rests() {
    let (events, err) = run("maak liedje deuntje = do re2 stilte\nplay liedje mi/2 440");
    assert!(err.is_none(), "{err:?}");
    let voices = events
        .iter()
        .find_map(|e| match e {
            Event::Audio(AudioCmd::Sequence { tempo_bpm, voices }) => Some((*tempo_bpm, voices.clone())),
            _ => None,
        })
        .unwrap();
    assert_eq!(voices.0, 120);
    let hz: Vec<Option<Getal>> = voices.1.iter().map(|v| v.pitch_hz).collect();
    let beats: Vec<Getal> = voices.1.iter().map(|v| v.beats).collect();
    assert_eq!(hz.len(), 5);
    assert_eq!(hz[0], Getal::from_ratio(26163, 100));
    assert_eq!(hz[1], Getal::from_ratio(29366, 100));
    assert_eq!(hz[2], None);
    assert_eq!(hz[3], Getal::from_ratio(32963, 100));
    assert_eq!(hz[4], Some(Getal::from_i64(440)));
    assert_eq!(beats[1], Getal::from_i64(2));
    assert_eq!(beats[3], Getal::from_ratio(1, 2).unwrap());
}

#[test]
fn play_without_notes_errors() {
    assert_eq!(error_of("play"), "ik begreep 'play' hier niet.");
}

// ---- block structure, casts, tunes and interpolated names ------------------------------------

#[test]
fn indentation_decides_which_lines_a_loop_owns() {
    let (ev, err) = run("herhaal 2\n  print 1\n\n  print 2\nprint 3");
    assert_eq!(err, None);
    assert_eq!(texts(&ev), vec!["1", "2", "1", "2", "3"]);
}

#[test]
fn anders_at_the_als_indentation_owns_the_else_block() {
    let (ev, err) = run("als 1 gelijk 2\n  print 1\nanders\n  print 2\nprint 3");
    assert_eq!(err, None);
    assert_eq!(texts(&ev), vec!["2", "3"]);
}

#[test]
fn a_line_less_indented_than_its_block_returns_to_the_outer_block() {
    let (ev, err) = run("als 1 gelijk 1\n    print 1\n  print 2\nprint 3");
    assert_eq!(err, None);
    assert_eq!(texts(&ev), vec!["1", "2", "3"]);
}

#[test]
fn compiled_tree_follows_the_lines() {
    let p = compile("doe\n  print 1\nals 2 groter 1\n  print 2\nanders\n  print 3\nprint 4");
    let root = &p.blocks[p.root];
    assert_eq!(root.len(), 3);
    match &root[0] {
        Stmt::Loop { line, unbounded, count, body } => {
            assert_eq!(*line, 1);
            assert!(*unbounded);
            assert!(count.is_none());
            assert_eq!(p.blocks[*body].len(), 1);
        }
        _ => panic!("expected a loop"),
    }
    match &root[1] {
        Stmt::If { line, lhs, rhs, then_b, else_b, .. } => {
            assert_eq!(*line, 3);
            assert_eq!(lhs.len(), 1);
            assert_eq!(rhs.len(), 1);
            assert_eq!(p.blocks[*then_b].len(), 1);
            assert_eq!(p.blocks[else_b.expect("an else block")].len(), 1);
        }
        _ => panic!("expected an als"),
    }
    match &root[2] {
        Stmt::Simple { line, toks, src } => {
            assert_eq!(*line, 7);
            assert_eq!(toks.len(), 2);
            assert_eq!(src, "print 4");
        }
        _ => panic!("expected a plain statement"),
    }
}

#[test]
fn doe_keer_counts_what_stands_before_keer() {
    let p = compile("doe 2 + 1 keer\n  print 1");
    match &p.blocks[p.root][0] {
        Stmt::Loop { unbounded, count, .. } => {
            assert!(!*unbounded);
            assert_eq!(count.as_ref().expect("a count").len(), 3);
        }
        _ => panic!("expected a loop"),
    }
    let (ev, _) = run("doe 2 + 1 keer\n  print 1");
    assert_eq!(texts(&ev), vec!["1", "1", "1"]);
}

#[test]
fn text_and_numbers_join_in_print() {
    let (ev, err) = run("maak n = 3\nmaak s = \"keer: \"\nprint s + n * 2");
    assert_eq!(err, None);
    assert_eq!(texts(&ev), vec!["keer: 6"]);
}

#[test]
fn a_cast_to_draairichting_truncates() {
    let (ev, err) = run("maak d draairichting = 7 / 2\nprint d\nmaak x = 1\nx = -7 / 2 draairichting\nprint x");
    assert_eq!(err, None);
    assert_eq!(texts(&ev), vec!["3", "-3"]);
}

#[test]
fn a_typed_tune_holds_one_tone_per_token() {
    let (ev, err) = run("maak t deuntje = do re stilte 440\nplay t");
    assert_eq!(err, None);
    let voices: Vec<_> = ev
        .iter()
        .filter_map(|e| match e {
            Event::Audio(AudioCmd::Sequence { voices, .. }) => Some(voices.clone()),
            _ => None,
        })
        .collect();
    assert_eq!(voices.len(), 1);
    let v = &voices[0];
    assert_eq!(v.len(), 4);
    assert!(v[0].pitch_hz.is_some());
    assert!(v[2].pitch_hz.is_none());
    assert_eq!(v[3].pitch_hz, Some(Getal::from_i64(440)));
}

#[test]
fn a_tune_with_a_word_that_is_no_tone_errors() {
    let e = error_of("maak t deuntje = do vooruit");
    assert!(e.contains("vooruit"), "{e}");
}

#[test]
fn interpolated_name_reports_its_parenthesised_expression() {
    let e = error_of("maak i = 2\nprint a-'(i+1)");
    assert!(e.contains("'a-3'") && e.contains("'a-'") && e.contains("de waarde van (i+1)"), "{e}");
}

#[test]
fn a_text_as_loop_count_or_condition_errors() {
    let e = error_of("herhaal \"drie\"\n  print 1");
    assert!(e.contains("getal"), "{e}");
    let e = error_of("als \"a\" groter 1\n  print 1");
    assert!(e.contains("getal"), "{e}");
}

#[test]
fn a_named_action_keeps_what_it_was_made_with() {
    let mut e = Engine::new();
    e.load("maak n = 20\nmaak stap = vooruit n\nn = 90\nmaak p schildpad\nstap p");
    while !e.done() {
        e.step();
    }
    let sp = e.sprites();
    assert_eq!(sp.len(), 1);
    assert_eq!((sp[0].x, sp[0].y), (20, 0));
}

#[test]
fn a_lone_literal_binds_its_value() {
    let (ev, err) = run("maak k = rood\nmaak t = do\nmaak o = links\nprint t\nprint k\nprint o");
    assert_eq!(err, None);
    let t = texts(&ev);
    assert_eq!(t.len(), 3);
    assert!(t[0].starts_with("toon "), "{t:?}");
    assert_eq!(t[1], "rood");
    assert_eq!(t[2], "-90");
}

#[test]
fn current_line_is_the_line_the_next_step_runs() {
    let mut e = Engine::new();
    e.load("maak p schildpad\nherhaal 2\n  vooruit 10 p");
    e.step();
    e.step();
    e.step();
    assert_eq!(e.current_line(), Some(3));
    let ev = e.step();
    assert!(matches!(ev[0], Event::Line(3)));
    assert_eq!(e.current_line(), None);
}

#[test]
fn a_number_too_large_is_reported_where_it_is_used() {
    let e = error_of("print 99999999999999999999");
    assert!(!e.is_empty());
    let (_, err) = run("maak x = 1");
    assert_eq!(err, None);
}

#[test]
fn a_second_value_for_a_filled_slot_is_a_hard_error() {
    let e = error_of("maak p schildpad\ndraai links rechts p");
    assert!(e.contains("rechts"), "{e}");
    let e = error_of("maak p schildpad\nvooruit random 5 p");
    assert!(e.contains("5"), "{e}");
    let e = error_of("maak p schildpad\npen rood blauw p");
    assert!(e.contains("blauw"), "{e}");
}

#[test]
fn reset_restores_wrapping() {
    let mut e = Engine::new();
    let mut ev = e.load("wrapmode klem\nprint 1");
    while !e.done() {
        ev.extend(e.step());
    }
    let mut again = e.reset();
    while !e.done() {
        again.extend(e.step());
    }
    assert_eq!(format!("{ev:?}"), format!("{again:?}"));
}

#[test]
fn run_line_of_nothing_leaves_the_engine_alone() {
    let mut e = Engine::new();
    e.load("maak p schildpad\nvooruit 3 p");
    while !e.done() {
        e.step();
    }
    let before = format!("{:?}", e.sprites());
    assert!(e.run_line("[ ]", 9).is_empty());
    assert!(e.run_line("", 9).is_empty());
    assert_eq!(format!("{:?}", e.sprites()), before);
    assert!(e.done());
}

#[test]
fn blank_and_bracket_lines_leave_nothing_to_run() {
    let mut e = Engine::new();
    e.load("[\n   \n]\n[ ]");
    assert!(e.done());
    assert!(e.step().is_empty());
}

#[test]
fn a_line_with_a_word_leaves_something_to_run() {
    let mut e = Engine::new();
    e.load("[\n  maak p schildpad\n]");
    assert!(!e.done());
}

#[test]
fn built_names_drive_turtle_verbs() {
    let (events, err) = run("maak i = 1\nmaak a-'i schildpad\nvooruit 3 a-'i\ndraai rechts a-'(i)");
    assert!(err.is_none());
    assert!(!events.iter().any(|e| matches!(e, Event::Error(_))));
    let e = error_of("maak i = 2\nmaak p schildpad\nvooruit 5 a-'i");
    assert!(e.contains("'a-2'") && e.contains("'a-'") && e.contains("de waarde van i"));
}
