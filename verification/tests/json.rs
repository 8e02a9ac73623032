use schildpad_core::highlight;
use schildpad_core::json::{events_to_json, spans_to_json, sprites_to_json};
use schildpad_core::Engine;

#[test]
fn json_has_clean_schema() {
    let mut e = Engine::new();
    let mut events = e.load("maak pietje schildpad\nvooruit 10 pietje");
    while !e.done() {
        events.extend(e.step());
    }
    let json = events_to_json(&events);
    assert!(json.starts_with('['));
    assert!(json.contains("\"t\":\"clear\""));
    assert!(json.contains("\"t\":\"plot\""));
    assert!(json.contains("\"t\":\"done\""));
    let sj = sprites_to_json(&e.sprites());
    assert!(sj.contains("\"penDown\":true"));
}

#[test]
fn highlight_json_schema() {
    let json = spans_to_json(&highlight::highlight("maak pietje schildpad"));
    assert!(json.starts_with('['));
    assert!(json.contains("\"kind\":\"keyword\""));
    assert!(json.contains("\"kind\":\"name\""));
    assert!(json.contains("\"kind\":\"type\""));
    assert!(json.contains("\"line\":1"));
    assert!(json.contains("\"ok\":true"));
}

#[test]
fn error_json_escapes() {
    let mut e = Engine::new();
    let mut events = e.load("maak x = random");
    while !e.done() {
        events.extend(e.step());
    }
    let json = events_to_json(&events);
    assert!(json.contains("\"t\":\"error\""));
    assert!(json.contains("random waarvan"));
}
