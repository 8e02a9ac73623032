//! The core → host command/event stream. The core owns no device: it emits these and the host
//! blits / synthesises. Colours travel by name; positions arrive already wrapped to logical
//! pixels; pitches are already resolved to hertz.

use vstd::prelude::*;

use crate::error::SchildpadError;
use crate::number::Getal;

verus! {

/// Returned by `Engine::step()`. The host processes the list in order.
#[derive(Debug, Clone)]
pub enum Event {
    /// "the machine is now reading this line" — drives the editor highlight.
    Line(u32),
    Draw(DrawOp),
    Audio(AudioCmd),
    Error(SchildpadError),
    Done,
}

#[derive(Debug, Clone, Copy, PartialEq, Eq, Structural)]
pub enum WrapMode {
    Wrap,
    Clamp,
}

/// A persistent mutation of a framebuffer. The turtle sprite is not here — it is read-back
/// state (see `Engine::sprites`); only ink (pen trails, text) is a draw op.
#[derive(Debug, Clone, PartialEq)]
pub enum DrawOp {
    Clear { fb: u8 },
    /// A single pixel, already wrapped into the buffer by the core. `colour` is a vocab name.
    Plot { fb: u8, x: u16, y: u16, colour: &'static str },
    /// Text at a glyph cell.
    Text { fb: u8, col: u16, row: u16, text: String, colour: &'static str },
    SetWrap { fb: u8, mode: WrapMode },
}

/// A declarative sound description; synthesis is host-side.
#[derive(Debug, Clone, PartialEq)]
pub enum AudioCmd {
    Sequence { tempo_bpm: u16, voices: Vec<Voice> },
}

/// One voice of a sequence: an exact pitch in hertz (`None` = a rest) and a duration in beats.
#[derive(Debug, Clone, PartialEq)]
pub struct Voice {
    pub pitch_hz: Option<Getal>,
    pub beats: Getal,
    pub osc: &'static str,
    pub env: &'static str,
}

/// A read-back snapshot of a live turtle, for the host's sprite layer.
#[derive(Debug, Clone, PartialEq)]
pub struct Sprite {
    pub id: usize,
    pub fb: u8,
    pub x: u16,
    pub y: u16,
    pub heading_deg: u16,
    pub tint: u8,
    pub pen_down: bool,
}

} // verus!
