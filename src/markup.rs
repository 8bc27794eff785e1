//! The markup scanner as a state machine over characters.
//!
//! The scanner is in one of three modes: plain text, inside a tag (`<...>`),
//! or inside an entity (`&...;`). It keeps a stack of open colours and emits
//! one glyph per visible character, tagged with the innermost open colour.

use vstd::prelude::*;
use crate::tags::{tag_kind, span_color, TagKind};

verus! {

/// One visible character with the colour that applies to it.
pub struct Glyph {
    pub ch: char,
    pub color: Option<Seq<char>>,
}

/// A recoverable defect found while scanning markup.
#[derive(Clone, Copy, Debug, PartialEq, Eq, Structural)]
pub enum MarkupWarning {
    /// An opening colour span without a double-quoted `color` value.
    UnparseableColor,
    /// A closing colour span with no span open.
    UnmatchedClose,
    /// The text ends inside a tag.
    UnterminatedTag,
}

/// Where the scanner stands.
#[derive(Clone, Copy, Debug, PartialEq, Eq, Structural)]
pub enum ScanMode {
    Text,
    Tag,
    Entity,
}

/// The abstract state of the scanner.
pub struct ScanState {
    pub mode: ScanMode,
    /// The content of the tag or entity read so far.
    pub buf: Seq<char>,
    pub stack: Seq<Seq<char>>,
    pub glyphs: Seq<Glyph>,
    pub warnings: Seq<MarkupWarning>,
}

pub open spec fn initial_scan() -> ScanState {
    ScanState { mode: ScanMode::Text, buf: seq![], stack: seq![], glyphs: seq![], warnings: seq![] }
}

pub open spec fn top_color(stack: Seq<Seq<char>>) -> Option<Seq<char>> {
    if stack.len() == 0 {
        None
    } else {
        Some(stack.last())
    }
}

/// Plain text mode with an empty buffer, the rest kept.
pub open spec fn to_text(st: ScanState) -> ScanState {
    ScanState { mode: ScanMode::Text, buf: seq![], ..st }
}

pub open spec fn emit(st: ScanState, c: char) -> ScanState {
    ScanState { glyphs: st.glyphs.push(Glyph { ch: c, color: top_color(st.stack) }), ..st }
}

pub open spec fn emit_all(st: ScanState, t: Seq<char>) -> ScanState
    decreases t.len(),
{
    if t.len() == 0 {
        st
    } else {
        emit(emit_all(st, t.drop_last()), t.last())
    }
}

pub open spec fn warn(st: ScanState, w: MarkupWarning) -> ScanState {
    ScanState { warnings: st.warnings.push(w), ..st }
}

/// A character read in plain text mode.
pub open spec fn step_text(st: ScanState, c: char) -> ScanState {
    if c == '<' {
        ScanState { mode: ScanMode::Tag, buf: seq![], ..st }
    } else if c == '&' {
        ScanState { mode: ScanMode::Entity, buf: seq![], ..st }
    } else {
        emit(st, c)
    }
}

pub open spec fn is_entity_name_char(c: char) -> bool {
    ('a' <= c && c <= 'z') || ('A' <= c && c <= 'Z') || ('0' <= c && c <= '9') || c == '#'
}

/// The character that a named entity stands for.
pub open spec fn entity_value(name: Seq<char>) -> Option<char> {
    if name == seq!['a', 'm', 'p'] {
        Some('&')
    } else if name == seq!['l', 't'] {
        Some('<')
    } else if name == seq!['g', 't'] {
        Some('>')
    } else if name == seq!['a', 'p', 'o', 's'] {
        Some('\'')
    } else if name == seq!['q', 'u', 'o', 't'] {
        Some('"')
    } else {
        None
    }
}

/// An entity that was not completed: its characters are visible as they stand.
pub open spec fn flush_entity(st: ScanState) -> ScanState {
    emit_all(to_text(st), seq!['&'] + st.buf)
}

/// The `;` of an entity.
pub open spec fn end_entity(st: ScanState) -> ScanState {
    match entity_value(st.buf) {
        Some(c) => emit(to_text(st), c),
        None => emit_all(to_text(st), seq!['&'] + st.buf + seq![';']),
    }
}

/// The `>` of a tag.
pub open spec fn end_tag(st: ScanState) -> ScanState {
    let t = to_text(st);
    match tag_kind(st.buf) {
        TagKind::OpenSpan => match span_color(st.buf) {
            Some(col) => ScanState { stack: t.stack.push(col), ..t },
            None => warn(t, MarkupWarning::UnparseableColor),
        },
        TagKind::CloseSpan => if t.stack.len() > 0 {
            ScanState { stack: t.stack.drop_last(), ..t }
        } else {
            warn(t, MarkupWarning::UnmatchedClose)
        },
        TagKind::Other => t,
    }
}

/// One character of input.
pub open spec fn step(st: ScanState, c: char) -> ScanState {
    match st.mode {
        ScanMode::Text => step_text(st, c),
        ScanMode::Tag => if c == '>' {
            end_tag(st)
        } else {
            ScanState { buf: st.buf.push(c), ..st }
        },
        ScanMode::Entity => if c == ';' {
            end_entity(st)
        } else if is_entity_name_char(c) {
            ScanState { buf: st.buf.push(c), ..st }
        } else {
            step_text(flush_entity(st), c)
        },
    }
}

pub open spec fn run(st: ScanState, s: Seq<char>) -> ScanState
    decreases s.len(),
{
    if s.len() == 0 {
        st
    } else {
        step(run(st, s.drop_last()), s.last())
    }
}

/// The end of input.
pub open spec fn finish(st: ScanState) -> ScanState {
    match st.mode {
        ScanMode::Text => st,
        ScanMode::Tag => warn(to_text(st), MarkupWarning::UnterminatedTag),
        ScanMode::Entity => flush_entity(st),
    }
}

/// The scanner's final state on a whole marked-up text.
pub open spec fn scan(s: Seq<char>) -> ScanState {
    finish(run(initial_scan(), s))
}

/// The visible characters of a marked-up text, each with its colour.
pub open spec fn glyphs_of(s: Seq<char>) -> Seq<Glyph> {
    scan(s).glyphs
}

pub open spec fn chars_of(gs: Seq<Glyph>) -> Seq<char> {
    gs.map_values(|g: Glyph| g.ch)
}

/// The visible text of a marked-up text: tags removed, entities decoded.
pub open spec fn plain_text(s: Seq<char>) -> Seq<char> {
    chars_of(glyphs_of(s))
}

/// Every colour span is closed, and no tag was malformed or left open.
pub open spec fn is_balanced(s: Seq<char>) -> bool {
    &&& scan(s).stack.len() == 0
    &&& scan(s).warnings.len() == 0
}

/// Lemma: scanning a concatenation scans the parts in turn.
pub proof fn lemma_run_concat(st: ScanState, a: Seq<char>, b: Seq<char>)
    ensures
        run(st, a + b) == run(run(st, a), b),
    decreases b.len(),
{
    if b.len() == 0 {
        assert(a + b =~= a);
    } else {
        lemma_run_concat(st, a, b.drop_last());
        assert((a + b).drop_last() =~= a + b.drop_last());
        assert((a + b).last() == b.last());
    }
}

/// Lemma: scanning one character is one step.
pub proof fn lemma_run_one(st: ScanState, c: char)
    ensures
        run(st, seq![c]) == step(st, c),
{
    assert(seq![c].drop_last() =~= Seq::<char>::empty());
    assert(run(st, Seq::<char>::empty()) == st);
}

} // verus!
