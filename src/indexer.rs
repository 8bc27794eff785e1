//! Indexing of a marked-up text: one styled character per visible position.

use vstd::prelude::*;
use crate::markup::{
    emit, emit_all, end_entity, end_tag, entity_value, finish, flush_entity, glyphs_of, initial_scan,
    is_entity_name_char, run, scan, step, step_text, to_text, top_color, Glyph, MarkupWarning,
    ScanMode, ScanState,
};
use crate::tags::{classify_tag, span_color_exec, TagKind};
use crate::text::string_of_chars;

verus! {

/// A visible character and the colour that applies to it.
#[derive(Debug)]
pub struct StyledChar {
    pub ch: char,
    pub color: Option<String>,
}

pub open spec fn color_view(c: Option<String>) -> Option<Seq<char>> {
    match c {
        Some(s) => Some(s@),
        None => None,
    }
}

impl View for StyledChar {
    type V = Glyph;

    open spec fn view(&self) -> Glyph {
        Glyph { ch: self.ch, color: color_view(self.color) }
    }
}

pub open spec fn glyphs_view(v: Seq<StyledChar>) -> Seq<Glyph> {
    v.map_values(|g: StyledChar| g@)
}

/// The character format map of a marked-up text, with what was found amiss.
pub struct FormatMap {
    /// One entry per visible position, in order.
    pub glyphs: Vec<StyledChar>,
    pub warnings: Vec<MarkupWarning>,
}

/// Copies a colour, keeping its text.
pub fn clone_color(c: &Option<String>) -> (r: Option<String>)
    ensures
        color_view(r) == color_view(*c),
{
    match c {
        Some(s) => Some(s.clone()),
        None => None,
    }
}

struct Scanner {
    mode: ScanMode,
    buf: Vec<char>,
    stack: Vec<String>,
    glyphs: Vec<StyledChar>,
    warnings: Vec<MarkupWarning>,
}

impl View for Scanner {
    type V = ScanState;

    closed spec fn view(&self) -> ScanState {
        ScanState {
            mode: self.mode,
            buf: self.buf@,
            stack: self.stack@.map_values(|s: String| s@),
            glyphs: glyphs_view(self.glyphs@),
            warnings: self.warnings@,
        }
    }
}

fn entity_value_exec(b: &Vec<char>) -> (r: Option<char>)
    ensures
        r == entity_value(b@),
{
    if b.len() == 3 && b[0] == 'a' && b[1] == 'm' && b[2] == 'p' {
        assert(b@ =~= seq!['a', 'm', 'p']);
        Some('&')
    } else if b.len() == 2 && b[0] == 'l' && b[1] == 't' {
        assert(b@ =~= seq!['l', 't']);
        Some('<')
    } else if b.len() == 2 && b[0] == 'g' && b[1] == 't' {
        assert(b@ =~= seq!['g', 't']);
        Some('>')
    } else if b.len() == 4 && b[0] == 'a' && b[1] == 'p' && b[2] == 'o' && b[3] == 's' {
        assert(b@ =~= seq!['a', 'p', 'o', 's']);
        Some('\'')
    } else if b.len() == 4 && b[0] == 'q' && b[1] == 'u' && b[2] == 'o' && b[3] == 't' {
        assert(b@ =~= seq!['q', 'u', 'o', 't']);
        Some('"')
    } else {
        assert(b@ != seq!['a', 'm', 'p'] && b@ != seq!['l', 't'] && b@ != seq!['g', 't'] && b@
            != seq!['a', 'p', 'o', 's'] && b@ != seq!['q', 'u', 'o', 't']) by {
            if b@.len() == 3 {
                assert(seq!['a', 'm', 'p'][0] == 'a' && seq!['a', 'm', 'p'][1] == 'm' && seq![
                    'a',
                    'm',
                    'p',
                ][2] == 'p');
            }
            if b@.len() == 2 {
                assert(seq!['l', 't'][0] == 'l' && seq!['l', 't'][1] == 't');
                assert(seq!['g', 't'][0] == 'g' && seq!['g', 't'][1] == 't');
            }
            if b@.len() == 4 {
                let a = seq!['a', 'p', 'o', 's'];
                let q = seq!['q', 'u', 'o', 't'];
                assert(a[0] == 'a' && a[1] == 'p' && a[2] == 'o' && a[3] == 's');
                assert(q[0] == 'q' && q[1] == 'u' && q[2] == 'o' && q[3] == 't');
            }
        }
        None
    }
}

fn is_entity_name_char_exec(c: char) -> (r: bool)
    ensures
        r == is_entity_name_char(c),
{
    ('a' <= c && c <= 'z') || ('A' <= c && c <= 'Z') || ('0' <= c && c <= '9') || c == '#'
}

impl Scanner {
    fn new() -> (r: Scanner)
        ensures
            r@ == initial_scan(),
    {
        let r = Scanner {
            mode: ScanMode::Text,
            buf: Vec::new(),
            stack: Vec::new(),
            glyphs: Vec::new(),
            warnings: Vec::new(),
        };
        assert(r@.stack =~= Seq::<Seq<char>>::empty());
        assert(r@.glyphs =~= Seq::<Glyph>::empty());
        r
    }

    fn top(&self) -> (r: Option<String>)
        ensures
            color_view(r) == top_color(self@.stack),
    {
        if self.stack.len() == 0 {
            None
        } else {
            Some(self.stack[self.stack.len() - 1].clone())
        }
    }

    fn emit(&mut self, c: char)
        ensures
            final(self)@ == emit(old(self)@, c),
    {
        let color = self.top();
        let g = StyledChar { ch: c, color };
        self.glyphs.push(g);
        assert(glyphs_view(self.glyphs@) =~= glyphs_view(old(self).glyphs@).push(g@));
    }

    fn emit_all(&mut self, t: &Vec<char>)
        ensures
            final(self)@ == emit_all(old(self)@, t@),
    {
        let mut i: usize = 0;
        while i < t.len()
            invariant
                i <= t@.len(),
                self@ == emit_all(old(self)@, t@.take(i as int)),
            decreases t@.len() - i,
        {
            assert(t@.take(i + 1).drop_last() =~= t@.take(i as int));
            self.emit(t[i]);
            i = i + 1;
        }
        assert(t@.take(t@.len() as int) =~= t@);
    }

    fn to_text(&mut self)
        ensures
            final(self)@ == to_text(old(self)@),
    {
        self.mode = ScanMode::Text;
        self.buf = Vec::new();
        assert(self@.buf =~= Seq::<char>::empty());
    }

    fn flush_entity(&mut self)
        ensures
            final(self)@ == flush_entity(old(self)@),
    {
        let mut t: Vec<char> = Vec::new();
        t.push('&');
        let mut i: usize = 0;
        while i < self.buf.len()
            invariant
                i <= self.buf@.len(),
                self@ == old(self)@,
                t@ == seq!['&'] + self.buf@.take(i as int),
            decreases self.buf@.len() - i,
        {
            t.push(self.buf[i]);
            i = i + 1;
            assert(t@ =~= seq!['&'] + self.buf@.take(i as int));
        }
        assert(self.buf@.take(self.buf@.len() as int) =~= self.buf@);
        self.to_text();
        self.emit_all(&t);
    }

    fn end_entity(&mut self)
        ensures
            final(self)@ == end_entity(old(self)@),
    {
        match entity_value_exec(&self.buf) {
            Some(c) => {
                self.to_text();
                self.emit(c);
            },
            None => {
                let mut t: Vec<char> = Vec::new();
                t.push('&');
                let mut i: usize = 0;
                while i < self.buf.len()
                    invariant
                        i <= self.buf@.len(),
                        self@ == old(self)@,
                        t@ == seq!['&'] + self.buf@.take(i as int),
                    decreases self.buf@.len() - i,
                {
                    t.push(self.buf[i]);
                    i = i + 1;
                    assert(t@ =~= seq!['&'] + self.buf@.take(i as int));
                }
                t.push(';');
                assert(t@ =~= seq!['&'] + self.buf@ + seq![';']);
                self.to_text();
                self.emit_all(&t);
            },
        }
    }

    fn end_tag(&mut self)
        ensures
            final(self)@ == end_tag(old(self)@),
    {
        let kind = classify_tag(&self.buf);
        match kind {
            TagKind::OpenSpan => {
                match span_color_exec(&self.buf) {
                    Some(v) => {
                        let col = string_of_chars(&v);
                        self.to_text();
                        self.stack.push(col);
                        assert(self@.stack =~= old(self)@.stack.push(col@));
                    },
                    None => {
                        self.to_text();
                        self.warnings.push(MarkupWarning::UnparseableColor);
                    },
                }
            },
            TagKind::CloseSpan => {
                self.to_text();
                if self.stack.len() > 0 {
                    self.stack.pop();
                    assert(self@.stack =~= old(self)@.stack.drop_last());
                } else {
                    self.warnings.push(MarkupWarning::UnmatchedClose);
                }
            },
            TagKind::Other => {
                self.to_text();
            },
        }
    }

    fn step_text(&mut self, c: char)
        ensures
            final(self)@ == step_text(old(self)@, c),
    {
        if c == '<' {
            self.mode = ScanMode::Tag;
            self.buf = Vec::new();
            assert(self@.buf =~= Seq::<char>::empty());
        } else if c == '&' {
            self.mode = ScanMode::Entity;
            self.buf = Vec::new();
            assert(self@.buf =~= Seq::<char>::empty());
        } else {
            self.emit(c);
        }
    }

    fn step(&mut self, c: char)
        ensures
            final(self)@ == step(old(self)@, c),
    {
        match self.mode {
            ScanMode::Text => self.step_text(c),
            ScanMode::Tag => {
                if c == '>' {
                    self.end_tag();
                } else {
                    self.buf.push(c);
                }
            },
            ScanMode::Entity => {
                if c == ';' {
                    self.end_entity();
                } else if is_entity_name_char_exec(c) {
                    self.buf.push(c);
                } else {
                    self.flush_entity();
                    self.step_text(c);
                }
            },
        }
    }

    fn finish(&mut self)
        ensures
            final(self)@ == finish(old(self)@),
    {
        match self.mode {
            ScanMode::Text => {},
            ScanMode::Tag => {
                self.to_text();
                self.warnings.push(MarkupWarning::UnterminatedTag);
            },
            ScanMode::Entity => self.flush_entity(),
        }
    }
}

/// Scans a marked-up text once and returns, for each visible position, the
/// character and its colour, together with the defects that were skipped.
pub fn index_markup(s: &str) -> (r: FormatMap)
    ensures
        glyphs_view(r.glyphs@) == glyphs_of(s@),
        r.warnings@ == scan(s@).warnings,
{
    let mut sc = Scanner::new();
    for c in it: s.chars()
        invariant
            it.seq() == s@,
            sc@ == run(initial_scan(), s@.take(it.index() as int)),
    {
        proof {
            let k = it.index() as int;
            assert(s@.take(k + 1).drop_last() =~= s@.take(k));
        }
        sc.step(c);
    }
    proof {
        assert(s@.take(s@.len() as int) =~= s@);
    }
    sc.finish();
    FormatMap { glyphs: sc.glyphs, warnings: sc.warnings }
}

} // verus!
