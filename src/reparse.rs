//! Lemmas on scanning markup that this crate writes itself: colour spans,
//! escaped characters and rendered glyph sequences scan back to what they encode.

use vstd::prelude::*;
use crate::escape::escape_char;
use crate::markup::{
    emit, emit_all, end_tag, flush_entity, scan, step_text, initial_scan, lemma_run_concat, lemma_run_one, run, step, to_text, top_color,
    Glyph, ScanMode, ScanState,
};
use crate::tags::{color_key, color_key_at, find_char, find_color_key, name_end, span_color, tag_kind, TagKind};
use crate::window::{
    close_of, close_span_markup, color_before, open_of, open_span_markup, render_prefix,
    transition,
};

verus! {

/// A colour that can stand in a double-quoted attribute of a tag.
pub open spec fn is_clean_color(c: Seq<char>) -> bool {
    forall|i: int| 0 <= i < c.len() ==> c[i] != '"' && c[i] != '>'
}

pub open spec fn colors_clean(gs: Seq<Glyph>) -> bool {
    forall|i: int| 0 <= i < gs.len() ==> (#[trigger] gs[i].color matches Some(c) ==> is_clean_color(c))
}

/// Plain text mode with nothing pending.
pub open spec fn at_rest(st: ScanState) -> bool {
    st.mode == ScanMode::Text && st.buf == Seq::<char>::empty()
}

pub open spec fn no_char(t: Seq<char>, c: char) -> bool {
    forall|i: int| 0 <= i < t.len() ==> t[i] != c
}

proof fn lemma_run_in_tag(st: ScanState, t: Seq<char>)
    requires
        st.mode == ScanMode::Tag,
        no_char(t, '>'),
    ensures
        run(st, t) == (ScanState { buf: st.buf + t, ..st }),
    decreases t.len(),
{
    if t.len() == 0 {
        assert(st.buf + t =~= st.buf);
    } else {
        lemma_run_in_tag(st, t.drop_last());
        assert(st.buf + t.drop_last() + seq![t.last()] =~= st.buf + t);
        assert((st.buf + t.drop_last()).push(t.last()) =~= st.buf + t);
    }
}

/// Lemma: a whole tag `<t>` is read as one `end_tag`.
proof fn lemma_run_tag(st: ScanState, t: Seq<char>)
    requires
        at_rest(st),
        no_char(t, '>'),
    ensures
        run(st, seq!['<'] + t + seq!['>']) == end_tag(ScanState { mode: ScanMode::Tag, buf: t, ..st }),
{
    let st1 = ScanState { mode: ScanMode::Tag, buf: seq![], ..st };
    lemma_run_one(st, '<');
    lemma_run_concat(st, seq!['<'], t);
    lemma_run_in_tag(st1, t);
    assert(seq![] + t =~= t);
    lemma_run_concat(st, seq!['<'] + t, seq!['>']);
    lemma_run_one(ScanState { mode: ScanMode::Tag, buf: t, ..st }, '>');
}

proof fn lemma_find_char_at(b: Seq<char>, q: char, k: int, e: int)
    requires
        0 <= k <= e < b.len(),
        b[e] == q,
        forall|i: int| k <= i < e ==> b[i] != q,
    ensures
        find_char(b, q, k) == Some(e),
    decreases e - k,
{
    if k < e {
        lemma_find_char_at(b, q, k + 1, e);
    }
}

/// The content of the tag that opens a span of colour `c`.
spec fn open_tag_body(c: Seq<char>) -> Seq<char> {
    seq!['s', 'p', 'a', 'n', ' ', 'c', 'o', 'l', 'o', 'r', '=', '"'] + c + seq!['"']
}

proof fn lemma_open_tag_body(c: Seq<char>)
    requires
        is_clean_color(c),
    ensures
        tag_kind(open_tag_body(c)) == TagKind::OpenSpan,
        span_color(open_tag_body(c)) == Some(c),
        no_char(open_tag_body(c), '>'),
{
    let b = open_tag_body(c);
    let n = c.len() as int;
    assert(b.len() == 13 + n);
    assert(b[0] == 's' && b[1] == 'p' && b[2] == 'a' && b[3] == 'n' && b[4] == ' ');
    assert(name_end(b, 4) == 4);
    assert(name_end(b, 3) == 4);
    assert(name_end(b, 2) == 4);
    assert(name_end(b, 1) == 4);
    assert(name_end(b, 0) == 4);
    assert(b.subrange(0, 4)[0] == 's');
    assert(b.subrange(0, 4)[1] == 'p');
    assert(b.subrange(0, 4)[2] == 'a');
    assert(b.subrange(0, 4)[3] == 'n');
    assert(tag_kind(b) == TagKind::OpenSpan);
    assert(!color_key_at(b, 4)) by {
        assert(b.subrange(4, 10)[0] == ' ');
        assert(color_key()[0] == 'c');
    }
    assert(b.subrange(5, 11) =~= color_key());
    assert(color_key_at(b, 5));
    assert(find_color_key(b, 5) == Some(5int));
    assert(find_color_key(b, 4) == Some(5int));
    assert(b[11] == '"');
    assert forall|i: int| 12 <= i < 12 + n implies b[i] != '"' by {
        assert(b[i] == c[i - 12]);
    }
    assert(b[12 + n] == '"');
    lemma_find_char_at(b, '"', 12, 12 + n);
    assert(b.subrange(12, 12 + n) =~= c);
    assert forall|i: int| 0 <= i < b.len() implies b[i] != '>' by {
        if 12 <= i < 12 + n {
            assert(b[i] == c[i - 12]);
        }
    }
}

/// Lemma: the markup that opens a clean colour pushes it.
pub proof fn lemma_run_open(st: ScanState, c: Seq<char>)
    requires
        at_rest(st),
        is_clean_color(c),
    ensures
        run(st, open_span_markup(c)) == (ScanState { stack: st.stack.push(c), ..st }),
{
    let b = open_tag_body(c);
    lemma_open_tag_body(c);
    let first = seq!['<'] + b + seq!['>'];
    let second = seq!['<'] + seq!['b'] + seq!['>'];
    assert(open_span_markup(c) =~= first + second);
    lemma_run_tag(st, b);
    let st1 = ScanState { stack: st.stack.push(c), ..st };
    assert(end_tag(ScanState { mode: ScanMode::Tag, buf: b, ..st }) == st1) by {
        assert(st1.buf =~= Seq::<char>::empty());
    }
    lemma_run_concat(st, first, second);
    let bb = seq!['b'];
    assert(no_char(bb, '>'));
    lemma_run_tag(st1, bb);
    assert(name_end(bb, 1) == 1);
    assert(name_end(bb, 0) == 1);
    assert(tag_kind(bb) == TagKind::Other);
    assert(to_text(ScanState { mode: ScanMode::Tag, buf: bb, ..st1 }) == st1);
}

/// Lemma: the markup that closes a span pops the innermost colour.
pub proof fn lemma_run_close(st: ScanState)
    requires
        at_rest(st),
        st.stack.len() > 0,
    ensures
        run(st, close_span_markup()) == (ScanState { stack: st.stack.drop_last(), ..st }),
{
    let b1 = seq!['/', 'b'];
    let b2 = seq!['/', 's', 'p', 'a', 'n'];
    let first = seq!['<'] + b1 + seq!['>'];
    let second = seq!['<'] + b2 + seq!['>'];
    assert(close_span_markup() =~= first + second);
    assert(no_char(b1, '>'));
    assert(no_char(b2, '>'));
    lemma_run_tag(st, b1);
    assert(name_end(b1, 2) == 2);
    assert(name_end(b1, 1) == 2);
    assert(b1.subrange(1, 2).len() == 1);
    assert(tag_kind(b1) == TagKind::Other);
    assert(to_text(ScanState { mode: ScanMode::Tag, buf: b1, ..st }) == st);
    lemma_run_concat(st, first, second);
    lemma_run_tag(st, b2);
    assert(name_end(b2, 5) == 5);
    assert(name_end(b2, 4) == 5);
    assert(name_end(b2, 3) == 5);
    assert(name_end(b2, 2) == 5);
    assert(name_end(b2, 1) == 5);
    let n = b2.subrange(1, 5);
    assert(n[0] == 's' && n[1] == 'p' && n[2] == 'a' && n[3] == 'n');
    assert(tag_kind(b2) == TagKind::CloseSpan);
}

proof fn lemma_run_entity(st: ScanState, name: Seq<char>, c: char)
    requires
        at_rest(st),
        seq!['&'] + name + seq![';'] == escape_char(c),
        forall|i: int| 0 <= i < name.len() ==> name[i] != ';' && crate::markup::is_entity_name_char(#[trigger] name[i]),
        crate::markup::entity_value(name) == Some(c),
    ensures
        run(st, escape_char(c)) == emit(st, c),
{
    let st1 = ScanState { mode: ScanMode::Entity, buf: seq![], ..st };
    lemma_run_one(st, '&');
    lemma_run_concat(st, seq!['&'], name);
    lemma_run_in_entity(st1, name);
    assert(seq![] + name =~= name);
    lemma_run_concat(st, seq!['&'] + name, seq![';']);
    lemma_run_one(ScanState { mode: ScanMode::Entity, buf: name, ..st }, ';');
    assert(to_text(ScanState { mode: ScanMode::Entity, buf: name, ..st }) == st);
}

proof fn lemma_run_in_entity(st: ScanState, t: Seq<char>)
    requires
        st.mode == ScanMode::Entity,
        forall|i: int| 0 <= i < t.len() ==> t[i] != ';' && crate::markup::is_entity_name_char(#[trigger] t[i]),
    ensures
        run(st, t) == (ScanState { buf: st.buf + t, ..st }),
    decreases t.len(),
{
    if t.len() == 0 {
        assert(st.buf + t =~= st.buf);
    } else {
        lemma_run_in_entity(st, t.drop_last());
        assert(t.last() == t[t.len() - 1]);
        assert((st.buf + t.drop_last()).push(t.last()) =~= st.buf + t);
    }
}

/// Lemma: an escaped character is read as that one visible character.
pub proof fn lemma_run_escaped(st: ScanState, c: char)
    requires
        at_rest(st),
    ensures
        run(st, escape_char(c)) == emit(st, c),
{
    if c == '&' {
        let name = seq!['a', 'm', 'p'];
        assert(seq!['&'] + name + seq![';'] =~= escape_char(c));
        lemma_run_entity(st, name, c);
    } else if c == '<' {
        let name = seq!['l', 't'];
        assert(seq!['&'] + name + seq![';'] =~= escape_char(c));
        lemma_run_entity(st, name, c);
    } else if c == '>' {
        let name = seq!['g', 't'];
        assert(seq!['&'] + name + seq![';'] =~= escape_char(c));
        lemma_run_entity(st, name, c);
    } else if c == '\'' {
        let name = seq!['a', 'p', 'o', 's'];
        assert(seq!['&'] + name + seq![';'] =~= escape_char(c));
        lemma_run_entity(st, name, c);
    } else if c == '"' {
        let name = seq!['q', 'u', 'o', 't'];
        assert(seq!['&'] + name + seq![';'] =~= escape_char(c));
        lemma_run_entity(st, name, c);
    } else {
        lemma_run_one(st, c);
    }
}

/// The state after a prefix of rendered glyphs: the colour `col` is open.
pub open spec fn rest_state(gs: Seq<Glyph>, col: Option<Seq<char>>) -> ScanState {
    ScanState {
        mode: ScanMode::Text,
        buf: seq![],
        stack: match col {
            Some(c) => seq![c],
            None => seq![],
        },
        glyphs: gs,
        warnings: seq![],
    }
}

/// Lemma: the markup for the first `n` glyphs scans back to those glyphs, with
/// the colour of the last one left open.
pub proof fn lemma_render_prefix(gs: Seq<Glyph>, n: int)
    requires
        colors_clean(gs),
        0 <= n <= gs.len(),
    ensures
        run(initial_scan(), render_prefix(gs, n)) == rest_state(gs.take(n), color_before(gs, n)),
    decreases n,
{
    if n == 0 {
        lemma_run_one(initial_scan(), ' ');
        assert(render_prefix(gs, 0) =~= Seq::<char>::empty());
        assert(run(initial_scan(), Seq::<char>::empty()) == initial_scan());
        assert(gs.take(0) =~= Seq::<Glyph>::empty());
        assert(initial_scan().stack =~= Seq::<Seq<char>>::empty());
        assert(initial_scan().glyphs =~= Seq::<Glyph>::empty());
        assert(initial_scan().warnings =~= rest_state(gs.take(0), None).warnings);
    } else {
        lemma_render_prefix(gs, n - 1);
        let from = color_before(gs, n - 1);
        let g = gs[n - 1];
        let to = g.color;
        let s0 = rest_state(gs.take(n - 1), from);
        let pre = render_prefix(gs, n - 1);
        let tr = transition(from, to);
        let esc = escape_char(g.ch);
        lemma_run_concat(initial_scan(), pre + tr, esc);
        lemma_run_concat(initial_scan(), pre, tr);
        let s1 = rest_state(gs.take(n - 1), to);
        // the transition leaves exactly the new colour open
        if from == to {
            assert(tr =~= Seq::<char>::empty());
            assert(pre + tr =~= pre);
            assert(run(s0, tr) == s0) by {
                lemma_run_concat(s0, tr, tr);
            }
        } else {
            let s_mid = rest_state(gs.take(n - 1), None);
            assert(run(s0, close_of(from)) == s_mid) by {
                if from is Some {
                    lemma_run_close(s0);
                    assert(s0.stack.drop_last() =~= s_mid.stack);
                } else {
                    assert(close_of(from) =~= Seq::<char>::empty());
                }
            }
            assert(run(s_mid, open_of(to)) == s1) by {
                match to {
                    Some(c) => {
                        assert(colors_clean(gs) ==> (gs[n - 1].color matches Some(c) ==> is_clean_color(c)));
                        lemma_run_open(s_mid, c);
                        assert(s_mid.stack.push(c) =~= s1.stack);
                    },
                    None => {
                        assert(open_of(to) =~= Seq::<char>::empty());
                    },
                }
            }
            lemma_run_concat(s0, close_of(from), open_of(to));
        }
        assert(run(initial_scan(), pre + tr) == s1);
        lemma_run_escaped(s1, g.ch);
        assert(top_color(s1.stack) == to);
        assert(gs.take(n - 1).push(g) =~= gs.take(n));
    }
}

/// Lemma: rendered glyphs scan back to exactly those glyphs, balanced.
pub proof fn lemma_render_glyphs(gs: Seq<Glyph>)
    requires
        colors_clean(gs),
    ensures
        scan(crate::window::render_glyphs(gs)) == rest_state(gs, None),
{
    let n = gs.len() as int;
    lemma_render_prefix(gs, n);
    assert(gs.take(n) =~= gs);
    let s0 = rest_state(gs, color_before(gs, n));
    lemma_run_concat(initial_scan(), render_prefix(gs, n), close_of(color_before(gs, n)));
    if color_before(gs, n) is Some {
        lemma_run_close(s0);
        assert(s0.stack.drop_last() =~= Seq::<Seq<char>>::empty());
    } else {
        assert(close_of(color_before(gs, n)) =~= Seq::<char>::empty());
        lemma_run_one(s0, ' ');
        assert(run(s0, Seq::<char>::empty()) == s0);
    }
}

/// What every reachable scanner state satisfies: tag content holds no `>`,
/// and every colour on the stack or on a glyph is clean.
pub open spec fn scan_inv(st: ScanState) -> bool {
    &&& (st.mode == ScanMode::Tag ==> no_char(st.buf, '>'))
    &&& forall|i: int| 0 <= i < st.stack.len() ==> is_clean_color(#[trigger] st.stack[i])
    &&& colors_clean(st.glyphs)
}

proof fn lemma_find_char_first(b: Seq<char>, q: char, k: int)
    requires
        0 <= k,
    ensures
        find_char(b, q, k) matches Some(e) ==> k <= e < b.len() && forall|i: int|
            k <= i < e ==> b[i] != q,
    decreases b.len() - k,
{
    if k < b.len() && b[k] != q {
        lemma_find_char_first(b, q, k + 1);
    }
}

proof fn lemma_span_color_clean(b: Seq<char>)
    requires
        no_char(b, '>'),
    ensures
        span_color(b) matches Some(c) ==> is_clean_color(c),
{
    crate::tags::lemma_name_end_range(b, 0);
    match find_color_key(b, name_end(b, 0)) {
        None => {},
        Some(k) => {
            crate::tags::lemma_find_color_key_range(b, name_end(b, 0));
            if k + 6 < b.len() && b[k + 6] == '"' {
                lemma_find_char_first(b, '"', k + 7);
                match find_char(b, '"', k + 7) {
                    Some(e) => {
                        let c = b.subrange(k + 7, e);
                        assert forall|i: int| 0 <= i < c.len() implies c[i] != '"' && c[i] != '>' by {
                            assert(c[i] == b[k + 7 + i]);
                        }
                    },
                    None => {},
                }
            }
        },
    }
}

proof fn lemma_emit_inv(st: ScanState, c: char)
    requires
        scan_inv(st),
    ensures
        scan_inv(emit(st, c)),
{
    let st2 = emit(st, c);
    assert forall|i: int| 0 <= i < st2.glyphs.len() implies (#[trigger] st2.glyphs[i].color matches Some(x) ==> is_clean_color(x)) by {
        if i < st.glyphs.len() {
            assert(st2.glyphs[i] == st.glyphs[i]);
        } else {
            if st.stack.len() > 0 {
                assert(is_clean_color(st.stack[st.stack.len() - 1]));
            }
        }
    }
}

proof fn lemma_emit_all_inv(st: ScanState, t: Seq<char>)
    requires
        scan_inv(st),
    ensures
        scan_inv(emit_all(st, t)),
    decreases t.len(),
{
    if t.len() > 0 {
        lemma_emit_all_inv(st, t.drop_last());
        lemma_emit_inv(emit_all(st, t.drop_last()), t.last());
    }
}

proof fn lemma_step_text_inv(st: ScanState, c: char)
    requires
        scan_inv(st),
    ensures
        scan_inv(step_text(st, c)),
{
    if c != '<' && c != '&' {
        lemma_emit_inv(st, c);
    }
}

proof fn lemma_step_inv(st: ScanState, c: char)
    requires
        scan_inv(st),
    ensures
        scan_inv(step(st, c)),
{
    match st.mode {
        ScanMode::Text => lemma_step_text_inv(st, c),
        ScanMode::Tag => {
            if c == '>' {
                let t = to_text(st);
                lemma_span_color_clean(st.buf);
                match tag_kind(st.buf) {
                    TagKind::OpenSpan => {
                        match span_color(st.buf) {
                            Some(col) => {
                                let s2 = ScanState { stack: t.stack.push(col), ..t };
                                assert forall|i: int| 0 <= i < s2.stack.len() implies is_clean_color(#[trigger] s2.stack[i]) by {
                                    if i < t.stack.len() {
                                        assert(s2.stack[i] == st.stack[i]);
                                    }
                                }
                            },
                            None => {},
                        }
                    },
                    TagKind::CloseSpan => {
                        if t.stack.len() > 0 {
                            let s2 = ScanState { stack: t.stack.drop_last(), ..t };
                            assert forall|i: int| 0 <= i < s2.stack.len() implies is_clean_color(#[trigger] s2.stack[i]) by {
                                assert(s2.stack[i] == st.stack[i]);
                            }
                        }
                    },
                    TagKind::Other => {},
                }
            } else {
                let b2 = st.buf.push(c);
                assert forall|i: int| 0 <= i < b2.len() implies b2[i] != '>' by {
                    if i < st.buf.len() {
                        assert(b2[i] == st.buf[i]);
                    }
                }
            }
        },
        ScanMode::Entity => {
            if c == ';' {
                match crate::markup::entity_value(st.buf) {
                    Some(x) => lemma_emit_inv(to_text(st), x),
                    None => lemma_emit_all_inv(to_text(st), seq!['&'] + st.buf + seq![';']),
                }
            } else if !crate::markup::is_entity_name_char(c) {
                lemma_emit_all_inv(to_text(st), seq!['&'] + st.buf);
                lemma_step_text_inv(flush_entity(st), c);
            }
        },
    }
}

proof fn lemma_run_inv(st: ScanState, s: Seq<char>)
    requires
        scan_inv(st),
    ensures
        scan_inv(run(st, s)),
    decreases s.len(),
{
    if s.len() > 0 {
        lemma_run_inv(st, s.drop_last());
        lemma_step_inv(run(st, s.drop_last()), s.last());
    }
}

/// Lemma: every colour that scanning finds is clean, so it can be written back.
pub proof fn lemma_glyph_colors_clean(s: Seq<char>)
    ensures
        colors_clean(crate::markup::glyphs_of(s)),
{
    let st = run(initial_scan(), s);
    lemma_run_inv(initial_scan(), s);
    match st.mode {
        ScanMode::Entity => lemma_emit_all_inv(to_text(st), seq!['&'] + st.buf),
        _ => {},
    }
}

proof fn lemma_emit_chars(s1: ScanState, c: char)
    ensures
        crate::markup::chars_of(emit(s1, c).glyphs) == crate::markup::chars_of(s1.glyphs).push(c),
        emit(s1, c).mode == s1.mode,
        emit(s1, c).buf == s1.buf,
        emit(s1, c).stack == s1.stack,
        emit(s1, c).warnings == s1.warnings,
{
    let gs = emit(s1, c).glyphs;
    let a = crate::markup::chars_of(gs);
    let b = crate::markup::chars_of(s1.glyphs).push(c);
    assert(gs.len() == s1.glyphs.len() + 1);
    assert forall|i: int| 0 <= i < a.len() implies a[i] == b[i] by {
        if i < s1.glyphs.len() {
            assert(gs[i] == s1.glyphs[i]);
        } else {
            assert(gs[i].ch == c);
        }
    }
    assert(a =~= b);
}

/// Lemma: emitting characters adds glyphs with those characters and nothing else.
pub proof fn lemma_emit_all_shape(st: ScanState, t: Seq<char>)
    ensures
        emit_all(st, t).mode == st.mode,
        emit_all(st, t).buf == st.buf,
        emit_all(st, t).stack == st.stack,
        emit_all(st, t).warnings == st.warnings,
        crate::markup::chars_of(emit_all(st, t).glyphs) == crate::markup::chars_of(st.glyphs) + t,
    decreases t.len(),
{
    if t.len() > 0 {
        lemma_emit_all_shape(st, t.drop_last());
        let s1 = emit_all(st, t.drop_last());
        lemma_emit_chars(s1, t.last());
        assert((crate::markup::chars_of(st.glyphs) + t.drop_last()).push(t.last())
            =~= crate::markup::chars_of(st.glyphs) + t);
    } else {
        assert(crate::markup::chars_of(st.glyphs) + t =~= crate::markup::chars_of(st.glyphs));
    }
}

/// Lemma: escaped text is read as its characters.
pub proof fn lemma_run_escaped_text(st: ScanState, t: Seq<char>)
    requires
        at_rest(st),
    ensures
        run(st, crate::escape::escaped(t)) == emit_all(st, t),
    decreases t.len(),
{
    if t.len() == 0 {
        lemma_run_one(st, ' ');
        assert(crate::escape::escaped(t) =~= Seq::<char>::empty());
        assert(run(st, Seq::<char>::empty()) == st);
    } else {
        lemma_run_escaped_text(st, t.drop_last());
        lemma_run_concat(st, crate::escape::escaped(t.drop_last()), escape_char(t.last()));
        lemma_emit_all_shape(st, t.drop_last());
        lemma_run_escaped(emit_all(st, t.drop_last()), t.last());
    }
}

/// Lemma: text without `<` or `&` is read as its characters.
pub proof fn lemma_run_plain_text(st: ScanState, t: Seq<char>)
    requires
        at_rest(st),
        no_char(t, '<'),
        no_char(t, '&'),
    ensures
        run(st, t) == emit_all(st, t),
    decreases t.len(),
{
    if t.len() > 0 {
        lemma_run_plain_text(st, t.drop_last());
        lemma_emit_all_shape(st, t.drop_last());
        assert(t.last() == t[t.len() - 1]);
    }
}

} // verus!
