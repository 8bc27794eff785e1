//! Extraction of a fixed-width, cyclically wrapped window of a marked-up text,
//! re-rendered with balanced colour markup.

use vstd::prelude::*;
use vstd::arithmetic::div_mod::{lemma_add_mod_noop, lemma_mod_self_0, lemma_small_mod, lemma_mod_pos_bound};
use crate::escape::{escape_char, push_escaped};
use crate::indexer::{clone_color, color_view, glyphs_view, index_markup, StyledChar};
use crate::markup::{glyphs_of, is_balanced, plain_text, Glyph};
use crate::reparse::{colors_clean, lemma_glyph_colors_clean, lemma_render_glyphs};

verus! {

/// Why nothing could be rendered.
#[derive(Clone, Copy, Debug, PartialEq, Eq, Structural)]
pub enum RenderError {
    /// There are no instruments to render.
    EmptyInput,
    /// The text has no visible character.
    EmptyContent,
}

pub open spec fn open_span_markup(c: Seq<char>) -> Seq<char> {
    seq!['<', 's', 'p', 'a', 'n', ' ', 'c', 'o', 'l', 'o', 'r', '=', '"'] + c + seq![
        '"',
        '>',
        '<',
        'b',
        '>',
    ]
}

pub open spec fn close_span_markup() -> Seq<char> {
    seq!['<', '/', 'b', '>', '<', '/', 's', 'p', 'a', 'n', '>']
}

/// The markup that closes a span of colour `c`, if any.
pub open spec fn close_of(c: Option<Seq<char>>) -> Seq<char> {
    if c is Some {
        close_span_markup()
    } else {
        seq![]
    }
}

/// The markup that opens a span of colour `c`, if any.
pub open spec fn open_of(c: Option<Seq<char>>) -> Seq<char> {
    match c {
        Some(x) => open_span_markup(x),
        None => seq![],
    }
}

/// The markup between a character of colour `from` and one of colour `to`.
pub open spec fn transition(from: Option<Seq<char>>, to: Option<Seq<char>>) -> Seq<char> {
    if from == to {
        seq![]
    } else {
        close_of(from) + open_of(to)
    }
}

/// The colour in effect before glyph `i` is written.
pub open spec fn color_before(gs: Seq<Glyph>, i: int) -> Option<Seq<char>> {
    if i <= 0 {
        None
    } else {
        gs[i - 1].color
    }
}

/// The markup for the first `n` glyphs, the last span left open.
pub open spec fn render_prefix(gs: Seq<Glyph>, n: int) -> Seq<char>
    decreases n,
{
    if n <= 0 {
        seq![]
    } else {
        render_prefix(gs, n - 1) + transition(color_before(gs, n - 1), gs[n - 1].color)
            + escape_char(gs[n - 1].ch)
    }
}

/// The markup for a sequence of glyphs: a span opens only where the colour changes.
pub open spec fn render_glyphs(gs: Seq<Glyph>) -> Seq<char> {
    render_prefix(gs, gs.len() as int) + close_of(color_before(gs, gs.len() as int))
}

/// The `w` glyphs from position `p` on, wrapping round at the end.
pub open spec fn window_glyphs(gs: Seq<Glyph>, p: int, w: int) -> Seq<Glyph> {
    Seq::new(w as nat, |i: int| gs[(p + i) % (gs.len() as int)])
}

fn same_color(a: &Option<String>, b: &Option<String>) -> (r: bool)
    ensures
        r == (color_view(*a) == color_view(*b)),
{
    match (a, b) {
        (Some(x), Some(y)) => x.eq(y),
        (None, None) => true,
        _ => false,
    }
}

pub(crate) fn push_close(out: &mut String)
    ensures
        final(out)@ == old(out)@ + close_span_markup(),
{
    out.append("</b></span>");
    proof {
        reveal_strlit("</b></span>");
        assert("</b></span>"@ =~= close_span_markup());
    }
}

pub(crate) fn push_open(out: &mut String, c: &String)
    ensures
        final(out)@ == old(out)@ + open_span_markup(c@),
{
    out.append("<span color=\"");
    out.append(c.as_str());
    out.append("\"><b>");
    proof {
        reveal_strlit("<span color=\"");
        reveal_strlit("\"><b>");
        assert(final(out)@ =~= old(out)@ + open_span_markup(c@));
    }
}

proof fn lemma_mod_next(a: int, m: int)
    requires
        0 <= a,
        0 < m,
    ensures
        0 <= a % m < m,
        (a + 1) % m == if a % m + 1 == m { 0 } else { a % m + 1 },
{
    lemma_mod_pos_bound(a, m);
    if m == 1 {
        lemma_mod_self_0(1);
        lemma_add_mod_noop(a, 1, 1);
        lemma_small_mod(0, 1);
    } else {
        lemma_small_mod(1, m as nat);
        lemma_add_mod_noop(a, 1, m);
        if a % m + 1 == m {
            lemma_mod_self_0(m);
        } else {
            lemma_small_mod((a % m + 1) as nat, m as nat);
        }
    }
}

/// Renders `w` glyphs of `gs` from position `p` on, wrapping round at the end.
pub fn render_window(gs: &Vec<StyledChar>, p: usize, w: usize) -> (r: String)
    requires
        gs@.len() > 0,
    ensures
        r@ == render_glyphs(window_glyphs(glyphs_view(gs@), p as int, w as int)),
{
    let ghost all = glyphs_view(gs@);
    let ghost wg = window_glyphs(all, p as int, w as int);
    let n = gs.len();
    let mut idx = p % n;
    let mut last: Option<String> = None;
    let mut out = String::new();
    let mut i: usize = 0;
    proof {
        lemma_mod_pos_bound(p as int, n as int);
    }
    while i < w
        invariant
            n == gs@.len() > 0,
            all == glyphs_view(gs@),
            wg == window_glyphs(all, p as int, w as int),
            i <= w,
            idx < n,
            idx as int == (p as int + i as int) % (n as int),
            color_view(last) == color_before(wg, i as int),
            out@ == render_prefix(wg, i as int),
        decreases w - i,
    {
        let g = &gs[idx];
        assert(wg[i as int] == all[idx as int]);
        assert(all[idx as int] == g@);
        if !same_color(&last, &g.color) {
            if last.is_some() {
                push_close(&mut out);
            }
            match &g.color {
                Some(c) => push_open(&mut out, c),
                None => {},
            }
            last = clone_color(&g.color);
        }
        push_escaped(&mut out, g.ch);
        proof {
            lemma_mod_next(p as int + i as int, n as int);
        }
        idx = idx + 1;
        if idx == n {
            idx = 0;
        }
        i = i + 1;
    }
    if last.is_some() {
        push_close(&mut out);
    }
    out
}

/// Indexes a marked-up text and renders `w` of its visible characters from
/// position `p` on, wrapping round at the end, each in the colour it has there.
pub fn extract_window(full: &str, p: usize, w: usize) -> (r: Result<String, RenderError>)
    ensures
        match r {
            Ok(out) => glyphs_of(full@).len() > 0 && out@ == render_glyphs(
                window_glyphs(glyphs_of(full@), p as int, w as int),
            ),
            Err(e) => glyphs_of(full@).len() == 0 && e == RenderError::EmptyContent,
        },
{
    let map = index_markup(full);
    if map.glyphs.len() == 0 {
        return Err(RenderError::EmptyContent);
    }
    Ok(render_window(&map.glyphs, p, w))
}

proof fn lemma_window_clean(gs: Seq<Glyph>, p: int, w: int)
    requires
        colors_clean(gs),
        gs.len() > 0,
        p >= 0,
        w >= 0,
    ensures
        colors_clean(window_glyphs(gs, p, w)),
{
    let wg = window_glyphs(gs, p, w);
    assert forall|i: int| 0 <= i < wg.len() implies (#[trigger] wg[i].color matches Some(c)
        ==> crate::reparse::is_clean_color(c)) by {
        lemma_mod_pos_bound(p + i, gs.len() as int);
        assert(wg[i] == gs[(p + i) % (gs.len() as int)]);
    }
}

/// Law: a window scans back to `w` visible characters, the one at `i` being
/// the visible character at `(p + i) mod L` of the full text, in its colour.
pub proof fn law_window_text(full: Seq<char>, p: nat, w: nat)
    requires
        glyphs_of(full).len() > 0,
    ensures
        ({
            let out = render_glyphs(window_glyphs(glyphs_of(full), p as int, w as int));
            let l = plain_text(full).len() as int;
            &&& plain_text(out).len() == w
            &&& forall|i: int| 0 <= i < w ==> #[trigger] plain_text(out)[i] == plain_text(full)[(p + i) % l]
            &&& glyphs_of(out) == window_glyphs(glyphs_of(full), p as int, w as int)
        }),
{
    let gs = glyphs_of(full);
    lemma_glyph_colors_clean(full);
    lemma_window_clean(gs, p as int, w as int);
    let wg = window_glyphs(gs, p as int, w as int);
    lemma_render_glyphs(wg);
    let l = gs.len() as int;
    assert forall|i: int| 0 <= i < w implies #[trigger] plain_text(render_glyphs(wg))[i] == plain_text(full)[(p + i) % l] by {
        lemma_mod_pos_bound(p + i, l);
    }
}

/// Law: a window is balanced markup wherever it starts and however wide it is,
/// also where it wraps round past the end.
pub proof fn law_window_balanced(full: Seq<char>, p: nat, w: nat)
    requires
        glyphs_of(full).len() > 0,
    ensures
        is_balanced(render_glyphs(window_glyphs(glyphs_of(full), p as int, w as int))),
{
    let gs = glyphs_of(full);
    lemma_glyph_colors_clean(full);
    lemma_window_clean(gs, p as int, w as int);
    lemma_render_glyphs(window_glyphs(gs, p as int, w as int));
}

/// Law: writing the indexed characters back as markup keeps the visible text,
/// and the colours, of the text it was read from.
pub proof fn law_index_keeps_text(full: Seq<char>)
    ensures
        plain_text(render_glyphs(glyphs_of(full))) == plain_text(full),
        glyphs_of(render_glyphs(glyphs_of(full))) == glyphs_of(full),
{
    lemma_glyph_colors_clean(full);
    lemma_render_glyphs(glyphs_of(full));
}

} // verus!
