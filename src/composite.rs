//! Building the composite marked-up ticker text from the instruments' readouts.

use vstd::prelude::*;
use crate::escape::{escape_markup, escaped};
use crate::markup::{chars_of, emit_all, initial_scan, is_balanced, lemma_run_concat, plain_text, run, ScanState};
use crate::reparse::{
    at_rest, is_clean_color, lemma_emit_all_shape, lemma_run_close, lemma_run_escaped_text,
    lemma_run_open, lemma_run_plain_text, no_char,
};
use crate::window::{close_span_markup, open_span_markup, push_close, push_open, RenderError};

verus! {

/// How a price change is classed, from steep fall to steep rise.
#[derive(Clone, Copy, Debug, PartialEq, Eq, Structural)]
pub enum Classification {
    CritDown,
    Down,
    Up,
    WayUp,
}

/// The readout of one instrument: its display text and its class.
#[derive(Debug)]
pub struct InstrumentResult {
    pub text: String,
    pub class: Classification,
}

/// A colour per class; a class without one takes its default.
#[derive(Debug)]
pub struct ColorTable {
    pub critdown: Option<String>,
    pub down: Option<String>,
    pub up: Option<String>,
    pub wayup: Option<String>,
}

pub open spec fn default_color(c: Classification) -> Seq<char> {
    match c {
        Classification::CritDown => seq!['#', 'F', 'F', '0', '0', '0', '0'],
        Classification::Down => seq!['#', 'F', 'F', 'A', '5', '0', '0'],
        Classification::Up => seq!['#', '0', '0', 'F', 'F', '0', '0'],
        Classification::WayUp => seq!['#', '0', '0', 'F', 'F', 'F', 'F'],
    }
}

pub open spec fn color_or_default(o: Option<String>, c: Classification) -> Seq<char> {
    match o {
        Some(s) => s@,
        None => default_color(c),
    }
}

/// The colour that a table gives a class.
pub open spec fn resolved_color(t: ColorTable, c: Classification) -> Seq<char> {
    match c {
        Classification::CritDown => color_or_default(t.critdown, c),
        Classification::Down => color_or_default(t.down, c),
        Classification::Up => color_or_default(t.up, c),
        Classification::WayUp => color_or_default(t.wayup, c),
    }
}

/// One instrument's text, escaped, in a bold span of its colour.
pub open spec fn fragment(text: Seq<char>, color: Seq<char>) -> Seq<char> {
    open_span_markup(color) + escaped(text) + close_span_markup()
}

/// The fragments of the instruments joined by the separator.
pub open spec fn composite(items: Seq<InstrumentResult>, t: ColorTable, sep: Seq<char>) -> Seq<char>
    decreases items.len(),
{
    if items.len() == 0 {
        seq![]
    } else {
        let last = fragment(items.last().text@, resolved_color(t, items.last().class));
        if items.len() == 1 {
            last
        } else {
            composite(items.drop_last(), t, sep) + sep + last
        }
    }
}

/// The instruments' texts joined by the separator.
pub open spec fn joined_texts(items: Seq<InstrumentResult>, sep: Seq<char>) -> Seq<char>
    decreases items.len(),
{
    if items.len() == 0 {
        seq![]
    } else if items.len() == 1 {
        items.last().text@
    } else {
        joined_texts(items.drop_last(), sep) + sep + items.last().text@
    }
}

fn default_color_exec(c: Classification) -> (r: String)
    ensures
        r@ == default_color(c),
{
    match c {
        Classification::CritDown => {
            proof { reveal_strlit("#FF0000"); }
            String::from_str("#FF0000")
        },
        Classification::Down => {
            proof { reveal_strlit("#FFA500"); }
            String::from_str("#FFA500")
        },
        Classification::Up => {
            proof { reveal_strlit("#00FF00"); }
            String::from_str("#00FF00")
        },
        Classification::WayUp => {
            proof { reveal_strlit("#00FFFF"); }
            String::from_str("#00FFFF")
        },
    }
}

fn pick(o: &Option<String>, c: Classification) -> (r: String)
    ensures
        r@ == color_or_default(*o, c),
{
    match o {
        Some(s) => s.clone(),
        None => default_color_exec(c),
    }
}

impl ColorTable {
    /// The colour for a class: the table's own, or the class's default.
    pub fn color_for(&self, c: Classification) -> (r: String)
        ensures
            r@ == resolved_color(*self, c),
    {
        match c {
            Classification::CritDown => pick(&self.critdown, c),
            Classification::Down => pick(&self.down, c),
            Classification::Up => pick(&self.up, c),
            Classification::WayUp => pick(&self.wayup, c),
        }
    }
}

/// Joins the instruments' fragments with the separator, which is written as
/// it stands. Fails where there is no instrument.
pub fn build_composite(items: &Vec<InstrumentResult>, table: &ColorTable, sep: &str) -> (r: Result<
    String,
    RenderError,
>)
    ensures
        match r {
            Ok(s) => items@.len() > 0 && s@ == composite(items@, *table, sep@),
            Err(e) => items@.len() == 0 && e == RenderError::EmptyInput,
        },
{
    if items.len() == 0 {
        return Err(RenderError::EmptyInput);
    }
    let mut out = String::new();
    let mut i: usize = 0;
    while i < items.len()
        invariant
            0 <= i <= items@.len(),
            out@ == composite(items@.take(i as int), *table, sep@),
        decreases items@.len() - i,
    {
        proof {
            assert(items@.take(i + 1).drop_last() =~= items@.take(i as int));
            assert(items@.take(i as int) =~= Seq::<InstrumentResult>::empty() ==> i == 0);
        }
        if i > 0 {
            out.append(sep);
        }
        let item = &items[i];
        let color = table.color_for(item.class);
        push_open(&mut out, &color);
        let esc = escape_markup(item.text.as_str());
        out.append(esc.as_str());
        push_close(&mut out);
        proof {
            if i == 0 {
                assert(out@ =~= fragment(item.text@, color@));
            } else {
                assert(out@ =~= composite(items@.take(i as int), *table, sep@) + sep@ + fragment(item.text@, color@));
            }
        }
        i = i + 1;
    }
    assert(items@.take(items@.len() as int) =~= items@);
    Ok(out)
}

/// Plain text mode, no colour open, nothing amiss.
spec fn quiet(st: ScanState) -> bool {
    &&& at_rest(st)
    &&& st.stack.len() == 0
    &&& st.warnings.len() == 0
}

proof fn lemma_run_fragment(st: ScanState, text: Seq<char>, color: Seq<char>)
    requires
        quiet(st),
        is_clean_color(color),
    ensures
        quiet(run(st, fragment(text, color))),
        chars_of(run(st, fragment(text, color)).glyphs) == chars_of(st.glyphs) + text,
{
    let open = open_span_markup(color);
    let esc = escaped(text);
    lemma_run_concat(st, open + esc, close_span_markup());
    lemma_run_concat(st, open, esc);
    lemma_run_open(st, color);
    let st1 = ScanState { stack: st.stack.push(color), ..st };
    lemma_run_escaped_text(st1, text);
    lemma_emit_all_shape(st1, text);
    let st2 = emit_all(st1, text);
    lemma_run_close(st2);
    assert(st1.stack.drop_last() =~= st.stack);
}

proof fn lemma_run_composite(items: Seq<InstrumentResult>, t: ColorTable, sep: Seq<char>)
    requires
        items.len() > 0,
        no_char(sep, '<'),
        no_char(sep, '&'),
        forall|c: Classification| is_clean_color(#[trigger] resolved_color(t, c)),
    ensures
        quiet(run(initial_scan(), composite(items, t, sep))),
        chars_of(run(initial_scan(), composite(items, t, sep)).glyphs) == joined_texts(items, sep),
    decreases items.len(),
{
    let last = items.last();
    let color = resolved_color(t, last.class);
    if items.len() == 1 {
        assert(chars_of(initial_scan().glyphs) =~= Seq::<char>::empty());
        assert(initial_scan().buf =~= Seq::<char>::empty());
        lemma_run_fragment(initial_scan(), last.text@, color);
        assert(Seq::<char>::empty() + last.text@ =~= last.text@);
    } else {
        let prev = composite(items.drop_last(), t, sep);
        lemma_run_composite(items.drop_last(), t, sep);
        let s0 = run(initial_scan(), prev);
        lemma_run_concat(initial_scan(), prev + sep, fragment(last.text@, color));
        lemma_run_concat(initial_scan(), prev, sep);
        lemma_run_plain_text(s0, sep);
        lemma_emit_all_shape(s0, sep);
        lemma_run_fragment(emit_all(s0, sep), last.text@, color);
    }
}

/// Law: the composite text of one or more instruments is balanced markup and
/// shows exactly their texts joined by the separator, when the separator holds
/// no markup (`<`, `&`) and every colour of the table can be quoted.
pub proof fn law_composite_balanced(items: Seq<InstrumentResult>, t: ColorTable, sep: Seq<char>)
    requires
        items.len() > 0,
        no_char(sep, '<'),
        no_char(sep, '&'),
        forall|c: Classification| is_clean_color(#[trigger] resolved_color(t, c)),
    ensures
        is_balanced(composite(items, t, sep)),
        plain_text(composite(items, t, sep)) == joined_texts(items, sep),
{
    lemma_run_composite(items, t, sep);
}

} // verus!
