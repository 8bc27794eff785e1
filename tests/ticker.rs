use market_ticker::composite::{build_composite, ColorTable, Classification, InstrumentResult};
use market_ticker::escape::escape_markup;
use market_ticker::indexer::index_markup;
use market_ticker::markup::MarkupWarning;
use market_ticker::scroll::{advance_ticker, render_ticker, ScrollState, ScrollStore};
use market_ticker::window::{extract_window, RenderError};

const COMPOSITE: &str = "<span color=\"#00FF00\"><b>AAPL $150.00 (+1.2%)</b></span> | <span color=\"#FF0000\"><b>BTC €50000.00 (-3.5%)</b></span>";
const PLAIN: &str = "AAPL $150.00 (+1.2%) | BTC €50000.00 (-3.5%)";

fn item(text: &str, class: Classification) -> InstrumentResult {
    InstrumentResult { text: text.to_string(), class }
}

fn scenario_items() -> Vec<InstrumentResult> {
    vec![
        item("AAPL $150.00 (+1.2%)", Classification::Up),
        item("BTC €50000.00 (-3.5%)", Classification::Down),
    ]
}

fn scenario_colors() -> ColorTable {
    ColorTable {
        critdown: None,
        down: Some("#FF0000".to_string()),
        up: Some("#00FF00".to_string()),
        wayup: None,
    }
}

fn plain(s: &str) -> String {
    index_markup(s).glyphs.iter().map(|g| g.ch).collect()
}

fn is_balanced(s: &str) -> bool {
    // Balanced: no warnings, and the window ends with no span open, which
    // shows in the markup as equal numbers of opening and closing spans.
    let m = index_markup(s);
    m.warnings.is_empty() && s.matches("<span").count() == s.matches("</span>").count()
}

#[test]
fn escape_replaces_the_five_markup_characters() {
    assert_eq!(escape_markup("a<b>&'\"c"), "a&lt;b&gt;&amp;&apos;&quot;c");
    assert_eq!(escape_markup("BTC €1"), "BTC €1");
    assert_eq!(escape_markup(""), "");
}

#[test]
fn composite_of_the_scenario() {
    let c = build_composite(&scenario_items(), &scenario_colors(), " | ").unwrap();
    assert_eq!(c, COMPOSITE);
    assert_eq!(plain(&c), PLAIN);
    assert_eq!(plain(&c).chars().count(), 44);
}

#[test]
fn composite_escapes_text_but_not_separator() {
    let items = vec![item("A<B", Classification::WayUp), item("C&D", Classification::CritDown)];
    let c = build_composite(&items, &ColorTable { critdown: None, down: None, up: None, wayup: None }, " <b>|</b> ")
        .unwrap();
    assert_eq!(
        c,
        "<span color=\"#00FFFF\"><b>A&lt;B</b></span> <b>|</b> <span color=\"#FF0000\"><b>C&amp;D</b></span>"
    );
    assert_eq!(plain(&c), "A<B | C&D");
}

#[test]
fn composite_of_no_instruments_is_refused() {
    assert_eq!(build_composite(&vec![], &scenario_colors(), " | "), Err(RenderError::EmptyInput));
}

#[test]
fn composite_is_balanced() {
    let c = build_composite(&scenario_items(), &scenario_colors(), " | ").unwrap();
    assert!(index_markup(&c).warnings.is_empty());
    assert!(is_balanced(&c));
}

#[test]
fn default_colors_per_class() {
    let t = ColorTable { critdown: None, down: None, up: None, wayup: None };
    assert_eq!(t.color_for(Classification::CritDown), "#FF0000");
    assert_eq!(t.color_for(Classification::Down), "#FFA500");
    assert_eq!(t.color_for(Classification::Up), "#00FF00");
    assert_eq!(t.color_for(Classification::WayUp), "#00FFFF");
    assert_eq!(scenario_colors().color_for(Classification::Down), "#FF0000");
}

#[test]
fn index_gives_each_visible_character_its_color() {
    let m = index_markup(COMPOSITE);
    assert_eq!(m.glyphs.len(), 44);
    assert_eq!(m.glyphs[0].ch, 'A');
    assert_eq!(m.glyphs[0].color.as_deref(), Some("#00FF00"));
    assert_eq!(m.glyphs[20].ch, ' ');
    assert_eq!(m.glyphs[20].color, None);
    assert_eq!(m.glyphs[27].ch, '€');
    assert_eq!(m.glyphs[27].color.as_deref(), Some("#FF0000"));
}

#[test]
fn index_tag_names_ignore_case() {
    let m = index_markup("<SPAN color=\"#f00\"><B>x</B></Span>y");
    assert!(m.warnings.is_empty());
    assert_eq!(m.glyphs.len(), 2);
    assert_eq!(m.glyphs[0].color.as_deref(), Some("#f00"));
    assert_eq!(m.glyphs[1].color, None);
}

#[test]
fn index_reports_span_without_color() {
    let m = index_markup("<span>a</span>");
    assert_eq!(m.warnings, vec![MarkupWarning::UnparseableColor, MarkupWarning::UnmatchedClose]);
    assert_eq!(m.glyphs.len(), 1);
    assert_eq!(m.glyphs[0].color, None);
}

#[test]
fn index_reports_unterminated_quote_and_bgcolor() {
    let m = index_markup("<span color=\"#f00>a");
    assert_eq!(m.warnings, vec![MarkupWarning::UnparseableColor]);
    assert_eq!(plain("<span color=\"#f00>a"), "a");
    let m = index_markup("<span bgcolor=\"#fff\">b</span>");
    assert_eq!(m.warnings, vec![MarkupWarning::UnparseableColor, MarkupWarning::UnmatchedClose]);
}

#[test]
fn index_reports_unmatched_close_and_unterminated_tag() {
    let m = index_markup("a</span>b<b");
    assert_eq!(m.warnings, vec![MarkupWarning::UnmatchedClose, MarkupWarning::UnterminatedTag]);
    assert_eq!(plain("a</span>b<b"), "ab");
}

#[test]
fn index_decodes_entities() {
    assert_eq!(plain("&amp;&lt;&gt;&apos;&quot;"), "&<>'\"");
    assert_eq!(plain("&foo;x"), "&foo;x");
    assert_eq!(plain("a & b"), "a & b");
    assert_eq!(plain("&amp"), "&amp");
}

#[test]
fn index_nested_spans_use_innermost_color() {
    let m = index_markup("<span color=\"a\">x<span color=\"b\">y</span>z</span>");
    let colors: Vec<Option<String>> = m.glyphs.iter().map(|g| g.color.clone()).collect();
    assert_eq!(colors, vec![Some("a".to_string()), Some("b".to_string()), Some("a".to_string())]);
}

#[test]
fn index_round_trip_keeps_visible_text() {
    let m = index_markup(COMPOSITE);
    let whole = extract_window(COMPOSITE, 0, m.glyphs.len()).unwrap();
    assert_eq!(plain(&whole), plain(COMPOSITE));
    let again = index_markup(&whole);
    for (a, b) in again.glyphs.iter().zip(m.glyphs.iter()) {
        assert_eq!(a.ch, b.ch);
        assert_eq!(a.color, b.color);
    }
}

#[test]
fn window_at_start_of_scenario() {
    let w = extract_window(COMPOSITE, 0, 10).unwrap();
    assert_eq!(w, "<span color=\"#00FF00\"><b>AAPL $150.</b></span>");
}

#[test]
fn window_wraps_past_the_end() {
    let w = extract_window(COMPOSITE, 43, 5).unwrap();
    assert_eq!(w, "<span color=\"#FF0000\"><b>)</b></span><span color=\"#00FF00\"><b>AAPL</b></span>");
    assert_eq!(plain(&w), ")AAPL");
    assert!(is_balanced(&w));
}

#[test]
fn window_across_the_separator() {
    let w = extract_window(COMPOSITE, 18, 6).unwrap();
    assert_eq!(w, "<span color=\"#00FF00\"><b>%)</b></span> | <span color=\"#FF0000\"><b>B</b></span>");
}

#[test]
fn window_text_is_the_cyclic_slice() {
    let chars: Vec<char> = PLAIN.chars().collect();
    let l = chars.len();
    for p in [0usize, 1, 7, 20, 27, 43, 44, 100] {
        for w in [0usize, 1, 5, 44, 50, 97] {
            let out = extract_window(COMPOSITE, p, w).unwrap();
            let expected: String = (0..w).map(|i| chars[(p + i) % l]).collect();
            assert_eq!(plain(&out), expected);
            assert!(is_balanced(&out));
        }
    }
}

#[test]
fn window_of_one_character_repeats_it() {
    let w = extract_window("<span color=\"#fff\"><b>x</b></span>", 0, 3).unwrap();
    assert_eq!(w, "<span color=\"#fff\"><b>xxx</b></span>");
}

#[test]
fn window_of_zero_width_is_empty() {
    assert_eq!(extract_window(COMPOSITE, 5, 0).unwrap(), "");
}

#[test]
fn window_re_escapes_characters() {
    let w = extract_window("a &amp; b", 1, 3).unwrap();
    assert_eq!(w, " &amp; ");
}

#[test]
fn window_of_no_visible_text_is_refused() {
    assert_eq!(extract_window("<b></b>", 0, 3), Err(RenderError::EmptyContent));
    assert_eq!(extract_window("", 0, 3), Err(RenderError::EmptyContent));
}

#[test]
fn store_round_trip() {
    let mut s = ScrollStore::new();
    s.save(7, "abc");
    assert_eq!(s.load("abc", 10), 7);
}

#[test]
fn store_resets_on_changed_fingerprint() {
    let mut s = ScrollStore::new();
    s.save(7, "abc");
    assert_eq!(s.load("abd", 10), 0);
    assert_eq!(ScrollStore::new().load("abc", 10), 0);
}

#[test]
fn store_resets_when_position_out_of_range() {
    let mut s = ScrollStore::new();
    s.save(7, "abc");
    assert_eq!(s.load("abc", 7), 0);
    assert_eq!(s.load("abc", 8), 7);
}

#[test]
fn advance_moves_one_character_per_render() {
    let mut s = ScrollStore::new();
    let a = advance_ticker(COMPOSITE, "fp", &mut s, 4).unwrap();
    assert_eq!(plain(&a), "AAPL");
    let b = advance_ticker(COMPOSITE, "fp", &mut s, 4).unwrap();
    assert_eq!(plain(&b), "APL ");
    let saved = s.saved.as_ref().unwrap();
    assert_eq!(saved.position, 2);
    assert_eq!(saved.fingerprint, "fp");
}

#[test]
fn advance_wraps_to_the_start() {
    let mut s = ScrollStore { saved: Some(ScrollState { position: 43, fingerprint: "fp".to_string() }) };
    let a = advance_ticker(COMPOSITE, "fp", &mut s, 2).unwrap();
    assert_eq!(plain(&a), ")A");
    assert_eq!(s.saved.as_ref().unwrap().position, 0);
}

#[test]
fn advance_restarts_for_new_content() {
    let mut s = ScrollStore { saved: Some(ScrollState { position: 5, fingerprint: "old".to_string() }) };
    let a = advance_ticker(COMPOSITE, "new", &mut s, 3).unwrap();
    assert_eq!(plain(&a), "AAP");
    assert_eq!(s.saved.as_ref().unwrap().position, 1);
    assert_eq!(s.saved.as_ref().unwrap().fingerprint, "new");
}

#[test]
fn advance_on_empty_content_keeps_store() {
    let mut s = ScrollStore { saved: Some(ScrollState { position: 5, fingerprint: "old".to_string() }) };
    assert_eq!(advance_ticker("<b></b>", "x", &mut s, 3), Err(RenderError::EmptyContent));
    assert_eq!(s.saved.as_ref().unwrap().position, 5);
    assert_eq!(s.saved.as_ref().unwrap().fingerprint, "old");
}

#[test]
fn render_ticker_fingerprints_the_composite() {
    let mut s = ScrollStore::new();
    let out = render_ticker(&scenario_items(), &scenario_colors(), " | ", &mut s, 10).unwrap();
    assert_eq!(out, "<span color=\"#00FF00\"><b>AAPL $150.</b></span>");
    let saved = s.saved.as_ref().unwrap();
    assert_eq!(saved.fingerprint, "d1990bee029b31fdf1ac59c9196aa01395643a53ab56ce8932357e007be8d820");
    assert_eq!(saved.position, 1);
    let out = render_ticker(&scenario_items(), &scenario_colors(), " | ", &mut s, 10).unwrap();
    assert_eq!(plain(&out), "APL $150.0");
}

#[test]
fn render_ticker_resets_when_content_changes() {
    let mut s = ScrollStore::new();
    render_ticker(&scenario_items(), &scenario_colors(), " | ", &mut s, 10).unwrap();
    render_ticker(&scenario_items(), &scenario_colors(), " | ", &mut s, 10).unwrap();
    let changed = vec![item("AAPL $151.00 (+1.9%)", Classification::Up)];
    let out = render_ticker(&changed, &scenario_colors(), " | ", &mut s, 4).unwrap();
    assert_eq!(plain(&out), "AAPL");
}

#[test]
fn render_ticker_failures() {
    let mut s = ScrollStore::new();
    assert_eq!(render_ticker(&vec![], &scenario_colors(), " | ", &mut s, 10), Err(RenderError::EmptyInput));
    let blank = vec![item("", Classification::Up)];
    assert_eq!(render_ticker(&blank, &scenario_colors(), "", &mut s, 10), Err(RenderError::EmptyContent));
    assert!(s.saved.is_none());
}
