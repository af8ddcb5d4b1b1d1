use pretty_doc::doc::{sep, word_wrap_val, Doc};

fn text(s: &str) -> Doc {
    Doc::text(s.to_string())
}

fn pair(a: &str, b: &str) -> Doc {
    text(a).concat(Doc::line()).concat(text(b)).group()
}

#[test]
fn group_that_fits_is_flat() {
    let doc = pair("ab", "cd");
    assert_eq!(doc.render(5), "ab cd");
    assert_eq!(doc.render(6), "ab cd");
    assert_eq!(doc.render(80), "ab cd");
    assert_eq!(doc.render(usize::MAX), "ab cd");
}

#[test]
fn group_that_does_not_fit_is_broken() {
    let doc = pair("ab", "cd");
    assert_eq!(doc.render(4), "ab\ncd");
    assert_eq!(doc.render(3), "ab\ncd");
    assert_eq!(doc.render(1), "ab\ncd");
    assert_eq!(doc.render(0), "ab\ncd");
}

#[test]
fn indent_applies_only_on_break() {
    let doc = pair("a", "b").nest(2);
    assert_eq!(doc.render(3), "a b");
    assert_eq!(doc.render(10), "a b");
    assert_eq!(doc.render(2), "a\n  b");
    assert_eq!(doc.render(0), "a\n  b");
}

#[test]
fn indent_inside_group_applies_on_break() {
    let doc = text("a").concat(Doc::line().concat(text("b")).nest(3)).group();
    assert_eq!(doc.render(3), "a b");
    assert_eq!(doc.render(2), "a\n   b");
}

#[test]
fn nested_indents_add_up() {
    let inner = Doc::line().concat(text("c")).nest(2);
    let doc = text("a").concat(Doc::line().concat(text("b")).concat(inner).nest(1));
    assert_eq!(doc.render(80), "a\n b\n   c");
}

#[test]
fn line_zero_is_nothing_when_flat() {
    let doc = text("[").concat(Doc::newline_zero()).concat(text("]")).group();
    assert_eq!(doc.render(80), "[]");
    assert_eq!(doc.render(2), "[]");
    assert_eq!(doc.render(1), "[\n]");
}

#[test]
fn line_outside_any_group_breaks() {
    let doc = text("a").concat(Doc::line()).concat(text("b"));
    assert_eq!(doc.render(80), "a\nb");
    let zero = text("a").concat(Doc::newline_zero()).concat(text("b"));
    assert_eq!(zero.render(80), "a\nb");
}

#[test]
fn newline_and_line_are_the_same() {
    assert_eq!(Doc::newline(), Doc::line());
    assert_ne!(Doc::newline(), Doc::newline_zero());
}

#[test]
fn nil_renders_to_nothing() {
    assert_eq!(Doc::nil().render(0), "");
    assert_eq!(Doc::nil().render(80), "");
    assert_eq!(text("a").concat(Doc::nil()).concat(text("b")).render(0), "ab");
}

#[test]
fn documents_without_breaks_ignore_the_width() {
    let doc = text("let").concat(text(" x").group()).concat(text(" = 1").nest(4)).group();
    for width in [0usize, 1, 3, 7, 8, 9, 100] {
        assert_eq!(doc.render(width), "let x = 1");
    }
    assert_eq!(doc.get_flat_len(), "let x = 1".len());
}

#[test]
fn width_zero_breaks_every_group() {
    let doc = pair("a", "b").concat(pair("c", "d"));
    assert_eq!(doc.render(0), "a\nbc\nd");
}

#[test]
fn text_after_a_group_counts_towards_the_fit() {
    let doc = pair("a", "b").concat(text("ccc"));
    assert_eq!(doc.render(6), "a bccc");
    assert_eq!(doc.render(5), "a\nbccc");
}

#[test]
fn text_after_the_next_break_does_not_count() {
    let doc = pair("a", "b").concat(Doc::line()).concat(text("cccccc"));
    assert_eq!(doc.render(3), "a b\ncccccc");
    assert_eq!(doc.render(2), "a\nb\ncccccc");
}

#[test]
fn inner_group_of_a_flat_group_is_flat() {
    let inner = text("b").concat(Doc::line()).concat(text("c")).group();
    let doc = text("a").concat(Doc::line()).concat(inner).group();
    assert_eq!(doc.render(5), "a b c");
}

#[test]
fn inner_group_of_a_broken_group_decides_again() {
    let inner = text("b").concat(Doc::line()).concat(text("c")).group();
    let doc = text("a").concat(Doc::line()).concat(inner).group();
    assert_eq!(doc.render(4), "a\nb c");
    assert_eq!(doc.render(3), "a\nb c");
    assert_eq!(doc.render(2), "a\nb\nc");
}

#[test]
fn indentation_counts_towards_the_width() {
    let doc = text("a").concat(Doc::line()).concat(pair("bb", "cc")).nest(4);
    assert_eq!(doc.render(9), "a\n    bb cc");
    assert_eq!(doc.render(8), "a\n    bb\n    cc");
}

#[test]
fn width_is_counted_in_bytes() {
    let doc = pair("\u{e9}\u{e9}", "b");
    assert_eq!(doc.get_flat_len(), 6);
    assert_eq!(doc.render(6), "\u{e9}\u{e9} b");
    assert_eq!(doc.render(5), "\u{e9}\u{e9}\nb");
}

#[test]
fn largest_width_after_a_break() {
    let doc = text("a").concat(Doc::line()).concat(pair("b", "c"));
    assert_eq!(doc.render(usize::MAX), "a\nb c");
}

#[test]
fn word_wrap_breaks_only_where_needed() {
    let words = vec![text("x"), text("y"), text("z")];
    let doc = word_wrap_val(words.into_iter());
    assert_eq!(doc.render(3), "x y\nz");
    assert_eq!(doc.render(4), "x y\nz");
    assert_eq!(doc.render(5), "x y z");
    assert_eq!(doc.render(2), "x\ny\nz");
    assert_eq!(doc.render(0), "x\ny\nz");
}

#[test]
fn word_wrap_fills_each_line() {
    let words: Vec<Doc> = ["aa", "bb", "cc", "dd", "ee"].iter().map(|w| text(w)).collect();
    let doc = word_wrap_val(words.into_iter());
    assert_eq!(doc.render(5), "aa bb\ncc dd\nee");
    assert_eq!(doc.render(8), "aa bb cc\ndd ee");
    assert_eq!(doc.render(14), "aa bb cc dd ee");
}

#[test]
fn word_wrap_structure() {
    let words = vec![text("x"), text("y"), text("z")];
    let expected = text("x")
        .concat(Doc::line().concat(text("y")).group())
        .concat(Doc::line().concat(text("z")).group());
    assert_eq!(word_wrap_val(words.into_iter()), expected);
}

#[test]
fn word_wrap_of_nothing_and_of_one() {
    let none: Vec<Doc> = Vec::new();
    assert_eq!(word_wrap_val(none.into_iter()), Doc::nil());
    assert_eq!(word_wrap_val(vec![text("x")].into_iter()), text("x"));
}

#[test]
fn sep_nests_to_the_left() {
    let docs = [text("a"), text("b"), text("c"), text("d")];
    let expected = text("a").concat(text("b")).concat(text("c")).concat(text("d"));
    assert_eq!(sep(&docs), expected);
    assert_eq!(sep(&docs).render(0), "abcd");
}

#[test]
fn sep_of_nothing_and_of_one() {
    assert_eq!(sep(&[]), Doc::nil());
    assert_eq!(sep(&[text("a")]), text("a"));
}

#[test]
fn concat_newline_and_concat_space() {
    let broken = text("a").concat_newline(text("b"));
    assert_eq!(broken, text("a").concat(Doc::line()).concat(text("b")));
    assert_eq!(broken.render(80), "a\nb");
    assert_eq!(broken.group().render(80), "a b");
    let spaced = text("a").concat_space(text("b"));
    assert_eq!(spaced, text("a").concat(text(" ")).concat(text("b")));
    assert_eq!(spaced.render(0), "a b");
}

#[test]
fn surrounding_brackets() {
    assert_eq!(text("x").surround_paren().render(0), "(x)");
    assert_eq!(text("x").surround_curly().render(0), "{x}");
    assert_eq!(text("x").surround_square().render(0), "[x]");
    assert_eq!(text("x").surround("<<", ">>").render(0), "<<x>>");
    assert_eq!(text("x").surround_paren(), text("(").concat(text("x")).concat(text(")")));
    assert_eq!(text("x").surround_paren().get_flat_len(), 3);
}
