use pretty_doc::doc::Doc;
use pretty_doc::parenable::{Parenable, MAX_PRIORITY};

fn text(s: &str) -> Doc {
    Doc::text(s.to_string())
}

#[test]
fn lower_priority_than_the_context_gets_brackets() {
    let p = Parenable::new(text("a+b"), 5);
    assert_eq!(p.maybe_surround(6).render(80), "(a+b)");
    assert_eq!(p.maybe_surround(100).render(0), "(a+b)");
    assert_eq!(p.maybe_surround(6), text("a+b").surround_paren());
}

#[test]
fn priority_of_the_context_or_higher_gets_none() {
    let p = Parenable::new(text("a+b"), 5);
    assert_eq!(p.maybe_surround(5), text("a+b"));
    assert_eq!(p.maybe_surround(4), text("a+b"));
    assert_eq!(p.maybe_surround(0).render(80), "a+b");
}

#[test]
fn threshold_at_every_priority() {
    for priority in [0usize, 1, 7, 1023, 1024, usize::MAX - 1] {
        let p = text("x").as_parenable(priority);
        assert_eq!(p.priority, priority);
        assert_eq!(p.maybe_surround(priority + 1).render(0), "(x)");
        assert_eq!(p.maybe_surround(priority).render(0), "x");
        if priority > 0 {
            assert_eq!(p.maybe_surround(priority - 1).render(0), "x");
        }
    }
}

#[test]
fn max_priority() {
    assert_eq!(MAX_PRIORITY, 1024);
    let p = text("x").as_parenable_max();
    assert_eq!(p.priority, MAX_PRIORITY);
    assert_eq!(p.doc, text("x"));
    assert_eq!(p.maybe_surround(MAX_PRIORITY), text("x"));
    assert_eq!(p.maybe_surround(MAX_PRIORITY + 1).render(0), "(x)");
    let q = Parenable::new_max(text("y"));
    assert_eq!(q.priority, 1024);
    assert_eq!(q.doc.render(0), "y");
}

#[test]
fn parenable_clone_keeps_both_fields() {
    let p = Parenable::new(text("x").concat(Doc::line()), 3);
    let q = p.clone();
    assert_eq!(q.doc, p.doc);
    assert_eq!(q.priority, 3);
}

#[test]
fn brackets_keep_the_layout_inside() {
    let inner = text("a").concat(Doc::line()).concat(text("b")).group();
    let p = inner.as_parenable(1);
    assert_eq!(p.maybe_surround(2).render(5), "(a b)");
    assert_eq!(p.maybe_surround(2).render(4), "(a\nb)");
    assert_eq!(p.maybe_surround(1).render(3), "a b");
}
