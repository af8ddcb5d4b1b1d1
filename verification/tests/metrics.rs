use pretty_doc::doc::{Doc, InnerDoc, RenderInfo};
use std::sync::Arc;

fn text(s: &str) -> Doc {
    Doc::text(s.to_string())
}

#[test]
fn metrics_of_the_leaves() {
    assert_eq!(Doc::nil().get_flat_len(), 0);
    assert_eq!(Doc::nil().get_dist_newline(), 0);
    assert!(!Doc::nil().get_has_newline());
    assert_eq!(Doc::line().get_flat_len(), 1);
    assert_eq!(Doc::line().get_dist_newline(), 0);
    assert!(Doc::line().get_has_newline());
    assert_eq!(Doc::newline_zero().get_flat_len(), 0);
    assert_eq!(Doc::newline_zero().get_dist_newline(), 0);
    assert!(Doc::newline_zero().get_has_newline());
    assert_eq!(text("abc").get_flat_len(), 3);
    assert_eq!(text("abc").get_dist_newline(), 3);
    assert!(!text("abc").get_has_newline());
}

#[test]
fn text_length_is_in_bytes() {
    assert_eq!(text("").get_flat_len(), 0);
    assert_eq!(text("\u{e9}").get_flat_len(), 2);
    assert_eq!(text("\u{20ac}").get_flat_len(), 3);
    assert_eq!(text("\u{1f600}x").get_dist_newline(), 5);
}

#[test]
fn flat_len_of_concat_is_the_sum() {
    let a = text("abc").concat(Doc::line());
    let b = text("de").concat(Doc::newline_zero()).concat(text("f"));
    assert_eq!(a.get_flat_len(), 4);
    assert_eq!(b.get_flat_len(), 3);
    assert_eq!(a.concat(b.clone()).get_flat_len(), 7);
    assert_eq!(b.concat(a).get_flat_len(), 7);
}

#[test]
fn has_newline_of_concat_is_the_disjunction() {
    let plain = text("a");
    let broken = Doc::line();
    assert!(!plain.concat(plain.clone()).get_has_newline());
    assert!(plain.concat(broken.clone()).get_has_newline());
    assert!(broken.concat(plain.clone()).get_has_newline());
    assert!(broken.concat(broken.clone()).get_has_newline());
}

#[test]
fn dist_newline_of_concat_stops_at_the_first_break() {
    let left = text("ab").concat(Doc::line()).concat(text("cdef"));
    assert_eq!(left.get_dist_newline(), 2);
    assert_eq!(left.concat(text("ghi")).get_dist_newline(), 2);
    assert_eq!(text("xy").concat(left.clone()).get_dist_newline(), 4);
    assert_eq!(text("xy").concat(text("z")).get_dist_newline(), 3);
    assert_eq!(Doc::line().concat(text("z")).get_dist_newline(), 0);
}

#[test]
fn nest_and_group_keep_the_metrics() {
    let inner = text("ab").concat(Doc::line()).concat(text("cdef"));
    for doc in [inner.nest(7), inner.group(), inner.group().nest(1).group()] {
        assert_eq!(doc.get_flat_len(), inner.get_flat_len());
        assert_eq!(doc.get_dist_newline(), inner.get_dist_newline());
        assert_eq!(doc.get_has_newline(), inner.get_has_newline());
    }
    assert_eq!(inner.get_flat_len(), 7);
}

#[test]
fn nodes_record_what_they_were_built_from() {
    let a = text("ab");
    let b = Doc::line();
    match a.concat(b.clone()).as_ref() {
        InnerDoc::Concat { lhs, rhs, has_newline, dist_newline, flat_len } => {
            assert_eq!(*lhs, a);
            assert_eq!(*rhs, b);
            assert!(*has_newline);
            assert_eq!(*dist_newline, 2);
            assert_eq!(*flat_len, 3);
        },
        _ => panic!("not a concatenation"),
    }
    match a.nest(4).as_ref() {
        InnerDoc::Nest { nest, doc, has_newline, dist_newline, flat_len } => {
            assert_eq!(*nest, 4);
            assert_eq!(*doc, a);
            assert!(!*has_newline);
            assert_eq!(*dist_newline, 2);
            assert_eq!(*flat_len, 2);
        },
        _ => panic!("not a nest"),
    }
    match b.group().as_ref() {
        InnerDoc::Group { doc, has_newline, dist_newline, flat_len } => {
            assert_eq!(*doc, b);
            assert!(*has_newline);
            assert_eq!(*dist_newline, 0);
            assert_eq!(*flat_len, 1);
        },
        _ => panic!("not a group"),
    }
    match a.as_ref() {
        InnerDoc::Text { s, len } => {
            assert_eq!(s, "ab");
            assert_eq!(*len, 2);
        },
        _ => panic!("not a text"),
    }
}

#[test]
fn clone_shares_the_node() {
    let a = text("ab");
    assert_eq!(Arc::strong_count(&a.0), 1);
    let b = a.clone();
    assert_eq!(a, b);
    assert!(Arc::ptr_eq(&a.0, &b.0));
    assert_eq!(Arc::strong_count(&a.0), 2);
}

#[test]
fn combinators_share_their_parts() {
    let a = text("ab");
    let twice = a.concat(a.clone());
    match twice.as_ref() {
        InnerDoc::Concat { lhs, rhs, .. } => {
            assert!(Arc::ptr_eq(&lhs.0, &a.0));
            assert!(Arc::ptr_eq(&rhs.0, &a.0));
        },
        _ => panic!("not a concatenation"),
    }
    assert_eq!(twice.render(0), "abab");
}

#[test]
fn documents_from_nodes() {
    assert_eq!(Doc::from(InnerDoc::Newline), Doc::line());
    assert_eq!(Doc::from(InnerDoc::Nil), Doc::nil());
    let node = InnerDoc::Text { s: "ab".to_string(), len: 2 };
    assert_eq!(Doc::from(&node), text("ab"));
    assert_eq!(Doc::from(node.clone()), text("ab"));
    let built = text("a").concat(Doc::line());
    assert_eq!(Doc::from(built.as_ref()), built);
}

#[test]
fn documents_from_displayed_values() {
    assert_eq!(Doc::from("ab"), text("ab"));
    assert_eq!(Doc::from(String::from("ab")), text("ab"));
    assert_eq!(Doc::from(42u32), text("42"));
    assert_eq!(Doc::from(-7i64).render(0), "-7");
    assert_eq!(Doc::from('c').get_flat_len(), 1);
    assert_eq!(Doc::from(true).render(80), "true");
}

#[test]
fn render_info_keeps_its_fields() {
    let info = RenderInfo::new(true, 2, 3, 80);
    let copy = info;
    assert_eq!(
        format!("{:?}", copy),
        "RenderInfo { flatmode: true, nest: 2, dist_next_newline: 3, line_width: 80 }"
    );
    assert_eq!(format!("{:?}", info), format!("{:?}", info.clone()));
}
