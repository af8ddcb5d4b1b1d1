//! What holds of every document: laws of the metrics and of rendering, stated
//! over the mathematical model and proved once and for all.

use crate::doc::Doc;
use crate::layout::{chain, lemma_chain_push, wrapped, Ctx, Layout, Page};
use crate::text::{byte_len, lemma_byte_len_ascii, lemma_byte_len_concat, spaces};
use vstd::prelude::*;

verus! {

/// The flat length of a concatenation is the sum of the flat lengths of its
/// parts, it holds a break point if and only if one of its parts does, and its
/// distance to the first break point is that of its left part if the left part
/// holds a break point, else the sum of both distances. This holds of the
/// metrics that a well-formed document records as of those of its layout.
pub proof fn lemma_concat_metrics(a: Doc, b: Doc, c: Doc)
    requires
        a.wf(),
        b.wf(),
        c.wf(),
        c@ == Layout::Concat(Box::new(a@), Box::new(b@)),
    ensures
        c.spec_flat_len() == a.spec_flat_len() + b.spec_flat_len(),
        c.spec_has_newline() == (a.spec_has_newline() || b.spec_has_newline()),
        c.spec_dist_newline() == if a.spec_has_newline() {
            a.spec_dist_newline() as int
        } else {
            a.spec_dist_newline() + b.spec_dist_newline()
        },
{
}

/// Indentation and grouping change how a document is rendered and nothing
/// about its metrics.
pub proof fn lemma_nest_group_metrics(d: Layout, n: nat)
    ensures
        Layout::Nest(n, Box::new(d)).has_newline() == d.has_newline(),
        Layout::Nest(n, Box::new(d)).dist_newline() == d.dist_newline(),
        Layout::Nest(n, Box::new(d)).flat_len() == d.flat_len(),
        Layout::Group(Box::new(d)).has_newline() == d.has_newline(),
        Layout::Group(Box::new(d)).dist_newline() == d.dist_newline(),
        Layout::Group(Box::new(d)).flat_len() == d.flat_len(),
{
}

/// The flat lengths of `items` added up.
pub open spec fn total_flat_len(items: Seq<Layout>) -> nat
    decreases items.len(),
{
    if items.len() == 0 {
        0
    } else {
        total_flat_len(items.drop_last()) + items.last().flat_len()
    }
}

/// Whether no item is indented more deeply inside than `bound`.
pub open spec fn nest_depth_within(items: Seq<Layout>, bound: nat) -> bool {
    forall|i: int| 0 <= i < items.len() ==> (#[trigger] items[i]).nest_depth() <= bound
}

/// A chain has a break point if one of its items has, is as long, rendered
/// flat, as its items together, and is indented no more deeply than they are.
pub proof fn lemma_chain_metrics(items: Seq<Layout>, bound: nat)
    ensures
        chain(items).flat_len() == total_flat_len(items),
        chain(items).has_newline() <==> exists|i: int|
            0 <= i < items.len() && (#[trigger] items[i]).has_newline(),
        nest_depth_within(items, bound) ==> chain(items).nest_depth() <= bound,
    decreases items.len(),
{
    if items.len() >= 2 {
        let front = items.drop_last();
        lemma_chain_metrics(front, bound);
        if chain(front).has_newline() {
            let i = choose|i: int| 0 <= i < front.len() && (#[trigger] front[i]).has_newline();
            assert(items[i].has_newline());
        }
        if exists|i: int| 0 <= i < items.len() && (#[trigger] items[i]).has_newline() {
            let i = choose|i: int| 0 <= i < items.len() && (#[trigger] items[i]).has_newline();
            if i < front.len() {
                assert(front[i].has_newline());
            }
        }
        if nest_depth_within(items, bound) {
            assert forall|i: int| 0 <= i < front.len() implies (#[trigger] front[i]).nest_depth()
                <= bound by {
                assert(items[i].nest_depth() <= bound);
            }
            assert(items.last() == items[items.len() - 1]);
        }
    } else if items.len() == 1 {
        assert(total_flat_len(items.drop_last()) == 0);
        assert(items.last() == items[0]);
        if chain(items).has_newline() {
            assert(items[0].has_newline());
        }
    }
}

/// What stands behind a break point of its own is one byte longer, rendered
/// flat, has a break point, and is indented as deeply as it was.
pub proof fn lemma_on_new_line_metrics(x: Layout)
    ensures
        x.on_new_line().flat_len() == 1 + x.flat_len(),
        x.on_new_line().has_newline(),
        x.on_new_line().dist_newline() == 0,
        x.on_new_line().nest_depth() == x.nest_depth(),
{
    reveal_with_fuel(Layout::flat_len, 3);
    reveal_with_fuel(Layout::has_newline, 3);
    reveal_with_fuel(Layout::dist_newline, 3);
    reveal_with_fuel(Layout::nest_depth, 3);
}

/// A word-wrapped sequence is as long, rendered flat, as its items and one
/// space between each two of them, and is indented no more deeply than its
/// items are.
pub proof fn lemma_word_wrap_metrics(items: Seq<Layout>, bound: nat)
    ensures
        items.len() == 0 ==> chain(wrapped(items)).flat_len() == 0,
        items.len() >= 1 ==> chain(wrapped(items)).flat_len() == total_flat_len(items)
            + items.len() - 1,
        nest_depth_within(items, bound) ==> chain(wrapped(items)).nest_depth() <= bound,
    decreases items.len(),
{
    if items.len() >= 2 {
        let front = items.drop_last();
        let last = items.last();
        lemma_word_wrap_metrics(front, bound);
        lemma_on_new_line_metrics(last);
        assert(wrapped(items) =~= wrapped(front).push(last.on_new_line()));
        lemma_chain_push(wrapped(front), last.on_new_line());
        if nest_depth_within(items, bound) {
            assert forall|i: int| 0 <= i < front.len() implies (#[trigger] front[i]).nest_depth()
                <= bound by {
                assert(items[i].nest_depth() <= bound);
            }
            assert(last == items[items.len() - 1]);
        }
    } else if items.len() == 1 {
        assert(wrapped(items) =~= seq![items[0]]);
        assert(total_flat_len(items.drop_last()) == 0);
        assert(items.last() == items[0]);
    } else {
        assert(wrapped(items) =~= Seq::<Layout>::empty());
    }
}

/// Brackets add their own lengths to the flat length of what they surround,
/// and neither a break point nor indentation.
pub proof fn lemma_surround_metrics(l: Layout, open: Seq<char>, close: Seq<char>)
    ensures
        l.surround(open, close).flat_len() == byte_len(open) + l.flat_len() + byte_len(close),
        l.surround(open, close).has_newline() == l.has_newline(),
        l.surround(open, close).nest_depth() == l.nest_depth(),
{
    reveal_with_fuel(Layout::flat_len, 3);
    reveal_with_fuel(Layout::has_newline, 3);
    reveal_with_fuel(Layout::nest_depth, 3);
}

/// The flat length of a layout is the length of its flat text.
pub proof fn lemma_flat_text_len(l: Layout)
    ensures
        byte_len(l.flat_text()) == l.flat_len(),
    decreases l,
{
    match l {
        Layout::Newline => {
            lemma_byte_len_ascii(seq![' ']);
        },
        Layout::Concat(a, b) => {
            lemma_flat_text_len(*a);
            lemma_flat_text_len(*b);
            lemma_byte_len_concat(a.flat_text(), b.flat_text());
        },
        Layout::Nest(_, d) => lemma_flat_text_len(*d),
        Layout::Group(d) => lemma_flat_text_len(*d),
        _ => {},
    }
}

/// In flat mode a layout renders to its flat text, whatever the page and the
/// width, and starts no new line.
pub proof fn lemma_lay_flat(l: Layout, ctx: Ctx, page: Page)
    requires
        ctx.flat,
    ensures
        l.lay(ctx, page) == (Page { out: page.out + l.flat_text(), eol: page.eol }),
    decreases l,
{
    match l {
        Layout::Nil => {
            assert(page.out + l.flat_text() =~= page.out);
        },
        Layout::Newline => {
            assert(page.out + l.flat_text() =~= page.out.push(' '));
        },
        Layout::NewlineZero => {
            assert(page.out + l.flat_text() =~= page.out);
        },
        Layout::Text(_) => {},
        Layout::Concat(a, b) => {
            lemma_lay_flat(*a, b.before(ctx), page);
            lemma_lay_flat(*b, ctx, a.lay(b.before(ctx), page));
            assert(page.out + a.flat_text() + b.flat_text() =~= page.out + l.flat_text());
        },
        Layout::Nest(n, d) => {
            lemma_lay_flat(*d, Ctx { nest: ctx.nest + n, ..ctx }, page);
        },
        Layout::Group(d) => {
            lemma_lay_flat(*d, ctx, page);
        },
    }
}

/// A layout without break points renders to its flat text in either mode.
pub proof fn lemma_lay_without_breaks(l: Layout, ctx: Ctx, page: Page)
    requires
        !l.has_newline(),
    ensures
        l.lay(ctx, page) == (Page { out: page.out + l.flat_text(), eol: page.eol }),
    decreases l,
{
    match l {
        Layout::Nil => {
            assert(page.out + l.flat_text() =~= page.out);
        },
        Layout::Concat(a, b) => {
            lemma_lay_without_breaks(*a, b.before(ctx), page);
            lemma_lay_without_breaks(*b, ctx, a.lay(b.before(ctx), page));
            assert(page.out + a.flat_text() + b.flat_text() =~= page.out + l.flat_text());
        },
        Layout::Nest(n, d) => {
            lemma_lay_without_breaks(*d, Ctx { nest: ctx.nest + n, ..ctx }, page);
        },
        Layout::Group(d) => {
            lemma_lay_without_breaks(
                *d,
                Ctx { flat: ctx.flat || page.fits(d.flat_len(), ctx), ..ctx },
                page,
            );
        },
        _ => {},
    }
}

/// A document without break points renders to the concatenation of its
/// texts at every width.
pub proof fn lemma_render_without_breaks(l: Layout, width: nat)
    requires
        !l.has_newline(),
    ensures
        l.render(width) == l.flat_text(),
        byte_len(l.render(width)) == l.flat_len(),
{
    lemma_lay_without_breaks(l, Ctx::root(width), Page::blank(width));
    assert(Seq::<char>::empty() + l.flat_text() =~= l.flat_text());
    lemma_flat_text_len(l);
}

/// A group that fits on the current line, together with the text that is
/// certain to follow it, renders to its flat text, and that text and what
/// follows it stay within the line.
pub proof fn lemma_group_that_fits(d: Layout, ctx: Ctx, page: Page)
    requires
        page.fits(d.flat_len(), ctx),
    ensures
        Layout::Group(Box::new(d)).lay(ctx, page) == (Page {
            out: page.out + d.flat_text(),
            eol: page.eol,
        }),
        byte_len(page.out + d.flat_text()) + ctx.dist <= page.eol,
{
    lemma_lay_flat(*Box::new(d), Ctx { flat: true, ..ctx }, page);
    lemma_flat_text_len(d);
    lemma_byte_len_concat(page.out, d.flat_text());
}

/// A group that is reached in broken mode and does not fit renders as its
/// content does in broken mode.
pub proof fn lemma_group_that_does_not_fit(d: Layout, ctx: Ctx, page: Page)
    requires
        !ctx.flat,
        !page.fits(d.flat_len(), ctx),
    ensures
        Layout::Group(Box::new(d)).lay(ctx, page) == d.lay(ctx, page),
{
    assert((Ctx { flat: ctx.flat || page.fits(d.flat_len(), ctx), ..ctx }) == ctx);
}

/// Each join of a word-wrapped sequence is decided on its own. What stands
/// before the join is rendered as if a newline followed it at once, so
/// neither the new item nor what follows the sequence has any part in it. The
/// join then renders flat, as a space and the flat text of the item, if that
/// and what is certain to follow the sequence fit on the line reached;
/// otherwise it starts a new line and the item is rendered there.
pub proof fn lemma_word_wrap_join(items: Seq<Layout>, x: Layout, ctx: Ctx, page: Page)
    requires
        items.len() >= 1,
    ensures
        ({
            let before = chain(wrapped(items)).lay(Ctx { dist: 0, ..ctx }, page);
            let flat = ctx.flat || before.fits(1 + x.flat_len(), ctx);
            chain(wrapped(items.push(x))).lay(ctx, page) == if flat {
                Page { out: before.out.push(' ') + x.flat_text(), eol: before.eol }
            } else {
                x.lay(ctx, before.break_line(ctx))
            }
        }),
{
    let join = x.on_new_line();
    let inner = Layout::Concat(Box::new(Layout::Newline), Box::new(x));
    let before = chain(wrapped(items)).lay(Ctx { dist: 0, ..ctx }, page);
    let flat = ctx.flat || before.fits(1 + x.flat_len(), ctx);
    assert(wrapped(items.push(x)) =~= wrapped(items).push(join));
    lemma_chain_push(wrapped(items), join);
    assert(join.has_newline() && join.dist_newline() == 0 && inner.flat_len() == 1 + x.flat_len())
        by {
        reveal_with_fuel(Layout::has_newline, 3);
        reveal_with_fuel(Layout::dist_newline, 3);
        reveal_with_fuel(Layout::flat_len, 3);
    }
    assert(join.before(ctx) == (Ctx { dist: 0, ..ctx }));
    let decided = Ctx { flat, ..ctx };
    assert(join.lay(ctx, before) == inner.lay(decided, before));
    assert(inner.lay(decided, before) == x.lay(
        decided,
        Layout::Newline.lay(x.before(decided), before),
    ));
    if flat {
        lemma_lay_flat(x, decided, Page { out: before.out.push(' '), eol: before.eol });
    } else {
        assert(decided == ctx);
        assert(before.break_line(x.before(ctx)) == before.break_line(ctx));
    }
}

/// The place in `out` where its last line starts: the byte length of `out` up
/// to and with its last newline, or 0 if it holds none.
pub open spec fn line_start(out: Seq<char>) -> nat
    decreases out.len(),
{
    if out.len() == 0 {
        0
    } else if out.last() == '\n' {
        byte_len(out)
    } else {
        line_start(out.drop_last())
    }
}

/// Whether a text holds no newline.
pub open spec fn single_line(s: Seq<char>) -> bool {
    forall|i: int| 0 <= i < s.len() ==> s[i] != '\n'
}

/// Whether no literal text of the layout holds a newline: what a caller owes
/// for the layout's metrics to measure lines.
pub open spec fn single_line_texts(l: Layout) -> bool
    decreases l,
{
    match l {
        Layout::Text(s) => single_line(s),
        Layout::Concat(a, b) => single_line_texts(*a) && single_line_texts(*b),
        Layout::Nest(_, d) => single_line_texts(*d),
        Layout::Group(d) => single_line_texts(*d),
        _ => true,
    }
}

/// Text without a newline leaves the start of the last line where it was.
pub proof fn lemma_line_start_append(out: Seq<char>, s: Seq<char>)
    requires
        single_line(s),
    ensures
        line_start(out + s) == line_start(out),
    decreases s.len(),
{
    if s.len() == 0 {
        assert(out + s =~= out);
    } else {
        assert((out + s).drop_last() =~= out + s.drop_last());
        assert((out + s).last() == s.last());
        lemma_line_start_append(out, s.drop_last());
    }
}

/// Where no literal text holds a newline, the renderer measures every line
/// from its start: the output length at which a line is full is always the
/// start of the last line of the output plus the target width.
pub proof fn lemma_lay_measures_lines(l: Layout, ctx: Ctx, page: Page)
    requires
        single_line_texts(l),
        page.eol == line_start(page.out) + ctx.width,
    ensures
        l.lay(ctx, page).eol == line_start(l.lay(ctx, page).out) + ctx.width,
    decreases l,
{
    match l {
        Layout::Nil => {},
        Layout::Newline | Layout::NewlineZero => {
            if ctx.flat {
                assert(page.out.push(' ') =~= page.out + seq![' ']);
                lemma_line_start_append(page.out, seq![' ']);
            } else {
                lemma_line_start_append(page.out.push('\n'), spaces(ctx.nest));
            }
        },
        Layout::Text(s) => {
            lemma_line_start_append(page.out, s);
        },
        Layout::Concat(a, b) => {
            lemma_lay_measures_lines(*a, b.before(ctx), page);
            lemma_lay_measures_lines(*b, ctx, a.lay(b.before(ctx), page));
        },
        Layout::Nest(n, d) => {
            lemma_lay_measures_lines(*d, Ctx { nest: ctx.nest + n, ..ctx }, page);
        },
        Layout::Group(d) => {
            lemma_lay_measures_lines(
                *d,
                Ctx { flat: ctx.flat || page.fits(d.flat_len(), ctx), ..ctx },
                page,
            );
        },
    }
}

} // verus!
