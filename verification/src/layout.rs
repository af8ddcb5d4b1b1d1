//! The mathematical model of a document: a tree of layout nodes, the three
//! metrics that every node carries, and the rendering function.

use crate::text::{byte_len, spaces};
use vstd::prelude::*;

verus! {

/// A document as a mathematical tree. This is what a [`crate::doc::Doc`] denotes.
pub enum Layout {
    /// Renders to nothing.
    Nil,
    /// A break point: a space when flat, a newline plus indentation when broken.
    Newline,
    /// A break point that vanishes when flat.
    NewlineZero,
    /// Literal text.
    Text(Seq<char>),
    /// The first layout followed by the second.
    Concat(Box<Layout>, Box<Layout>),
    /// The inner layout with the indentation raised by the given amount.
    Nest(nat, Box<Layout>),
    /// The unit of the flat-or-broken decision.
    Group(Box<Layout>),
}

/// The context in which a node is rendered.
pub struct Ctx {
    /// Whether break points render flat.
    pub flat: bool,
    /// The indentation that a broken line starts with.
    pub nest: nat,
    /// How much text follows this node before the next newline that is certain.
    pub dist: nat,
    /// The target line width.
    pub width: nat,
}

/// The state of the output while rendering.
pub struct Page {
    /// What has been emitted so far.
    pub out: Seq<char>,
    /// The output length at which the current line reaches the target width.
    pub eol: nat,
}

impl Ctx {
    /// The context in which the root of a document is rendered.
    pub open spec fn root(width: nat) -> Ctx {
        Ctx { flat: false, nest: 0, dist: 0, width }
    }
}

impl Page {
    /// The empty page on which rendering starts.
    pub open spec fn blank(width: nat) -> Page {
        Page { out: Seq::empty(), eol: width }
    }

    /// The page after a newline and `ctx.nest` spaces of indentation. The width
    /// budget of the new line is counted from just behind the newline.
    pub open spec fn break_line(self, ctx: Ctx) -> Page {
        Page {
            out: self.out.push('\n') + spaces(ctx.nest),
            eol: byte_len(self.out.push('\n')) + ctx.width,
        }
    }

    /// Whether `len` more bytes, and the `ctx.dist` bytes that are certain to
    /// follow them, still fit on the current line.
    pub open spec fn fits(self, len: nat, ctx: Ctx) -> bool {
        byte_len(self.out) + len + ctx.dist <= self.eol
    }
}

impl Layout {
    /// Whether the layout holds a break point.
    pub open spec fn has_newline(self) -> bool
        decreases self,
    {
        match self {
            Layout::Nil => false,
            Layout::Newline => true,
            Layout::NewlineZero => true,
            Layout::Text(_) => false,
            Layout::Concat(l, r) => l.has_newline() || r.has_newline(),
            Layout::Nest(_, d) => d.has_newline(),
            Layout::Group(d) => d.has_newline(),
        }
    }

    /// The length of the text from the start of the layout up to its first break
    /// point, or of all its text if it has none.
    pub open spec fn dist_newline(self) -> nat
        decreases self,
    {
        match self {
            Layout::Nil => 0,
            Layout::Newline => 0,
            Layout::NewlineZero => 0,
            Layout::Text(s) => byte_len(s),
            Layout::Concat(l, r) => if l.has_newline() {
                l.dist_newline()
            } else {
                l.dist_newline() + r.dist_newline()
            },
            Layout::Nest(_, d) => d.dist_newline(),
            Layout::Group(d) => d.dist_newline(),
        }
    }

    /// The length of the layout when every break point in it is rendered flat.
    pub open spec fn flat_len(self) -> nat
        decreases self,
    {
        match self {
            Layout::Nil => 0,
            Layout::Newline => 1,
            Layout::NewlineZero => 0,
            Layout::Text(s) => byte_len(s),
            Layout::Concat(l, r) => l.flat_len() + r.flat_len(),
            Layout::Nest(_, d) => d.flat_len(),
            Layout::Group(d) => d.flat_len(),
        }
    }

    /// The text of the layout when every break point in it is rendered flat.
    pub open spec fn flat_text(self) -> Seq<char>
        decreases self,
    {
        match self {
            Layout::Nil => Seq::empty(),
            Layout::Newline => seq![' '],
            Layout::NewlineZero => Seq::empty(),
            Layout::Text(s) => s,
            Layout::Concat(l, r) => l.flat_text() + r.flat_text(),
            Layout::Nest(_, d) => d.flat_text(),
            Layout::Group(d) => d.flat_text(),
        }
    }

    /// The deepest indentation that any node of the layout is rendered with,
    /// relative to the indentation of the layout itself.
    pub open spec fn nest_depth(self) -> nat
        decreases self,
    {
        match self {
            Layout::Concat(l, r) => if l.nest_depth() >= r.nest_depth() {
                l.nest_depth()
            } else {
                r.nest_depth()
            },
            Layout::Nest(n, d) => n + d.nest_depth(),
            Layout::Group(d) => d.nest_depth(),
            _ => 0,
        }
    }

    /// The number of nodes of the layout.
    pub open spec fn size(self) -> nat
        decreases self,
    {
        match self {
            Layout::Concat(l, r) => 1 + l.size() + r.size(),
            Layout::Nest(_, d) => 1 + d.size(),
            Layout::Group(d) => 1 + d.size(),
            _ => 1,
        }
    }

    /// The context in which the left part of `Concat(_, self)` is rendered, when
    /// the concatenation itself is rendered in `ctx`: what follows the left part
    /// is this layout up to its first break point and, if it has none, what
    /// follows the concatenation.
    pub open spec fn before(self, ctx: Ctx) -> Ctx {
        Ctx {
            dist: if self.has_newline() {
                self.dist_newline()
            } else {
                self.dist_newline() + ctx.dist
            },
            ..ctx
        }
    }

    /// The layout between the literal texts `open` and `close`.
    pub open spec fn surround(self, open: Seq<char>, close: Seq<char>) -> Layout {
        Layout::Concat(
            Box::new(Layout::Concat(Box::new(Layout::Text(open)), Box::new(self))),
            Box::new(Layout::Text(close)),
        )
    }

    /// The layout behind a break point of its own: the two form a group, so
    /// the break point is decided on its own.
    pub open spec fn on_new_line(self) -> Layout {
        Layout::Group(Box::new(Layout::Concat(Box::new(Layout::Newline), Box::new(self))))
    }

    /// The page after rendering the layout in context `ctx` onto `page`.
    pub open spec fn lay(self, ctx: Ctx, page: Page) -> Page
        decreases self,
    {
        match self {
            Layout::Nil => page,
            Layout::Newline => if ctx.flat {
                Page { out: page.out.push(' '), ..page }
            } else {
                page.break_line(ctx)
            },
            Layout::NewlineZero => if ctx.flat {
                page
            } else {
                page.break_line(ctx)
            },
            Layout::Text(s) => Page { out: page.out + s, ..page },
            Layout::Concat(l, r) => r.lay(ctx, l.lay(r.before(ctx), page)),
            Layout::Nest(n, d) => d.lay(Ctx { nest: ctx.nest + n, ..ctx }, page),
            Layout::Group(d) => d.lay(
                Ctx { flat: ctx.flat || page.fits(d.flat_len(), ctx), ..ctx },
                page,
            ),
        }
    }

    /// The text that the layout renders to at the given line width.
    pub open spec fn render(self, width: nat) -> Seq<char> {
        self.lay(Ctx::root(width), Page::blank(width)).out
    }
}

/// The layouts of `items` concatenated from left to right, nested to the left:
/// `Nil` for no item, the item itself for one.
pub open spec fn chain(items: Seq<Layout>) -> Layout
    decreases items.len(),
{
    if items.len() == 0 {
        Layout::Nil
    } else if items.len() == 1 {
        items[0]
    } else {
        Layout::Concat(Box::new(chain(items.drop_last())), Box::new(items.last()))
    }
}

/// The items as word wrapping joins them: each one but the first stands behind
/// a break point of its own.
pub open spec fn wrapped(items: Seq<Layout>) -> Seq<Layout> {
    Seq::new(
        items.len(),
        |i: int|
            if i == 0 {
                items[i]
            } else {
                items[i].on_new_line()
            },
    )
}

/// The page after rendering a work list of pending nodes, last one first.
pub open spec fn lay_pending(jobs: Seq<(Layout, Ctx)>, page: Page) -> Page
    decreases jobs.len(),
{
    if jobs.len() == 0 {
        page
    } else {
        lay_pending(jobs.drop_last(), jobs.last().0.lay(jobs.last().1, page))
    }
}

/// The number of nodes that a work list still holds.
pub open spec fn pending_size(jobs: Seq<(Layout, Ctx)>) -> nat
    decreases jobs.len(),
{
    if jobs.len() == 0 {
        0
    } else {
        pending_size(jobs.drop_last()) + jobs.last().0.size()
    }
}

/// Up to its first break point a layout holds no more text than it holds in all.
pub proof fn lemma_dist_newline_le_flat_len(l: Layout)
    ensures
        l.dist_newline() <= l.flat_len(),
    decreases l,
{
    match l {
        Layout::Concat(a, b) => {
            lemma_dist_newline_le_flat_len(*a);
            lemma_dist_newline_le_flat_len(*b);
        },
        Layout::Nest(_, d) => lemma_dist_newline_le_flat_len(*d),
        Layout::Group(d) => lemma_dist_newline_le_flat_len(*d),
        _ => {},
    }
}

/// A chain is as long, rendered flat, as its items together: one more item
/// adds the flat length of that item.
pub proof fn lemma_chain_push(items: Seq<Layout>, item: Layout)
    ensures
        chain(items.push(item)) == if items.len() == 0 {
            item
        } else {
            Layout::Concat(Box::new(chain(items)), Box::new(item))
        },
        chain(items.push(item)).flat_len() == chain(items).flat_len() + item.flat_len(),
{
    assert(items.push(item).drop_last() =~= items);
}

/// The chain of a prefix is no longer, rendered flat, than the chain of the whole.
pub proof fn lemma_chain_prefix(items: Seq<Layout>, n: int)
    requires
        0 <= n <= items.len(),
    ensures
        chain(items.take(n)).flat_len() <= chain(items).flat_len(),
    decreases items.len() - n,
{
    if n == items.len() {
        assert(items.take(n) =~= items);
    } else {
        assert(items.take(n + 1) =~= items.take(n).push(items[n]));
        lemma_chain_push(items.take(n), items[n]);
        lemma_chain_prefix(items, n + 1);
    }
}

/// Pushing a job on a work list renders it before everything below it.
pub proof fn lemma_lay_pending_push(jobs: Seq<(Layout, Ctx)>, job: (Layout, Ctx), page: Page)
    ensures
        lay_pending(jobs.push(job), page) == lay_pending(jobs, job.0.lay(job.1, page)),
        pending_size(jobs.push(job)) == pending_size(jobs) + job.0.size(),
{
    assert(jobs.push(job).drop_last() =~= jobs);
}

} // verus!
