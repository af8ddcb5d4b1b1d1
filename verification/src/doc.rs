//! Documents: immutable, shared trees of layout nodes. Every node records
//! three metrics of its subtree when it is built, so that rendering is a
//! single pass that never measures a subtree again.

use crate::layout::{
    chain, lay_pending, lemma_chain_prefix, lemma_chain_push, lemma_dist_newline_le_flat_len,
    lemma_lay_pending_push, pending_size, wrapped, Ctx, Layout, Page,
};
use crate::parenable::Parenable;
use crate::text::{byte_len, lemma_byte_len_ascii, spaces, str_byte_len};
use std::fmt::Display;
use std::sync::Arc;
use vstd::prelude::*;
use vstd::std_specs::iter::IteratorSpec;
use vstd::string::*;

verus! {

/// What the renderer knows about a pending node: the mode it is rendered in,
/// the indentation of a line broken inside it, the length of the text that is
/// certain to follow it on its line, and the target line width.
#[derive(Debug, Clone, Copy)]
pub struct RenderInfo {
    flatmode: bool,
    nest: usize,
    dist_next_newline: usize,
    line_width: usize,
}

impl View for RenderInfo {
    type V = Ctx;

    closed spec fn view(&self) -> Ctx {
        Ctx {
            flat: self.flatmode,
            nest: self.nest as nat,
            dist: self.dist_next_newline as nat,
            width: self.line_width as nat,
        }
    }
}

impl RenderInfo {
    /// The context with the given mode, indentation, distance to the next
    /// certain newline, and line width.
    pub fn new(flatmode: bool, nest: usize, dist_next_newline: usize, line_width: usize) -> (info:
        Self)
        ensures
            info@ == (Ctx {
                flat: flatmode,
                nest: nest as nat,
                dist: dist_next_newline as nat,
                width: line_width as nat,
            }),
    {
        RenderInfo { flatmode, nest, dist_next_newline, line_width }
    }
}

/// A document: a shared handle to an immutable node. Cloning a document copies
/// the handle, never the tree.
#[derive(Debug, PartialEq, Eq)]
pub struct Doc(pub Arc<InnerDoc>);

/// The node kinds. `Newline` and `NewlineZero` differ only in flat mode, where
/// the first is a space and the second is nothing. The three composite kinds
/// record the metrics of their subtree.
#[derive(Debug, PartialEq, Eq)]
pub enum InnerDoc {
    Nil,
    Newline,
    NewlineZero,
    Text { s: String, len: usize },
    Concat { lhs: Doc, rhs: Doc, has_newline: bool, dist_newline: usize, flat_len: usize },
    Nest { nest: usize, doc: Doc, has_newline: bool, dist_newline: usize, flat_len: usize },
    Group { doc: Doc, has_newline: bool, dist_newline: usize, flat_len: usize },
}

impl View for Doc {
    type V = Layout;

    /// The layout that the document denotes: its tree without the recorded metrics.
    open spec fn view(&self) -> Layout
        decreases self,
    {
        match *self.0 {
            InnerDoc::Nil => Layout::Nil,
            InnerDoc::Newline => Layout::Newline,
            InnerDoc::NewlineZero => Layout::NewlineZero,
            InnerDoc::Text { s, .. } => Layout::Text(s@),
            InnerDoc::Concat { lhs, rhs, .. } => Layout::Concat(Box::new(lhs@), Box::new(rhs@)),
            InnerDoc::Nest { nest, doc, .. } => Layout::Nest(nest as nat, Box::new(doc@)),
            InnerDoc::Group { doc, .. } => Layout::Group(Box::new(doc@)),
        }
    }
}

impl Doc {
    /// The break flag that the root node records.
    pub open spec fn spec_has_newline(&self) -> bool {
        match *self.0 {
            InnerDoc::Nil => false,
            InnerDoc::Newline => true,
            InnerDoc::NewlineZero => true,
            InnerDoc::Text { .. } => false,
            InnerDoc::Concat { has_newline, .. } => has_newline,
            InnerDoc::Nest { has_newline, .. } => has_newline,
            InnerDoc::Group { has_newline, .. } => has_newline,
        }
    }

    /// The distance to the first break point that the root node records.
    pub open spec fn spec_dist_newline(&self) -> usize {
        match *self.0 {
            InnerDoc::Concat { dist_newline, .. } => dist_newline,
            InnerDoc::Nest { dist_newline, .. } => dist_newline,
            InnerDoc::Group { dist_newline, .. } => dist_newline,
            InnerDoc::Text { len, .. } => len,
            _ => 0,
        }
    }

    /// The flat length that the root node records.
    pub open spec fn spec_flat_len(&self) -> usize {
        match *self.0 {
            InnerDoc::Concat { flat_len, .. } => flat_len,
            InnerDoc::Nest { flat_len, .. } => flat_len,
            InnerDoc::Group { flat_len, .. } => flat_len,
            InnerDoc::Text { len, .. } => len,
            InnerDoc::Newline => 1,
            _ => 0,
        }
    }

    /// Whether the metrics that the root node records are those of its layout.
    pub open spec fn metrics_agree(self) -> bool {
        &&& self.spec_has_newline() == self@.has_newline()
        &&& self.spec_dist_newline() == self@.dist_newline()
        &&& self.spec_flat_len() == self@.flat_len()
    }

    /// Well-formedness: every node of the document records the metrics of its
    /// own layout. Documents built by the combinators of this module are
    /// well formed.
    pub open spec fn wf(self) -> bool
        decreases self,
    {
        &&& self.metrics_agree()
        &&& match *self.0 {
            InnerDoc::Concat { lhs, rhs, .. } => lhs.wf() && rhs.wf(),
            InnerDoc::Nest { doc, .. } => doc.wf(),
            InnerDoc::Group { doc, .. } => doc.wf(),
            _ => true,
        }
    }

    /// Whether the document holds a break point.
    #[verifier::when_used_as_spec(spec_has_newline)]
    pub fn get_has_newline(&self) -> (b: bool)
        ensures
            b == self.spec_has_newline(),
            self.wf() ==> b == self@.has_newline(),
    {
        match self.as_ref() {
            InnerDoc::Nil => false,
            InnerDoc::Newline | InnerDoc::NewlineZero => true,
            InnerDoc::Concat { has_newline, .. } => *has_newline,
            InnerDoc::Nest { has_newline, .. } => *has_newline,
            InnerDoc::Group { has_newline, .. } => *has_newline,
            InnerDoc::Text { .. } => false,
        }
    }

    /// The length of the text up to the first break point of the document.
    #[verifier::when_used_as_spec(spec_dist_newline)]
    pub fn get_dist_newline(&self) -> (n: usize)
        ensures
            n == self.spec_dist_newline(),
            self.wf() ==> n == self@.dist_newline(),
    {
        match self.as_ref() {
            InnerDoc::Concat { dist_newline, .. } => *dist_newline,
            InnerDoc::Nest { dist_newline, .. } => *dist_newline,
            InnerDoc::Group { dist_newline, .. } => *dist_newline,
            InnerDoc::Text { len, .. } => *len,
            _ => 0,
        }
    }

    /// The length of the document when all of it is rendered flat.
    #[verifier::when_used_as_spec(spec_flat_len)]
    pub fn get_flat_len(&self) -> (n: usize)
        ensures
            n == self.spec_flat_len(),
            self.wf() ==> n == self@.flat_len(),
    {
        match self.as_ref() {
            InnerDoc::Concat { flat_len, .. } => *flat_len,
            InnerDoc::Nest { flat_len, .. } => *flat_len,
            InnerDoc::Group { flat_len, .. } => *flat_len,
            InnerDoc::Text { len, .. } => *len,
            InnerDoc::Newline => 1,
            _ => 0,
        }
    }

    /// The empty document.
    pub fn nil() -> (doc: Self)
        ensures
            *doc.0 == InnerDoc::Nil,
            doc@ == Layout::Nil,
            doc.wf(),
    {
        Doc::from(InnerDoc::Nil)
    }

    /// The document that holds the text `s`. Its length is that of `s` in bytes.
    ///
    /// The text is emitted as it is. The renderer counts lines by the break
    /// points it turns into newlines, so a newline inside `s` goes unnoticed
    /// by it: with such a text the fit of a group is judged against the wrong
    /// line start. Keep newlines out of `s` and use `line` for them.
    pub fn text(s: String) -> (doc: Self)
        ensures
            *doc.0 == (InnerDoc::Text { s, len: byte_len(s@) as usize }),
            doc@ == Layout::Text(s@),
            doc.wf(),
    {
        let len = str_byte_len(s.as_str());
        Doc::from(InnerDoc::Text { s, len })
    }

    /// The document with its indentation raised by `n`: a line broken inside it
    /// starts with `n` more spaces than one broken outside it.
    pub fn nest(&self, n: usize) -> (doc: Self)
        ensures
            *doc.0 matches InnerDoc::Nest { nest, doc: inner, .. } && nest == n && inner == *self,
            doc@ == Layout::Nest(n as nat, Box::new(self@)),
            doc.spec_has_newline() == self.spec_has_newline(),
            doc.spec_dist_newline() == self.spec_dist_newline(),
            doc.spec_flat_len() == self.spec_flat_len(),
            self.wf() ==> doc.wf(),
    {
        Doc::from(
            InnerDoc::Nest {
                nest: n,
                doc: self.clone(),
                has_newline: self.get_has_newline(),
                dist_newline: self.get_dist_newline(),
                flat_len: self.get_flat_len(),
            },
        )
    }

    /// This document followed by `other`.
    pub fn concat(&self, other: Doc) -> (doc: Self)
        requires
            self.wf(),
            other.wf(),
            self@.flat_len() + other@.flat_len() <= usize::MAX,
        ensures
            *doc.0 matches InnerDoc::Concat { lhs, rhs, .. } && lhs == *self && rhs == other,
            doc@ == Layout::Concat(Box::new(self@), Box::new(other@)),
            doc.wf(),
            doc.spec_has_newline() == (self.spec_has_newline() || other.spec_has_newline()),
            doc.spec_dist_newline() == if self.spec_has_newline() {
                self.spec_dist_newline() as int
            } else {
                self.spec_dist_newline() + other.spec_dist_newline()
            },
            doc.spec_flat_len() == self.spec_flat_len() + other.spec_flat_len(),
    {
        proof {
            lemma_dist_newline_le_flat_len(self@);
            lemma_dist_newline_le_flat_len(other@);
        }
        Doc::from(
            InnerDoc::Concat {
                lhs: self.clone(),
                rhs: other.clone(),
                has_newline: self.get_has_newline() || other.get_has_newline(),
                dist_newline: if self.get_has_newline() {
                    self.get_dist_newline()
                } else {
                    self.get_dist_newline() + other.get_dist_newline()
                },
                flat_len: self.get_flat_len() + other.get_flat_len(),
            },
        )
    }

    /// The document as a unit of the flat-or-broken decision: if all of it, and
    /// what is certain to follow it, fits on the current line, all of it is
    /// rendered flat.
    pub fn group(&self) -> (doc: Self)
        ensures
            *doc.0 matches InnerDoc::Group { doc: inner, .. } && inner == *self,
            doc@ == Layout::Group(Box::new(self@)),
            doc.spec_has_newline() == self.spec_has_newline(),
            doc.spec_dist_newline() == self.spec_dist_newline(),
            doc.spec_flat_len() == self.spec_flat_len(),
            self.wf() ==> doc.wf(),
    {
        Doc::from(
            InnerDoc::Group {
                doc: self.clone(),
                has_newline: self.get_has_newline(),
                dist_newline: self.get_dist_newline(),
                flat_len: self.get_flat_len(),
            },
        )
    }

    /// A break point.
    pub fn line() -> (doc: Self)
        ensures
            *doc.0 == InnerDoc::Newline,
            doc@ == Layout::Newline,
            doc.wf(),
    {
        Doc::from(InnerDoc::Newline)
    }

    /// A break point.
    pub fn newline() -> (doc: Self)
        ensures
            *doc.0 == InnerDoc::Newline,
            doc@ == Layout::Newline,
            doc.wf(),
    {
        Doc::from(InnerDoc::Newline)
    }

    /// A break point that renders to nothing in flat mode.
    pub fn newline_zero() -> (doc: Self)
        ensures
            *doc.0 == InnerDoc::NewlineZero,
            doc@ == Layout::NewlineZero,
            doc.wf(),
    {
        Doc::from(InnerDoc::NewlineZero)
    }

    /// This document, a break point, and `other`.
    pub fn concat_newline(self, other: Doc) -> (doc: Doc)
        requires
            self.wf(),
            other.wf(),
            self@.flat_len() + 1 + other@.flat_len() <= usize::MAX,
        ensures
            doc@ == Layout::Concat(
                Box::new(Layout::Concat(Box::new(self@), Box::new(Layout::Newline))),
                Box::new(other@),
            ),
            doc.wf(),
    {
        self.concat(Doc::newline()).concat(other)
    }

    /// This document, a single space, and `other`.
    pub fn concat_space(self, other: Doc) -> (doc: Doc)
        requires
            self.wf(),
            other.wf(),
            self@.flat_len() + 1 + other@.flat_len() <= usize::MAX,
        ensures
            doc@ == Layout::Concat(
                Box::new(Layout::Concat(Box::new(self@), Box::new(Layout::Text(seq![' '])))),
                Box::new(other@),
            ),
            doc.wf(),
    {
        proof {
            reveal_strlit(" ");
            assert(" "@ =~= seq![' ']);
            lemma_byte_len_ascii(seq![' ']);
        }
        self.concat(Doc::text(" ".to_owned())).concat(other)
    }

    /// This document between the literal texts `open` and `close`.
    pub fn surround(self, open: &str, close: &str) -> (doc: Doc)
        requires
            self.wf(),
            byte_len(open@) + self@.flat_len() + byte_len(close@) <= usize::MAX,
        ensures
            doc@ == self@.surround(open@, close@),
            doc.wf(),
    {
        Doc::text(open.to_owned()).concat(self).concat(Doc::text(close.to_owned()))
    }

    /// This document in round brackets.
    pub fn surround_paren(self) -> (doc: Doc)
        requires
            self.wf(),
            self@.flat_len() + 2 <= usize::MAX,
        ensures
            doc@ == self@.surround(seq!['('], seq![')']),
            doc.wf(),
    {
        proof {
            reveal_strlit("(");
            reveal_strlit(")");
            assert("("@ =~= seq!['(']);
            assert(")"@ =~= seq![')']);
            lemma_byte_len_ascii(seq!['(']);
            lemma_byte_len_ascii(seq![')']);
        }
        self.surround("(", ")")
    }

    /// This document in curly brackets.
    pub fn surround_curly(self) -> (doc: Doc)
        requires
            self.wf(),
            self@.flat_len() + 2 <= usize::MAX,
        ensures
            doc@ == self@.surround(seq!['{'], seq!['}']),
            doc.wf(),
    {
        proof {
            reveal_strlit("{");
            reveal_strlit("}");
            assert("{"@ =~= seq!['{']);
            assert("}"@ =~= seq!['}']);
            lemma_byte_len_ascii(seq!['{']);
            lemma_byte_len_ascii(seq!['}']);
        }
        self.surround("{", "}")
    }

    /// This document in square brackets.
    pub fn surround_square(self) -> (doc: Doc)
        requires
            self.wf(),
            self@.flat_len() + 2 <= usize::MAX,
        ensures
            doc@ == self@.surround(seq!['['], seq![']']),
            doc.wf(),
    {
        proof {
            reveal_strlit("[");
            reveal_strlit("]");
            assert("["@ =~= seq!['[']);
            assert("]"@ =~= seq![']']);
            lemma_byte_len_ascii(seq!['[']);
            lemma_byte_len_ascii(seq![']']);
        }
        self.surround("[", "]")
    }

    /// Whether the renderer may hold `doc` with `info` on its work list as the
    /// job `job`, when rendering at `width`: the job is what the pair denotes,
    /// the document is well formed, and neither the indentation inside it nor
    /// the length of the text up to the next certain newline leaves `usize`.
    pub open spec fn pending(doc: &Doc, info: RenderInfo, job: (Layout, Ctx), width: usize) -> bool {
        &&& job == (doc@, info@)
        &&& doc.wf()
        &&& info@.width == width
        &&& info@.nest + doc@.nest_depth() <= usize::MAX
        &&& doc@.flat_len() + info@.dist <= usize::MAX
    }

    /// Renders the document at the given line width. A group is laid out flat
    /// if it, and the text that follows it up to the next certain newline, fits
    /// on what is left of the current line; otherwise its break points become
    /// newlines, each followed by the indentation of its place.
    ///
    /// The work list replaces recursion, so the depth of a document is no
    /// limit. All lengths are compared as mathematical integers: no width is
    /// too large.
    pub fn render(&self, line_width: usize) -> (out: String)
        requires
            self.wf(),
            self@.nest_depth() <= usize::MAX,
        ensures
            out@ == self@.render(line_width as nat),
    {
        let mut work: Vec<(&Doc, RenderInfo)> = Vec::with_capacity(256);
        work.push((self, RenderInfo::new(false, 0, 0, line_width)));

        // The current line reaches the target width at `line_start + line_width`.
        let mut line_start: usize = 0;
        let mut acc = String::new();

        let ghost goal = self@.lay(Ctx::root(line_width as nat), Page::blank(line_width as nat));
        let ghost mut jobs: Seq<(Layout, Ctx)> = seq![(self@, Ctx::root(line_width as nat))];
        proof {
            lemma_lay_pending_push(
                Seq::empty(),
                (self@, Ctx::root(line_width as nat)),
                Page::blank(line_width as nat),
            );
            assert(jobs =~= Seq::<(Layout, Ctx)>::empty().push(
                (self@, Ctx::root(line_width as nat)),
            ));
        }

        while work.len() > 0
            invariant
                jobs.len() == work.len(),
                forall|i: int|
                    0 <= i < work.len() ==> Doc::pending(
                        (#[trigger] work[i]).0,
                        work[i].1,
                        jobs[i],
                        line_width,
                    ),
                lay_pending(jobs, Page { out: acc@, eol: (line_start + line_width) as nat })
                    == goal,
            decreases pending_size(jobs),
        {
            let ghost page = Page { out: acc@, eol: (line_start + line_width) as nat };
            let (doc, info) = work.pop().unwrap();
            proof {
                jobs = jobs.drop_last();
            }
            match doc.as_ref() {
                InnerDoc::Nil => {},
                InnerDoc::Newline if info.flatmode => {
                    proof {
                        reveal_strlit(" ");
                        assert(acc@ + " "@ =~= acc@.push(' '));
                    }
                    acc.append(" ");
                },
                InnerDoc::NewlineZero if info.flatmode => {},
                InnerDoc::Newline | InnerDoc::NewlineZero => {
                    let ghost base = acc@;
                    proof {
                        reveal_strlit("\n");
                        assert(acc@ + "\n"@ =~= acc@.push('\n'));
                    }
                    acc.append("\n");
                    line_start = str_byte_len(acc.as_str());
                    for i in 0..info.nest
                        invariant
                            acc@ == base.push('\n') + spaces(i as nat),
                    {
                        proof {
                            reveal_strlit(" ");
                            assert(base.push('\n') + spaces(i as nat) + " "@ =~= base.push('\n')
                                + spaces((i + 1) as nat));
                        }
                        acc.append(" ");
                    }
                },
                InnerDoc::Text { s, .. } => {
                    acc.append(s.as_str());
                },
                InnerDoc::Concat { lhs, rhs, .. } => {
                    proof {
                        lemma_dist_newline_le_flat_len(rhs@);
                    }
                    let lhs_dist_next_newline = if rhs.get_has_newline() {
                        rhs.get_dist_newline()
                    } else {
                        rhs.get_dist_newline() + info.dist_next_newline
                    };
                    let lhs_info = RenderInfo::new(
                        info.flatmode,
                        info.nest,
                        lhs_dist_next_newline,
                        info.line_width,
                    );
                    proof {
                        lemma_lay_pending_push(jobs, (rhs@, info@), lhs@.lay(lhs_info@, page));
                        lemma_lay_pending_push(jobs.push((rhs@, info@)), (lhs@, lhs_info@), page);
                        jobs = jobs.push((rhs@, info@)).push((lhs@, lhs_info@));
                    }
                    work.push((rhs, info));
                    work.push((lhs, lhs_info));
                },
                InnerDoc::Nest { nest: amount, doc: inner, .. } => {
                    let inner_info = RenderInfo::new(
                        info.flatmode,
                        info.nest + *amount,
                        info.dist_next_newline,
                        info.line_width,
                    );
                    proof {
                        lemma_lay_pending_push(jobs, (inner@, inner_info@), page);
                        jobs = jobs.push((inner@, inner_info@));
                    }
                    work.push((inner, inner_info));
                },
                InnerDoc::Group { doc: inner, .. } => {
                    let flat_bool = info.flatmode || fits_on_line(
                        str_byte_len(acc.as_str()),
                        inner.get_flat_len(),
                        info.dist_next_newline,
                        line_start,
                        info.line_width,
                    );
                    let inner_info = RenderInfo::new(
                        flat_bool,
                        info.nest,
                        info.dist_next_newline,
                        info.line_width,
                    );
                    proof {
                        lemma_lay_pending_push(jobs, (inner@, inner_info@), page);
                        jobs = jobs.push((inner@, inner_info@));
                    }
                    work.push((inner, inner_info));
                },
            }
        }
        acc
    }

    /// This document with the highest priority: no context puts it in brackets.
    pub fn as_parenable_max(self) -> (p: Parenable)
        ensures
            p.doc == self,
            p.priority == crate::parenable::MAX_PRIORITY,
    {
        Parenable::new_max(self)
    }

    /// This document with the given priority.
    pub fn as_parenable(self, priority: usize) -> (p: Parenable)
        ensures
            p.doc == self,
            p.priority == priority,
    {
        Parenable::new(self, priority)
    }
}

/// The layouts that the documents of `docs` denote.
pub open spec fn views(docs: Seq<Doc>) -> Seq<Layout> {
    Seq::new(docs.len(), |i: int| docs[i]@)
}

/// Whether every document of `docs` is well formed.
pub open spec fn all_wf(docs: Seq<Doc>) -> bool {
    forall|i: int| 0 <= i < docs.len() ==> (#[trigger] docs[i]).wf()
}

/// The documents of `docs` concatenated from left to right:
/// `[d1, d2, d3, d4]` becomes `((d1 d2) d3) d4`, and no document becomes `nil`.
pub fn sep(docs: &[Doc]) -> (doc: Doc)
    requires
        all_wf(docs@),
        chain(views(docs@)).flat_len() <= usize::MAX,
    ensures
        doc@ == chain(views(docs@)),
        doc.wf(),
{
    if docs.len() == 0 {
        return Doc::nil();
    }
    let mut acc = docs[0].clone();
    let mut i: usize = 1;
    proof {
        assert(views(docs@).take(1) =~= seq![docs@[0]@]);
    }
    while i < docs.len()
        invariant
            1 <= i <= docs.len(),
            all_wf(docs@),
            chain(views(docs@)).flat_len() <= usize::MAX,
            acc.wf(),
            acc@ == chain(views(docs@).take(i as int)),
        decreases docs.len() - i,
    {
        proof {
            let prefix = views(docs@).take(i as int);
            assert(views(docs@).take(i + 1) =~= prefix.push(docs@[i as int]@));
            lemma_chain_push(prefix, docs@[i as int]@);
            lemma_chain_prefix(views(docs@), i + 1);
        }
        acc = acc.concat(docs[i].clone());
        i += 1;
    }
    proof {
        assert(views(docs@).take(i as int) =~= views(docs@));
    }
    acc
}

/// The documents that `s` yields, word-wrapped: each one but the first is
/// joined to those before it by a break point that forms a group with it, so
/// each break point is decided on its own. `[d1, d2, d3]` becomes
/// `(d1 group(line d2)) group(line d3)`, and no document becomes `nil`.
pub fn word_wrap_val<I>(mut s: I) -> (doc: Doc) where I: Iterator<Item = Doc> + Clone
    requires
        s.obeys_prophetic_iter_laws(),
        s.decrease() is Some,
        all_wf(s.remaining()),
        chain(wrapped(views(s.remaining()))).flat_len() <= usize::MAX,
    ensures
        doc@ == chain(wrapped(views(s.remaining()))),
        doc.wf(),
{
    let ghost all = s.remaining();
    let ghost items = wrapped(views(all));
    match s.next() {
        None => Doc::nil(),
        Some(hd) => {
            let mut acc = hd;
            let ghost mut n: int = 1;
            proof {
                assert(items.take(1) =~= seq![all[0]@]);
            }
            loop
                invariant
                    s.obeys_prophetic_iter_laws(),
                    s.decrease() is Some,
                    1 <= n <= all.len(),
                    s.remaining() == all.skip(n),
                    all_wf(all),
                    items == wrapped(views(all)),
                    chain(items).flat_len() <= usize::MAX,
                    acc.wf(),
                    acc@ == chain(items.take(n)),
                ensures
                    acc.wf(),
                    acc@ == chain(items),
                decreases s.decrease()->0,
            {
                match s.next() {
                    None => {
                        proof {
                            assert(items.take(n) =~= items);
                        }
                        break ;
                    },
                    Some(elem) => {
                        proof {
                            assert(elem == all[n]);
                            assert(all.skip(n).drop_first() =~= all.skip(n + 1));
                            assert(items.take(n + 1) =~= items.take(n).push(elem@.on_new_line()));
                            lemma_chain_push(items.take(n), elem@.on_new_line());
                            lemma_chain_prefix(items, n + 1);
                            assert(elem@.on_new_line().flat_len() == 1 + elem@.flat_len()) by {
                                reveal_with_fuel(Layout::flat_len, 3);
                            }
                            n = n + 1;
                        }
                        acc = acc.concat(Doc::line().concat(elem).group());
                    },
                }
            }
            acc
        },
    }
}

impl<T: Display> From<T> for Doc {
    /// The document that holds `t` as it is displayed.
    fn from(t: T) -> (doc: Doc)
        ensures
            doc.wf(),
            exists|s: String| to_string_from_display_ensures::<T>(&t, s) && doc@ == Layout::Text(s@),
    {
        Doc::text(t.to_string())
    }
}

impl<T: Display> vstd::std_specs::convert::FromSpecImpl<T> for Doc {
    /// How a value is displayed is not known here.
    open spec fn obeys_from_spec() -> bool {
        false
    }

    open spec fn from_spec(t: T) -> Doc {
        arbitrary()
    }
}

impl Clone for Doc {
    /// Another handle to the same node.
    fn clone(&self) -> (doc: Self)
        ensures
            doc == *self,
    {
        Doc(share(&self.0))
    }
}

impl Clone for InnerDoc {
    fn clone(&self) -> (node: Self)
        ensures
            node == *self,
    {
        match self {
            InnerDoc::Nil => InnerDoc::Nil,
            InnerDoc::Newline => InnerDoc::Newline,
            InnerDoc::NewlineZero => InnerDoc::NewlineZero,
            InnerDoc::Text { s, len } => InnerDoc::Text { s: s.clone(), len: *len },
            InnerDoc::Concat { lhs, rhs, has_newline, dist_newline, flat_len } => InnerDoc::Concat {
                lhs: lhs.clone(),
                rhs: rhs.clone(),
                has_newline: *has_newline,
                dist_newline: *dist_newline,
                flat_len: *flat_len,
            },
            InnerDoc::Nest { nest, doc, has_newline, dist_newline, flat_len } => InnerDoc::Nest {
                nest: *nest,
                doc: doc.clone(),
                has_newline: *has_newline,
                dist_newline: *dist_newline,
                flat_len: *flat_len,
            },
            InnerDoc::Group { doc, has_newline, dist_newline, flat_len } => InnerDoc::Group {
                doc: doc.clone(),
                has_newline: *has_newline,
                dist_newline: *dist_newline,
                flat_len: *flat_len,
            },
        }
    }
}

/// Whether `len + flat_len + dist <= line_start + line_width`, computed without
/// overflow.
fn fits_on_line(len: usize, flat_len: usize, dist: usize, line_start: usize, line_width: usize) -> (fits:
    bool)
    ensures
        fits == (len + flat_len + dist <= line_start + line_width),
{
    len as u128 + flat_len as u128 + dist as u128 <= line_start as u128 + line_width as u128
}

/// `Arc::clone`: the new handle points to the allocation of the old one, so
/// the value behind both is the same.
#[verifier::external_body]
fn share(node: &Arc<InnerDoc>) -> (shared: Arc<InnerDoc>)
    ensures
        shared == *node,
{
    Arc::clone(node)
}

impl AsRef<InnerDoc> for Doc {
    /// The node behind the handle.
    fn as_ref(&self) -> (node: &InnerDoc)
        ensures
            *node == *self.0,
    {
        &*self.0
    }
}

impl From<InnerDoc> for Doc {
    /// The document with the node `t` at its root.
    fn from(t: InnerDoc) -> (doc: Doc)
        ensures
            *doc.0 == t,
    {
        Doc(Arc::new(t))
    }
}

impl vstd::std_specs::convert::FromSpecImpl<InnerDoc> for Doc {
    open spec fn obeys_from_spec() -> bool {
        true
    }

    open spec fn from_spec(t: InnerDoc) -> Doc {
        Doc(Arc::new(t))
    }
}

impl From<&InnerDoc> for Doc {
    /// The document with a copy of the node `t` at its root.
    fn from(t: &InnerDoc) -> (doc: Doc)
        ensures
            *doc.0 == *t,
    {
        Doc(Arc::new(t.clone()))
    }
}

impl vstd::std_specs::convert::FromSpecImpl<&InnerDoc> for Doc {
    open spec fn obeys_from_spec() -> bool {
        true
    }

    open spec fn from_spec(t: &InnerDoc) -> Doc {
        Doc(Arc::new(*t))
    }
}

} // verus!
