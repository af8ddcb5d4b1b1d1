//! Documents with a priority, for printing expressions: a document is put in
//! round brackets where its context binds more tightly than it does.

use crate::doc::Doc;
use vstd::prelude::*;

verus! {

/// The priority of a document that never needs brackets.
pub const MAX_PRIORITY: usize = 1024;

/// A document together with the priority of its outermost operator.
#[derive(Debug)]
pub struct Parenable {
    pub doc: Doc,
    pub priority: usize,
}

impl Parenable {
    /// The document `doc` with the priority `priority`.
    pub fn new(doc: Doc, priority: usize) -> (p: Self)
        ensures
            p.doc == doc,
            p.priority == priority,
    {
        Parenable { priority, doc }
    }

    /// The document `doc` with the highest priority, `MAX_PRIORITY`.
    pub fn new_max(doc: Doc) -> (p: Self)
        ensures
            p.doc == doc,
            p.priority == MAX_PRIORITY,
    {
        Parenable { priority: MAX_PRIORITY, doc }
    }

    /// Whether a context of priority `target_priority` puts this document in
    /// brackets: it does where the document's own priority is lower.
    pub open spec fn needs_paren(&self, target_priority: usize) -> bool {
        self.priority < target_priority
    }

    /// The document as it stands in a context of priority `target_priority`:
    /// in round brackets if its own priority is lower, unchanged otherwise.
    pub fn maybe_surround(&self, target_priority: usize) -> (doc: Doc)
        requires
            self.needs_paren(target_priority) ==> self.doc.wf() && self.doc@.flat_len() + 2
                <= usize::MAX,
        ensures
            self.needs_paren(target_priority) ==> doc@ == self.doc@.surround(
                seq!['('],
                seq![')'],
            ) && doc.wf(),
            !self.needs_paren(target_priority) ==> doc == self.doc,
    {
        if self.priority < target_priority {
            self.doc.clone().surround_paren()
        } else {
            self.doc.clone()
        }
    }
}

/// The threshold of the brackets: a context whose priority is one above the
/// document's own puts the document in brackets, and so does every higher
/// one; a context of the document's own priority or a lower one never does.
pub proof fn lemma_paren_threshold(p: Parenable, context: usize)
    ensures
        context == p.priority + 1 ==> p.needs_paren(context),
        context > p.priority ==> p.needs_paren(context),
        context <= p.priority ==> !p.needs_paren(context),
{
}

impl Clone for Parenable {
    fn clone(&self) -> (p: Self)
        ensures
            p == *self,
    {
        Parenable { doc: self.doc.clone(), priority: self.priority }
    }
}

} // verus!
