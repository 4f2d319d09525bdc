//! Document history: a linear timeline with undo and redo.
//!
//! Every committed step is remembered with its label and with the snapshot
//! of the document it replaced; undoing a step hands that snapshot back and
//! keeps the undone document for redo. Committing a new step discards
//! everything that was undone.

use vstd::prelude::*;

use crate::document::{Document, SceneObject};

verus! {

/// A single reversible transaction (one timeline step).
#[derive(Debug, Clone)]
pub struct Transaction<P> {
    pub label: String,
    pub before: Vec<SceneObject<P>>,
    pub after: Vec<SceneObject<P>>,
}

impl<P> Transaction<P> {
    pub fn new(label: &str, before: Vec<SceneObject<P>>, after: Vec<SceneObject<P>>) -> (t: Self)
        ensures
            t.label@ == label@,
            t.before@ == before@,
            t.after@ == after@,
    {
        Transaction { label: label.to_owned(), before, after }
    }
}

/// A remembered step: its label and the document it leads back (or forward) to.
pub type StepModel<P> = (Seq<char>, Seq<SceneObject<P>>);

/// The abstract state of a history: the steps that can be undone (oldest
/// first), the current document, and the steps that can be redone (the next
/// one to redo last).
pub struct HistoryModel<P> {
    pub past: Seq<StepModel<P>>,
    pub current: Seq<SceneObject<P>>,
    pub future: Seq<StepModel<P>>,
}

impl<P> HistoryModel<P> {
    /// Committing `doc` under `label`: the current document becomes undoable,
    /// `doc` becomes current and nothing is left to redo.
    pub open spec fn commit(self, label: Seq<char>, doc: Seq<SceneObject<P>>) -> Self {
        HistoryModel { past: self.past.push((label, self.current)), current: doc, future: Seq::empty() }
    }

    pub open spec fn can_undo(self) -> bool {
        self.past.len() > 0
    }

    pub open spec fn can_redo(self) -> bool {
        self.future.len() > 0
    }

    /// Undoing the last step: its snapshot becomes current and the document it
    /// replaced is kept for redo under the same label.
    pub open spec fn undo(self) -> Self {
        if self.past.len() == 0 {
            self
        } else {
            let step = self.past.last();
            HistoryModel {
                past: self.past.drop_last(),
                current: step.1,
                future: self.future.push((step.0, self.current)),
            }
        }
    }

    /// Redoing the last undone step.
    pub open spec fn redo(self) -> Self {
        if self.future.len() == 0 {
            self
        } else {
            let step = self.future.last();
            HistoryModel {
                past: self.past.push((step.0, self.current)),
                current: step.1,
                future: self.future.drop_last(),
            }
        }
    }

    /// Labels of the undoable steps, oldest first.
    pub open spec fn timeline(self) -> Seq<Seq<char>> {
        self.past.map_values(|s: StepModel<P>| s.0)
    }
}

struct Step<P> {
    label: String,
    snapshot: Vec<SceneObject<P>>,
}

impl<P> Step<P> {
    spec fn model(self) -> StepModel<P> {
        (self.label@, self.snapshot@)
    }
}

spec fn steps_model<P>(steps: Seq<Step<P>>) -> Seq<StepModel<P>> {
    steps.map_values(|s: Step<P>| s.model())
}

/// Linear undo/redo history.
pub struct History<P> {
    /// Current document snapshot.
    current: Document<P>,
    /// Undoable steps, oldest first.
    undo: Vec<Step<P>>,
    /// Redoable steps, the next one last.
    redo: Vec<Step<P>>,
}

impl<P> View for History<P> {
    type V = HistoryModel<P>;

    closed spec fn view(&self) -> HistoryModel<P> {
        HistoryModel {
            past: steps_model(self.undo@),
            current: self.current.objects@,
            future: steps_model(self.redo@),
        }
    }
}

impl<P> Default for History<P> {
    fn default() -> (h: Self)
        ensures
            h@.past == Seq::<StepModel<P>>::empty(),
            h@.current == Seq::<SceneObject<P>>::empty(),
            h@.future == Seq::<StepModel<P>>::empty(),
    {
        History::new(Document::new())
    }
}

impl<P> History<P> {
    /// A history whose current document is `doc`, with nothing to undo or redo.
    pub fn new(doc: Document<P>) -> (h: Self)
        ensures
            h@.past == Seq::<StepModel<P>>::empty(),
            h@.current == doc.objects@,
            h@.future == Seq::<StepModel<P>>::empty(),
    {
        let h = History { current: doc, undo: Vec::new(), redo: Vec::new() };
        assert(steps_model(h.undo@) =~= Seq::<StepModel<P>>::empty());
        assert(steps_model(h.redo@) =~= Seq::<StepModel<P>>::empty());
        h
    }

    pub fn document(&self) -> (d: &Document<P>)
        ensures
            d.objects@ == self@.current,
    {
        &self.current
    }

    pub fn can_undo(&self) -> (b: bool)
        ensures
            b == self@.can_undo(),
    {
        self.undo.len() != 0
    }

    pub fn can_redo(&self) -> (b: bool)
        ensures
            b == self@.can_redo(),
    {
        self.redo.len() != 0
    }

    /// Applies a transaction: the current document is kept for undo, `new_doc`
    /// becomes current and the redo stack is cleared.
    pub fn commit(&mut self, label: &str, new_doc: Document<P>)
        ensures
            final(self)@ == old(self)@.commit(label@, new_doc.objects@),
    {
        let mut previous = new_doc;
        std::mem::swap(&mut self.current, &mut previous);
        let step = Step { label: label.to_owned(), snapshot: previous.objects };
        self.undo.push(step);
        self.redo.clear();
        assert(steps_model(self.undo@) =~= steps_model(old(self).undo@).push(step.model()));
        assert(steps_model(self.redo@) =~= Seq::<StepModel<P>>::empty());
    }

    /// Steps back once; returns the label of the undone step, or `None` when
    /// there is nothing to undo (the history is then unchanged).
    pub fn undo(&mut self) -> (r: Option<&str>)
        ensures
            final(self)@ == old(self)@.undo(),
            match r {
                Some(l) => old(self)@.can_undo() && l@ == old(self)@.past.last().0,
                None => !old(self)@.can_undo(),
            },
    {
        let step = match self.undo.pop() {
            Some(s) => s,
            None => return None,
        };
        let ghost old_undo = old(self).undo@;
        assert(steps_model(self.undo@) =~= steps_model(old_undo).drop_last());
        let Step { label, snapshot } = step;
        let mut replaced = snapshot;
        std::mem::swap(&mut self.current.objects, &mut replaced);
        self.redo.push(Step { label, snapshot: replaced });
        assert(steps_model(self.redo@) =~= steps_model(old(self).redo@).push(
            (label@, old(self).current.objects@),
        ));
        let n = self.redo.len();
        Some(self.redo[n - 1].label.as_str())
    }

    /// Steps forward once; returns the label of the redone step, or `None` when
    /// there is nothing to redo (the history is then unchanged).
    pub fn redo(&mut self) -> (r: Option<&str>)
        ensures
            final(self)@ == old(self)@.redo(),
            match r {
                Some(l) => old(self)@.can_redo() && l@ == old(self)@.future.last().0,
                None => !old(self)@.can_redo(),
            },
    {
        let step = match self.redo.pop() {
            Some(s) => s,
            None => return None,
        };
        let ghost old_redo = old(self).redo@;
        assert(steps_model(self.redo@) =~= steps_model(old_redo).drop_last());
        let Step { label, snapshot } = step;
        let mut replaced = snapshot;
        std::mem::swap(&mut self.current.objects, &mut replaced);
        self.undo.push(Step { label, snapshot: replaced });
        assert(steps_model(self.undo@) =~= steps_model(old(self).undo@).push(
            (label@, old(self).current.objects@),
        ));
        let n = self.undo.len();
        Some(self.undo[n - 1].label.as_str())
    }

    pub fn undo_len(&self) -> (n: usize)
        ensures
            n == self@.past.len(),
    {
        self.undo.len()
    }

    pub fn redo_len(&self) -> (n: usize)
        ensures
            n == self@.future.len(),
    {
        self.redo.len()
    }

    /// The timeline: labels of the undoable steps, oldest to newest.
    pub fn timeline(&self) -> (labels: Vec<String>)
        ensures
            labels@.map_values(|s: String| s@) == self@.timeline(),
    {
        let mut out: Vec<String> = Vec::new();
        let mut i: usize = 0;
        while i < self.undo.len()
            invariant
                i <= self.undo@.len(),
                out@.len() == i,
                forall|j: int| 0 <= j < i ==> out@[j]@ == self.undo@[j].label@,
            decreases self.undo@.len() - i,
        {
            out.push(self.undo[i].label.clone());
            i = i + 1;
        }
        assert(out@.map_values(|s: String| s@) =~= self@.timeline());
        out
    }
}

/// Undoing a step and redoing it gives back the very same history.
pub proof fn lemma_undo_then_redo<P>(h: HistoryModel<P>)
    requires
        h.can_undo(),
    ensures
        h.undo().redo() == h,
{
    assert(h.undo().redo().past =~= h.past);
    assert(h.undo().redo().future =~= h.future);
}

/// Redoing a step and undoing it gives back the very same history.
pub proof fn lemma_redo_then_undo<P>(h: HistoryModel<P>)
    requires
        h.can_redo(),
    ensures
        h.redo().undo() == h,
{
    assert(h.redo().undo().past =~= h.past);
    assert(h.redo().undo().future =~= h.future);
}

/// Undoing a commit restores the document it replaced, keeps the older steps,
/// and leaves exactly the committed step to redo.
pub proof fn lemma_undo_after_commit<P>(
    h: HistoryModel<P>,
    label: Seq<char>,
    doc: Seq<SceneObject<P>>,
)
    ensures
        h.commit(label, doc).undo().current == h.current,
        h.commit(label, doc).undo().past == h.past,
        h.commit(label, doc).undo().future == seq![(label, doc)],
        h.commit(label, doc).undo().redo() == h.commit(label, doc),
{
    let c = h.commit(label, doc);
    assert(c.undo().past =~= h.past);
    assert(c.undo().future =~= seq![(label, doc)]);
    lemma_undo_then_redo(c);
}

/// A commit always leaves nothing to redo and appends exactly its label to
/// the timeline.
pub proof fn lemma_commit_clears_redo<P>(
    h: HistoryModel<P>,
    label: Seq<char>,
    doc: Seq<SceneObject<P>>,
)
    ensures
        !h.commit(label, doc).can_redo(),
        h.commit(label, doc).current == doc,
        h.commit(label, doc).timeline() == h.timeline().push(label),
{
    assert(h.commit(label, doc).timeline() =~= h.timeline().push(label));
}

/// Undo and redo move one step between the two stacks: the total number of
/// remembered steps never changes, and an empty stack makes the move a no-op.
pub proof fn lemma_undo_redo_preserve_step_count<P>(h: HistoryModel<P>)
    ensures
        h.undo().past.len() + h.undo().future.len() == h.past.len() + h.future.len(),
        h.redo().past.len() + h.redo().future.len() == h.past.len() + h.future.len(),
        !h.can_undo() ==> h.undo() == h,
        !h.can_redo() ==> h.redo() == h,
{
}

} // verus!
