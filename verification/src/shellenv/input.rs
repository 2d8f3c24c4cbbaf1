//! The text that is being read, and the stretches of it that tokens stand for.

use crate::text;
use crate::text::bytes_up_to;
use crate::text::chars_of;
use crate::text::owned;
use crate::text::slice_bytes;
use crate::text::string_of;
use vstd::prelude::*;

verus! {

/// A stretch of the text, in bytes.
#[derive(Debug, Clone, Copy, PartialEq, Eq, Structural)]
pub struct Span {
    pub start: usize,
    pub end: usize,
    pub expanded: bool,
}

impl Span {
    pub fn new(start: usize, end: usize) -> (r: Self)
        ensures
            r == (Span { start, end, expanded: false }),
    {
        Span { start, end, expanded: false }
    }

    /// The stretch where nothing reaches beyond `n`.
    pub open spec fn clamped(self, n: nat) -> Span {
        Span {
            start: if self.start > n {
                n as usize
            } else {
                self.start
            },
            end: if self.end > n {
                n as usize
            } else {
                self.end
            },
            ..self
        }
    }
}

/// A stretch that is held in several places, and that all of them see change.
#[derive(Debug, Clone, Copy, PartialEq, Eq, Structural)]
pub struct SpanRef(pub usize);

/// All stretches that were made.
pub struct Spans {
    pub cells: Vec<Span>,
}

impl Spans {
    /// Whether there is such a stretch.
    pub open spec fn has(self, r: SpanRef) -> bool {
        r.0 < self.cells@.len()
    }

    /// A stretch.
    pub open spec fn at(self, r: SpanRef) -> Span {
        self.cells@[r.0 as int]
    }

    pub fn new() -> (r: Self)
        ensures
            r.cells@.len() == 0,
    {
        Spans { cells: Vec::new() }
    }

    pub fn make(&mut self, span: Span) -> (r: SpanRef)
        ensures
            r.0 == old(self).cells@.len(),
            final(self).cells@ == old(self).cells@.push(span),
    {
        let r = SpanRef(self.cells.len());
        self.cells.push(span);
        r
    }

    pub fn get(&self, r: SpanRef) -> (s: Span)
        requires
            self.has(r),
        ensures
            s == self.at(r),
    {
        self.cells[r.0]
    }

    pub fn set(&mut self, r: SpanRef, s: Span)
        requires
            old(self).has(r),
        ensures
            final(self).cells@ == old(self).cells@.update(r.0 as int, s),
    {
        self.cells.set(r.0, s);
    }
}

/// A stretch, and what it was when it was saved.
#[derive(Debug, Clone, Copy, PartialEq, Eq, Structural)]
pub struct SavedSpan {
    pub pointer: SpanRef,
    pub start: usize,
    pub end: usize,
    pub expanded: bool,
}

impl SavedSpan {
    /// What is saved of a stretch.
    pub open spec fn of(heap: Spans, pointer: SpanRef) -> SavedSpan {
        let s = heap.at(pointer);
        SavedSpan { pointer, start: s.start, end: s.end, expanded: s.expanded }
    }

    /// The stretch as it was saved.
    pub open spec fn span(self) -> Span {
        Span { start: self.start, end: self.end, expanded: self.expanded }
    }

    pub fn from_span(heap: &Spans, pointer: SpanRef) -> (r: Self)
        requires
            heap.has(pointer),
        ensures
            r == SavedSpan::of(*heap, pointer),
    {
        let s = heap.get(pointer);
        SavedSpan { pointer, start: s.start, end: s.end, expanded: s.expanded }
    }

    /// Makes the stretch again what it was.
    pub fn restore(&self, heap: &mut Spans)
        requires
            old(heap).has(self.pointer),
        ensures
            final(heap).cells@ == old(heap).cells@.update(self.pointer.0 as int, self.span()),
    {
        heap.set(
            self.pointer,
            Span { start: self.start, end: self.end, expanded: self.expanded },
        );
    }

    pub fn into_span(self) -> (r: SpanRef)
        ensures
            r == self.pointer,
    {
        self.pointer
    }
}

/// The text that is being read, with its stretches and what was put aside.
pub struct InputMan {
    pub input: Option<String>,
    pub spans: Vec<SpanRef>,
    pub saved_states: Vec<(String, Vec<SavedSpan>)>,
    pub heap: Spans,
}

/// What is saved of the first `n` stretches.
pub open spec fn saved_of(heap: Spans, spans: Seq<SpanRef>, n: int) -> Seq<SavedSpan> {
    Seq::new(n as nat, |i: int| SavedSpan::of(heap, spans[i]))
}

/// The cells after the first `n` saved stretches are what they were again.
pub open spec fn restored(cells: Seq<Span>, saved: Seq<SavedSpan>, n: int) -> Seq<Span>
    decreases n,
{
    if n <= 0 {
        cells
    } else {
        restored(cells, saved, n - 1).update(saved[n - 1].pointer.0 as int, saved[n - 1].span())
    }
}

/// The stretches that were saved.
pub open spec fn pointers(saved: Seq<SavedSpan>) -> Seq<SpanRef> {
    Seq::new(saved.len(), |i: int| saved[i].pointer)
}

/// The cells after the first `n` stretches were cut off at the end of the text.
pub open spec fn all_clamped(cells: Seq<Span>, spans: Seq<SpanRef>, len: nat, n: int) -> Seq<Span>
    decreases n,
{
    if n <= 0 {
        cells
    } else {
        let c = all_clamped(cells, spans, len, n - 1);
        c.update(spans[n - 1].0 as int, c[spans[n - 1].0 as int].clamped(len))
    }
}

/// The first stretch equal to one, from `i` on.
pub open spec fn equal_from(heap: Spans, spans: Seq<SpanRef>, s: Span, i: int) -> Option<int>
    decreases spans.len() - i,
{
    if i < 0 || i >= spans.len() {
        None
    } else if heap.at(spans[i]) == s {
        Some(i)
    } else {
        equal_from(heap, spans, s, i + 1)
    }
}

fn pointers_of(saved: &Vec<SavedSpan>) -> (r: Vec<SpanRef>)
    ensures
        r@ == pointers(saved@),
{
    let mut out: Vec<SpanRef> = Vec::new();
    let mut i: usize = 0;
    while i < saved.len()
        invariant
            i <= saved@.len(),
            out@ == pointers(saved@).take(i as int),
        decreases saved@.len() - i,
    {
        out.push(saved[i].into_span());
        i = i + 1;
        assert(out@ =~= pointers(saved@).take(i as int));
    }
    assert(out@ =~= pointers(saved@));
    out
}

fn save_all(heap: &Spans, spans: &Vec<SpanRef>) -> (r: Vec<SavedSpan>)
    requires
        forall|i: int| 0 <= i < spans@.len() ==> heap.has(#[trigger] spans@[i]),
    ensures
        r@ == saved_of(*heap, spans@, spans@.len() as int),
{
    let mut out: Vec<SavedSpan> = Vec::new();
    let mut i: usize = 0;
    while i < spans.len()
        invariant
            i <= spans@.len(),
            out@ == saved_of(*heap, spans@, i as int),
            forall|i: int| 0 <= i < spans@.len() ==> heap.has(#[trigger] spans@[i]),
        decreases spans@.len() - i,
    {
        out.push(SavedSpan::from_span(heap, spans[i]));
        i = i + 1;
        assert(out@ =~= saved_of(*heap, spans@, i as int));
    }
    out
}

fn restore_all(heap: &mut Spans, saved: &Vec<SavedSpan>)
    requires
        forall|i: int| 0 <= i < saved@.len() ==> old(heap).has((#[trigger] saved@[i]).pointer),
    ensures
        final(heap).cells@ == restored(old(heap).cells@, saved@, saved@.len() as int),
        final(heap).cells@.len() == old(heap).cells@.len(),
{
    let mut i: usize = 0;
    while i < saved.len()
        invariant
            i <= saved@.len(),
            heap.cells@ == restored(old(heap).cells@, saved@, i as int),
            heap.cells@.len() == old(heap).cells@.len(),
            forall|i: int| 0 <= i < saved@.len() ==> old(heap).has((#[trigger] saved@[i]).pointer),
        decreases saved@.len() - i,
    {
        assert(old(heap).has(saved@[i as int].pointer));
        saved[i].restore(heap);
        i = i + 1;
    }
}

impl InputMan {
    /// Whether every stretch that is held was made.
    pub open spec fn wf(self) -> bool {
        &&& forall|i: int| 0 <= i < self.spans@.len() ==> self.heap.has(#[trigger] self.spans@[i])
        &&& forall|k: int, i: int|
            0 <= k < self.saved_states@.len() && 0 <= i < self.saved_states@[k].1@.len()
                ==> self.heap.has((#[trigger] self.saved_states@[k].1@[i]).pointer)
    }

    /// The length of the text, as far as a `usize` goes.
    pub open spec fn limit(s: Seq<char>) -> nat {
        if text::byte_len(s) <= usize::MAX {
            text::byte_len(s)
        } else {
            usize::MAX as nat
        }
    }

    pub fn new() -> (r: Self)
        ensures
            r.wf(),
            r.input is None,
            r.spans@.len() == 0,
            r.saved_states@.len() == 0,
            r.heap.cells@.len() == 0,
    {
        InputMan { input: None, spans: Vec::new(), saved_states: Vec::new(), heap: Spans::new() }
    }

    /// Forgets the text and its stretches. Those that are held elsewhere stay what
    /// they are.
    pub fn clear(&mut self)
        ensures
            final(self).wf(),
            final(self).input is None,
            final(self).spans@.len() == 0,
            final(self).saved_states@.len() == 0,
            final(self).heap == old(self).heap,
    {
        self.input = None;
        self.spans = Vec::new();
        self.saved_states = Vec::new();
    }

    pub fn new_input(&mut self, input: &str)
        ensures
            final(self).input is Some,
            final(self).input->0@ == input@,
            *final(self) == (InputMan { input: final(self).input, ..*old(self) }),
    {
        self.input = Some(owned(input));
    }

    pub fn get_input(&self) -> (r: Option<&String>)
        ensures
            match r {
                Some(s) => self.input == Some(*s),
                None => self.input is None,
            },
    {
        match &self.input {
            Some(s) => Some(s),
            None => None,
        }
    }

    pub fn get_input_mut(&mut self) -> (r: Option<&mut String>)
        ensures
            match r {
                Some(s) => old(self).input == Some(*s) && *final(self) == (InputMan {
                    input: Some(*final(s)),
                    ..*old(self)
                }),
                None => old(self).input is None && *final(self) == *old(self),
            },
    {
        match &mut self.input {
            Some(s) => Some(s),
            None => None,
        }
    }

    /// Puts the text and its stretches aside, if there is a text.
    pub fn push_state(&mut self)
        requires
            old(self).wf(),
        ensures
            final(self).wf(),
            InputMan::put_aside(*old(self), *final(self)),
    {
        let saved = match &self.input {
            None => {
                return;
            },
            Some(s) => s.clone(),
        };
        let spans = save_all(&self.heap, &self.spans);
        self.saved_states.push((saved, spans));
        assert(self.saved_states@.take(old(self).saved_states@.len() as int)
            =~= old(self).saved_states@);
        assert forall|k: int, i: int|
            0 <= k < self.saved_states@.len() && 0 <= i
                < self.saved_states@[k].1@.len() implies self.heap.has(
            (#[trigger] self.saved_states@[k].1@[i]).pointer,
        ) by {
            if k < old(self).saved_states@.len() {
                assert(old(self).saved_states@[k].1@[i] == self.saved_states@[k].1@[i]);
            } else {
                assert(self.heap.has(self.spans@[i]));
            }
        }
    }

    /// Whether the text and its stretches were put aside.
    pub open spec fn put_aside(a: InputMan, b: InputMan) -> bool {
        match a.input {
            None => b == a,
            Some(s) => {
                let n = a.saved_states@.len() as int;
                &&& b == (InputMan { saved_states: b.saved_states, ..a })
                &&& b.saved_states@.len() == n + 1
                &&& b.saved_states@.take(n) == a.saved_states@
                &&& b.saved_states@[n].0@ == s@
                &&& b.saved_states@[n].1@ == saved_of(a.heap, a.spans@, a.spans@.len() as int)
            },
        }
    }

    /// Whether what was put aside last was taken up again.
    pub open spec fn taken_up(a: InputMan, b: InputMan) -> bool {
        if a.saved_states@.len() == 0 {
            b == (InputMan { saved_states: b.saved_states, ..a }) && b.saved_states@.len() == 0
        } else {
            let last = a.saved_states@.last();
            &&& b.input is Some
            &&& b.input->0@ == last.0@
            &&& b.spans@ == pointers(last.1@)
            &&& b.saved_states@ == a.saved_states@.drop_last()
            &&& b.heap.cells@ == restored(a.heap.cells@, last.1@, last.1@.len() as int)
        }
    }

    /// Takes up what was put aside last: the text, and its stretches as they were
    /// then.
    pub fn pop_state(&mut self)
        requires
            old(self).wf(),
        ensures
            final(self).wf(),
            InputMan::taken_up(*old(self), *final(self)),
    {
        let ghost n = self.saved_states@.len() as int;
        match self.saved_states.pop() {
            None => {},
            Some(state) => {
                let (input, saved) = state;
                assert forall|i: int| 0 <= i < saved@.len() implies self.heap.has(
                    (#[trigger] saved@[i]).pointer,
                ) by {
                    assert(old(self).saved_states@[n - 1].1@[i] == saved@[i]);
                }
                restore_all(&mut self.heap, &saved);
                self.input = Some(input);
                self.spans = pointers_of(&saved);
                assert forall|k: int, i: int|
                    0 <= k < self.saved_states@.len() && 0 <= i
                        < self.saved_states@[k].1@.len() implies self.heap.has(
                    (#[trigger] self.saved_states@[k].1@[i]).pointer,
                ) by {
                    assert(old(self).saved_states@[k].1@[i] == self.saved_states@[k].1@[i]);
                }
            },
        }
    }

    /// A new stretch of the text; an empty one that is not kept where there is no
    /// text.
    pub fn new_span(&mut self, start: usize, end: usize) -> (r: SpanRef)
        requires
            old(self).wf(),
        ensures
            final(self).wf(),
            r.0 == old(self).heap.cells@.len(),
            final(self).input == old(self).input,
            final(self).saved_states == old(self).saved_states,
            old(self).input is Some ==> final(self).heap.cells@ == old(self).heap.cells@.push(
                Span { start, end, expanded: false },
            ) && final(self).spans@ == old(self).spans@.push(r),
            old(self).input is None ==> final(self).heap.cells@ == old(self).heap.cells@.push(
                Span { start: 0, end: 0, expanded: false },
            ) && final(self).spans == old(self).spans,
    {
        let r = if self.input.is_some() {
            let r = self.heap.make(Span::new(start, end));
            self.spans.push(r);
            r
        } else {
            self.heap.make(Span::new(0, 0))
        };
        assert forall|i: int| 0 <= i < self.spans@.len() implies self.heap.has(
            #[trigger] self.spans@[i],
        ) by {
            if i < old(self).spans@.len() {
                assert(old(self).heap.has(old(self).spans@[i]));
            }
        }
        assert forall|k: int, i: int|
            0 <= k < self.saved_states@.len() && 0 <= i
                < self.saved_states@[k].1@.len() implies self.heap.has(
            (#[trigger] self.saved_states@[k].1@[i]).pointer,
        ) by {
            assert(old(self).saved_states@[k].1@[i] == self.saved_states@[k].1@[i]);
        }
        r
    }

    /// Lets go of the first stretch that is equal to one.
    pub fn remove_span(&mut self, span: SpanRef)
        requires
            old(self).wf(),
            old(self).heap.has(span),
        ensures
            final(self).wf(),
            final(self).spans@ == match equal_from(
                old(self).heap,
                old(self).spans@,
                old(self).heap.at(span),
                0,
            ) {
                Some(i) => old(self).spans@.remove(i),
                None => old(self).spans@,
            },
            *final(self) == (InputMan { spans: final(self).spans, ..*old(self) }),
    {
        let s = self.heap.get(span);
        let mut i: usize = 0;
        while i < self.spans.len()
            invariant
                i <= self.spans@.len(),
                *self == *old(self),
                self.wf(),
                s == self.heap.at(span),
                equal_from(self.heap, self.spans@, s, 0) == equal_from(
                    self.heap,
                    self.spans@,
                    s,
                    i as int,
                ),
            decreases self.spans@.len() - i,
        {
            assert(self.heap.has(self.spans@[i as int]));
            if self.heap.get(self.spans[i]) == s {
                self.spans.remove(i);
                assert forall|k: int| 0 <= k < self.spans@.len() implies self.heap.has(
                    #[trigger] self.spans@[k],
                ) by {
                    if k < i {
                        assert(self.heap.has(old(self).spans@[k]));
                    } else {
                        assert(self.heap.has(old(self).spans@[k + 1]));
                    }
                }
                assert forall|k: int, j: int|
                    0 <= k < self.saved_states@.len() && 0 <= j
                        < self.saved_states@[k].1@.len() implies self.heap.has(
                    (#[trigger] self.saved_states@[k].1@[j]).pointer,
                ) by {
                    assert(old(self).saved_states@[k].1@[j] == self.saved_states@[k].1@[j]);
                }
                return;
            }
            i = i + 1;
        }
    }

    pub fn spans_mut(&mut self) -> (r: &mut Vec<SpanRef>)
        ensures
            *r == old(self).spans,
            *final(self) == (InputMan { spans: *final(r), ..*old(self) }),
    {
        &mut self.spans
    }

    /// Cuts a stretch off at the end of the text.
    pub fn clamp(&mut self, span: SpanRef)
        requires
            old(self).wf(),
            old(self).heap.has(span),
        ensures
            final(self).wf(),
            final(self).heap.cells@ == match old(self).input {
                Some(s) => old(self).heap.cells@.update(
                    span.0 as int,
                    old(self).heap.at(span).clamped(InputMan::limit(s@)),
                ),
                None => old(self).heap.cells@,
            },
            final(self).heap.cells@.len() == old(self).heap.cells@.len(),
            *final(self) == (InputMan { heap: final(self).heap, ..*old(self) }),
    {
        let n: usize = match &self.input {
            None => {
                return;
            },
            Some(s) => {
                let v = chars_of(s.as_str());
                assert(v@.take(v@.len() as int) =~= v@);
                bytes_up_to(v.as_slice(), v.len())
            },
        };
        let mut s = self.heap.get(span);
        if s.start > n {
            s.start = n;
        }
        if s.end > n {
            s.end = n;
        }
        self.heap.set(span, s);
        assert forall|k: int, i: int|
            0 <= k < self.saved_states@.len() && 0 <= i
                < self.saved_states@[k].1@.len() implies self.heap.has(
            (#[trigger] self.saved_states@[k].1@[i]).pointer,
        ) by {
            assert(old(self).saved_states@[k].1@[i] == self.saved_states@[k].1@[i]);
        }
        assert forall|i: int| 0 <= i < self.spans@.len() implies self.heap.has(
            #[trigger] self.spans@[i],
        ) by {
            assert(old(self).heap.has(old(self).spans@[i]));
        }
    }

    /// Cuts every stretch off at the end of the text.
    pub fn clamp_all(&mut self)
        requires
            old(self).wf(),
        ensures
            final(self).wf(),
            final(self).heap.cells@ == match old(self).input {
                Some(s) => all_clamped(
                    old(self).heap.cells@,
                    old(self).spans@,
                    InputMan::limit(s@),
                    old(self).spans@.len() as int,
                ),
                None => old(self).heap.cells@,
            },
            *final(self) == (InputMan { heap: final(self).heap, ..*old(self) }),
    {
        let mut i: usize = 0;
        while i < self.spans.len()
            invariant
                i <= self.spans@.len(),
                self.wf(),
                *self == (InputMan { heap: self.heap, ..*old(self) }),
                self.heap.cells@ == match old(self).input {
                    Some(s) => all_clamped(
                        old(self).heap.cells@,
                        old(self).spans@,
                        InputMan::limit(s@),
                        i as int,
                    ),
                    None => old(self).heap.cells@,
                },
            decreases self.spans@.len() - i,
        {
            let s = self.spans[i];
            assert(self.heap.has(self.spans@[i as int]));
            self.clamp(s);
            i = i + 1;
        }
    }

    /// The text of a stretch, if there is a text. A stretch that starts behind its
    /// end is empty.
    pub fn get_slice(&self, span: SpanRef) -> (r: Option<String>)
        requires
            self.heap.has(span),
            match self.input {
                Some(s) => text::on_boundary(s@, self.heap.at(span).end as int)
                    && text::on_boundary(s@, self.heap.at(span).start as int),
                None => true,
            },
        ensures
            match self.input {
                Some(s) => r is Some && r->0@ == text::byte_slice(
                    s@,
                    if self.heap.at(span).start > self.heap.at(span).end {
                        self.heap.at(span).end as int
                    } else {
                        self.heap.at(span).start as int
                    },
                    self.heap.at(span).end as int,
                ),
                None => r is None,
            },
    {
        let s = self.heap.get(span);
        let start: usize = if s.start > s.end {
            s.end
        } else {
            s.start
        };
        match &self.input {
            None => None,
            Some(t) => {
                let v = chars_of(t.as_str());
                let p = slice_bytes(v.as_slice(), start, s.end);
                Some(string_of(p.as_slice()))
            },
        }
    }
}

proof fn lemma_restored(cells: Seq<Span>, saved: Seq<SavedSpan>, n: int, heap: Spans, i: int)
    requires
        0 <= n <= saved.len(),
        0 <= i < n,
        forall|k: int|
            0 <= k < saved.len() ==> (#[trigger] saved[k]) == SavedSpan::of(heap, saved[k].pointer)
                && saved[k].pointer.0 < cells.len(),
    ensures
        restored(cells, saved, n).len() == cells.len(),
        restored(cells, saved, n)[saved[i].pointer.0 as int] == heap.at(saved[i].pointer),
    decreases n,
{
    lemma_restored_len(cells, saved, n);
    lemma_restored_len(cells, saved, n - 1);
    assert(saved[n - 1] == SavedSpan::of(heap, saved[n - 1].pointer));
    assert(saved[i] == SavedSpan::of(heap, saved[i].pointer));
    if i < n - 1 {
        lemma_restored(cells, saved, n - 1, heap, i);
    }
}

proof fn lemma_restored_len(cells: Seq<Span>, saved: Seq<SavedSpan>, n: int)
    requires
        n <= saved.len(),
        forall|k: int| 0 <= k < saved.len() ==> (#[trigger] saved[k]).pointer.0 < cells.len(),
    ensures
        restored(cells, saved, n).len() == cells.len(),
    decreases n,
{
    if n > 0 {
        lemma_restored_len(cells, saved, n - 1);
        assert(saved[n - 1].pointer.0 < cells.len());
    }
}

/// What was put aside comes back: whatever was done to the text and its stretches
/// in between, taking up again gives the text, the stretches, and each stretch as
/// it was.
pub proof fn putting_aside_is_undone(a: InputMan, b: InputMan, c: InputMan, d: InputMan)
    requires
        a.wf(),
        a.input is Some,
        InputMan::put_aside(a, b),
        c.saved_states@ == b.saved_states@,
        c.heap.cells@.len() >= a.heap.cells@.len(),
        InputMan::taken_up(c, d),
    ensures
        d.input is Some,
        d.input->0@ == a.input->0@,
        d.spans@ == a.spans@,
        d.saved_states@ == a.saved_states@,
        forall|i: int|
            0 <= i < a.spans@.len() ==> d.heap.at(#[trigger] a.spans@[i]) == a.heap.at(a.spans@[i]),
{
    let saved = saved_of(a.heap, a.spans@, a.spans@.len() as int);
    let n = a.saved_states@.len() as int;
    assert(c.saved_states@.last().1@ == saved);
    assert(pointers(saved) =~= a.spans@);
    assert(c.saved_states@.drop_last() =~= b.saved_states@.take(n));
    assert forall|i: int| 0 <= i < a.spans@.len() implies d.heap.at(#[trigger] a.spans@[i])
        == a.heap.at(a.spans@[i]) by {
        assert forall|k: int| 0 <= k < saved.len() implies (#[trigger] saved[k]) == SavedSpan::of(
            a.heap,
            saved[k].pointer,
        ) && saved[k].pointer.0 < c.heap.cells@.len() by {
            assert(a.heap.has(a.spans@[k]));
        }
        lemma_restored(c.heap.cells@, saved, saved.len() as int, a.heap, i);
    }
}

} // verus!
