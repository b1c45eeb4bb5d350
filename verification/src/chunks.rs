//! Cutting a stream of things into batches.

use vstd::prelude::*;

verus! {

/// The sequences `parts`, one after the other.
pub open spec fn concat<T>(parts: Seq<Seq<T>>) -> Seq<T>
    decreases parts.len(),
{
    if parts.len() == 0 {
        Seq::empty()
    } else {
        concat(parts.drop_last()) + parts.last()
    }
}

proof fn lemma_concat_push<T>(parts: Seq<Seq<T>>, part: Seq<T>)
    ensures
        concat(parts.push(part)) == concat(parts) + part,
{
    assert(parts.push(part).drop_last() =~= parts);
}

/// Whether `parts` cut `xs` into batches of `size`, of which only the last may be shorter, and
/// none is empty.
pub open spec fn is_chunking<T>(parts: Seq<Seq<T>>, xs: Seq<T>, size: nat) -> bool {
    &&& concat(parts) == xs
    &&& forall|k: int| 0 <= k < parts.len() ==> 0 < (#[trigger] parts[k]).len() <= size
    &&& forall|k: int| 0 <= k < parts.len() - 1 ==> (#[trigger] parts[k]).len() == size
}

/// Adds one thing to the batch at hand: a batch of `size` is full, and is handed out.
pub open spec fn chunk_step<T>(held: Seq<T>, size: nat, x: T) -> (Option<Seq<T>>, Seq<T>) {
    if held.len() + 1 >= size {
        (Some(held.push(x)), Seq::empty())
    } else {
        (None, held.push(x))
    }
}

/// The batches that are handed out while the things `xs` come in, and what is left at hand.
pub open spec fn chunk_run<T>(size: nat, xs: Seq<T>) -> (Seq<Seq<T>>, Seq<T>)
    decreases xs.len(),
{
    if xs.len() == 0 {
        (Seq::empty(), Seq::empty())
    } else {
        let (full, held) = chunk_run(size, xs.drop_last());
        match chunk_step(held, size, xs.last()) {
            (Some(batch), rest) => (full.push(batch), rest),
            (None, rest) => (full, rest),
        }
    }
}

/// Batching loses nothing and keeps the order: the full batches and what is left at hand, one
/// after the other, are all that came in. Every batch is full, and what is left would not fill
/// one.
pub proof fn batching_keeps_everything<T>(size: nat, xs: Seq<T>)
    requires
        size > 0,
    ensures
        concat(chunk_run(size, xs).0) + chunk_run(size, xs).1 == xs,
        forall|k: int|
            0 <= k < chunk_run(size, xs).0.len() ==> (#[trigger] chunk_run(size, xs).0[k]).len()
                == size,
        chunk_run(size, xs).1.len() < size,
    decreases xs.len(),
{
    if xs.len() > 0 {
        batching_keeps_everything(size, xs.drop_last());
        let (full, held) = chunk_run(size, xs.drop_last());
        assert(concat(full) + held.push(xs.last()) =~= xs.drop_last().push(xs.last()));
        assert(xs.drop_last().push(xs.last()) =~= xs);
        if held.len() + 1 >= size {
            lemma_concat_push(full, held.push(xs.last()));
            assert(xs + Seq::empty() =~= xs);
        }
    } else {
        assert(concat(chunk_run(size, xs).0) + chunk_run(size, xs).1 =~= xs);
    }
}

/// The things `xs` in batches of `size`: the full ones, and what is left, if anything is.
pub open spec fn chunks_of<T>(xs: Seq<T>, size: nat) -> Seq<Seq<T>> {
    let (full, rest) = chunk_run(size, xs);
    if rest.len() == 0 {
        full
    } else {
        full.push(rest)
    }
}

/// A list in batches is the list again when the batches are put together. Only the last batch may
/// be shorter than the others, and none is empty.
pub proof fn chunks_make_up_the_list<T>(xs: Seq<T>, size: nat)
    requires
        size > 0,
    ensures
        is_chunking(chunks_of(xs, size), xs, size),
{
    batching_keeps_everything(size, xs);
    let (full, rest) = chunk_run(size, xs);
    if rest.len() == 0 {
        assert(concat(full) + rest =~= concat(full));
    } else {
        lemma_concat_push(full, rest);
    }
}

/// Collects things into batches of a fixed size.
pub struct Chunker<T> {
    size: usize,
    held: Vec<T>,
}

impl<T> Chunker<T> {
    /// The size of a full batch.
    pub closed spec fn size(&self) -> nat {
        self.size as nat
    }

    /// The things that wait for a full batch.
    pub closed spec fn held(&self) -> Seq<T> {
        self.held@
    }

    /// What is at hand would not fill a batch.
    pub open spec fn wf(&self) -> bool {
        self.held().len() < self.size()
    }

    /// Starts with nothing at hand.
    pub fn new(size: usize) -> (r: Self)
        requires
            size > 0,
        ensures
            r.wf(),
            r.size() == size,
            r.held() == Seq::<T>::empty(),
    {
        Chunker { size, held: Vec::new() }
    }

    /// Adds a thing. Hands a batch out when it is full.
    pub fn push(&mut self, x: T) -> (r: Option<Vec<T>>)
        requires
            old(self).wf(),
        ensures
            final(self).wf(),
            final(self).size() == old(self).size(),
            final(self).held() == chunk_step(old(self).held(), old(self).size(), x).1,
            match r {
                Some(batch) => chunk_step(old(self).held(), old(self).size(), x).0 == Some(batch@),
                None => chunk_step(old(self).held(), old(self).size(), x).0 is None,
            },
    {
        self.held.push(x);
        if self.held.len() >= self.size {
            let mut batch: Vec<T> = Vec::new();
            batch.append(&mut self.held);
            assert(batch@ =~= old(self).held().push(x));
            assert(self.held@ =~= Seq::empty());
            Some(batch)
        } else {
            None
        }
    }

    /// Hands out what is left at hand.
    pub fn finish(self) -> (r: Option<Vec<T>>)
        ensures
            match r {
                Some(batch) => self.held().len() > 0 && batch@ == self.held(),
                None => self.held().len() == 0,
            },
    {
        if self.held.len() == 0 {
            None
        } else {
            Some(self.held)
        }
    }
}

/// The contents of batches.
pub open spec fn parts_view<T>(parts: Seq<Vec<T>>) -> Seq<Seq<T>> {
    parts.map_values(|p: Vec<T>| p@)
}

/// Cuts a list into batches of `size`.
pub fn split_chunks<T>(items: Vec<T>, size: usize) -> (r: Vec<Vec<T>>)
    requires
        size > 0,
    ensures
        parts_view(r@) == chunks_of(items@, size as nat),
{
    let mut parts: Vec<Vec<T>> = Vec::new();
    let mut chunker: Chunker<T> = Chunker::new(size);
    let ghost all = items@;
    for x in it: items
        invariant
            it.seq() == all,
            chunker.wf(),
            chunker.size() == size,
            (parts_view(parts@), chunker.held()) == chunk_run(
                size as nat,
                all.take(it.index()),
            ),
    {
        let ghost before = parts_view(parts@);
        proof {
            assert(all.take(it.index() + 1).drop_last() =~= all.take(it.index()));
            assert(all.take(it.index() + 1).last() == x);
        }
        if let Some(batch) = chunker.push(x) {
            parts.push(batch);
            assert(parts_view(parts@) =~= before.push(batch@));
        }
    }
    assert(all.take(all.len() as int) =~= all);
    let ghost full = parts_view(parts@);
    if let Some(batch) = chunker.finish() {
        parts.push(batch);
        assert(parts_view(parts@) =~= full.push(batch@));
    }
    parts
}

/// Batches stand for what they hold, one by one.
pub proof fn batches_stand_for_what_they_hold<T>(parts: Seq<Vec<T>>)
    ensures
        parts_view(parts).len() == parts.len(),
        forall|k: int| 0 <= k < parts.len() ==> #[trigger] parts_view(parts)[k] == parts[k]@,
{
}

} // verus!
