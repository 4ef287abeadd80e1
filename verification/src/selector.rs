//! Which elements of a sequence a count keeps.
//!
//! An element sequence is a sequence of `Result`s: producing an element may
//! fail, and a failed element is passed over. Of the elements that were
//! produced, `Positive(n)` keeps the first `n` and `Negative(n)` keeps all but
//! the last `n`.

use crate::options::SignedUsize;
use vstd::math::{max, min};
use vstd::prelude::*;

verus! {

/// The elements that were produced: the `Ok` values of `elements`, in order.
pub open spec fn successes<T, E>(elements: Seq<Result<T, E>>) -> Seq<T>
    decreases elements.len(),
{
    if elements.len() == 0 {
        Seq::empty()
    } else {
        match elements.last() {
            Ok(item) => successes(elements.drop_last()).push(item),
            Err(_) => successes(elements.drop_last()),
        }
    }
}

/// How many of `len` elements the count keeps.
pub open spec fn kept_len(count: SignedUsize, len: nat) -> nat {
    match count {
        SignedUsize::Positive(n) => if n <= len { n as nat } else { len },
        SignedUsize::Negative(n) => if n <= len { (len - n) as nat } else { 0 },
    }
}

/// The elements of `items` that the count keeps: always a prefix.
pub open spec fn selected<T>(count: SignedUsize, items: Seq<T>) -> Seq<T> {
    items.take(kept_len(count, items.len()) as int)
}

/// Of `L` elements, `Positive(n)` keeps the first `min(n, L)` and
/// `Negative(n)` the first `max(L - n, 0)`, each as it was and in its place.
pub proof fn lemma_selected_prefix<T>(count: SignedUsize, items: Seq<T>)
    ensures
        count matches SignedUsize::Positive(n) ==> selected(count, items) == items.take(
            min(n as int, items.len() as int),
        ),
        count matches SignedUsize::Negative(n) ==> selected(count, items) == items.take(
            max(items.len() - n, 0),
        ),
        selected(count, items).len() <= items.len(),
        forall|i: int|
            0 <= i < selected(count, items).len() ==> #[trigger] selected(count, items)[i]
                == items[i],
{
}

/// Selecting the first `n` elements from what `Positive(n)` has selected
/// changes nothing, and neither does any count that is not less than the
/// number of elements selected.
pub proof fn lemma_reselect<T>(n: usize, again: usize, items: Seq<T>)
    requires
        again >= selected(SignedUsize::Positive(n), items).len(),
    ensures
        selected(SignedUsize::Positive(n), selected(SignedUsize::Positive(n), items)) == selected(
            SignedUsize::Positive(n),
            items,
        ),
        selected(SignedUsize::Positive(again), selected(SignedUsize::Positive(n), items))
            == selected(SignedUsize::Positive(n), items),
{
    let once = selected(SignedUsize::Positive(n), items);
    assert(selected(SignedUsize::Positive(n), once) =~= once);
    assert(selected(SignedUsize::Positive(again), once) =~= once);
}

/// True when elements offered to a selector that holds `held` elements
/// would no longer change what it holds.
pub open spec fn is_full(count: SignedUsize, held: nat) -> bool {
    count matches SignedUsize::Positive(n) && held >= n
}

/// What a selector holds after it was offered `element` while holding `held`.
pub open spec fn step<T, E>(count: SignedUsize, held: Seq<T>, element: Result<T, E>) -> Seq<T> {
    if is_full(count, held.len()) {
        held
    } else {
        match element {
            Ok(item) => held.push(item),
            Err(_) => held,
        }
    }
}

/// What a selector that held `held` holds after it was offered `elements`
/// one after the other.
pub open spec fn fed<T, E>(count: SignedUsize, held: Seq<T>, elements: Seq<Result<T, E>>) -> Seq<T>
    decreases elements.len(),
{
    if elements.len() == 0 {
        held
    } else {
        step(count, fed(count, held, elements.drop_last()), elements.last())
    }
}

/// The items as an element sequence in which nothing failed.
pub open spec fn as_elements<T, E>(items: Seq<T>) -> Seq<Result<T, E>> {
    items.map_values(|item: T| Ok::<T, E>(item))
}

/// A selection in progress: elements are offered one at a time, in order.
///
/// Under `Positive(n)` the selector holds at most `n` elements and says when
/// it needs no more, so that a reader can stop early. Under `Negative(n)` it
/// holds every element that was produced until [`Selector::finish`].
pub struct Selector<T> {
    count: SignedUsize,
    held: Vec<T>,
}

impl<T> Selector<T> {
    /// The count that the selector applies.
    pub closed spec fn count(&self) -> SignedUsize {
        self.count
    }

    /// The elements that the selector holds.
    pub closed spec fn held(&self) -> Seq<T> {
        self.held@
    }

    /// A selector that holds nothing yet.
    pub fn new(count: SignedUsize) -> (selector: Self)
        ensures
            selector.count() == count,
            selector.held() == Seq::<T>::empty(),
    {
        Selector { count, held: Vec::new() }
    }

    /// Says whether a further element could still change the selection.
    pub fn wants_more(&self) -> (more: bool)
        ensures
            more == !is_full(self.count(), self.held().len()),
    {
        match self.count {
            SignedUsize::Positive(n) => self.held.len() < n,
            SignedUsize::Negative(_) => true,
        }
    }

    /// Takes the next element of the sequence, and says whether a further
    /// one is wanted. A failed element and one that comes after the
    /// selection is full are dropped.
    pub fn offer<E>(&mut self, element: Result<T, E>) -> (more: bool)
        ensures
            final(self).count() == old(self).count(),
            final(self).held() == step(old(self).count(), old(self).held(), element),
            more == !is_full(final(self).count(), final(self).held().len()),
    {
        if self.wants_more() {
            match element {
                Ok(item) => {
                    self.held.push(item);
                },
                Err(_) => {},
            }
        }
        self.wants_more()
    }

    /// Ends the reading and hands out the elements held, as an element
    /// sequence of its own. Selecting from it gives what selecting from all
    /// the elements offered gives: see [`lemma_drained_selects`].
    pub fn into_elements<E>(self) -> (elements: Vec<Result<T, E>>)
        ensures
            elements@ == as_elements::<T, E>(self.held()),
    {
        let ghost held = self.held@;
        let mut elements: Vec<Result<T, E>> = Vec::new();
        for item in it: self.held
            invariant
                it.seq() == held,
                elements@ == as_elements::<T, E>(held.take(it.index() as int)),
        {
            proof {
                assert(as_elements::<T, E>(held.take(it.index() + 1)) =~= as_elements::<T, E>(
                    held.take(it.index() as int),
                ).push(Ok(item)));
            }
            elements.push(Ok(item));
        }
        proof {
            assert(held.take(held.len() as int) =~= held);
        }
        elements
    }

    /// Ends the selection and hands out what the count keeps of the elements
    /// held.
    pub fn finish(self) -> (items: Vec<T>)
        ensures
            items@ == selected(self.count(), self.held()),
    {
        let mut items = self.held;
        match self.count {
            SignedUsize::Positive(n) => {
                items.truncate(n);
            },
            SignedUsize::Negative(n) => {
                let len: usize = items.len();
                let keep: usize = if n <= len { len - n } else { 0 };
                items.truncate(keep);
            },
        }
        proof {
            assert(items@ =~= selected(self.count(), self.held()));
        }
        items
    }
}

/// Offering the elements one by one selects what the count keeps of the
/// elements that were produced.
pub proof fn lemma_fed_selects<T, E>(count: SignedUsize, elements: Seq<Result<T, E>>)
    ensures
        fed(count, Seq::<T>::empty(), elements) == (match count {
            SignedUsize::Positive(_) => selected(count, successes(elements)),
            SignedUsize::Negative(_) => successes(elements),
        }),
        selected(count, fed(count, Seq::<T>::empty(), elements)) == selected(
            count,
            successes(elements),
        ),
    decreases elements.len(),
{
    if elements.len() > 0 {
        lemma_fed_selects(count, elements.drop_last());
        let before = successes(elements.drop_last());
        let held = fed(count, Seq::<T>::empty(), elements.drop_last());
        match count {
            SignedUsize::Positive(n) => {
                assert(held == before.take(kept_len(count, before.len()) as int));
                match elements.last() {
                    Ok(item) => {
                        if !is_full(count, held.len()) {
                            assert(held =~= before);
                            assert(before.push(item).take(held.len() as int + 1) =~= held.push(item));
                        } else {
                            assert(before.push(item).take(n as int) =~= before.take(n as int));
                        }
                    },
                    Err(_) => {},
                }
            },
            SignedUsize::Negative(_) => {},
        }
    }
    let all = fed(count, Seq::<T>::empty(), elements);
    assert(selected(count, all) =~= selected(count, successes(elements)));
}

/// Nothing is passed over in an element sequence in which nothing failed.
pub proof fn lemma_successes_of_items<T, E>(items: Seq<T>)
    ensures
        successes(as_elements::<T, E>(items)) == items,
    decreases items.len(),
{
    let elements = as_elements::<T, E>(items);
    if items.len() > 0 {
        lemma_successes_of_items::<T, E>(items.drop_last());
        assert(elements.drop_last() =~= as_elements::<T, E>(items.drop_last()));
        assert(successes(elements) =~= items);
    } else {
        assert(successes(elements) =~= items);
    }
}

/// A reader may stop as soon as the selector wants no more: what the selector
/// then holds selects the same as the whole sequence, however it goes on.
pub proof fn lemma_drained_selects<T, E>(count: SignedUsize, elements: Seq<Result<T, E>>)
    ensures
        selected(
            count,
            successes(as_elements::<T, E>(fed(count, Seq::<T>::empty(), elements))),
        ) == selected(count, successes(elements)),
{
    lemma_successes_of_items::<T, E>(fed(count, Seq::<T>::empty(), elements));
    lemma_fed_selects(count, elements);
}

/// Elements that come after the selector is full change nothing: neither
/// what it holds, nor what the count keeps of the whole sequence.
pub proof fn lemma_early_stop<T, E>(
    count: SignedUsize,
    read: Seq<Result<T, E>>,
    rest: Seq<Result<T, E>>,
)
    requires
        is_full(count, fed(count, Seq::<T>::empty(), read).len()),
    ensures
        fed(count, Seq::<T>::empty(), read + rest) == fed(count, Seq::<T>::empty(), read),
        selected(count, successes(read + rest)) == selected(count, successes(read)),
    decreases rest.len(),
{
    if rest.len() == 0 {
        assert(read + rest =~= read);
    } else {
        lemma_early_stop(count, read, rest.drop_last());
        assert((read + rest).drop_last() =~= read + rest.drop_last());
    }
    lemma_fed_selects(count, read + rest);
    lemma_fed_selects(count, read);
}

/// Selects from a whole element sequence at once.
pub fn select<T, E>(count: SignedUsize, elements: Vec<Result<T, E>>) -> (items: Vec<T>)
    ensures
        items@ == selected(count, successes(elements@)),
{
    let ghost all = elements@;
    let mut selector = Selector::new(count);
    for element in it: elements
        invariant
            it.seq() == all,
            selector.count() == count,
            selector.held() == fed(count, Seq::<T>::empty(), all.take(it.index() as int)),
    {
        proof {
            assert(all.take(it.index() + 1).drop_last() =~= all.take(it.index() as int));
        }
        selector.offer(element);
    }
    proof {
        assert(all.take(all.len() as int) =~= all);
        lemma_fed_selects(count, all);
    }
    selector.finish()
}

} // verus!
