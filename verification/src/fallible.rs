//! Steps that can fail, applied to the items of a sequence in order: the
//! first failure is the failure of the whole.

use vstd::prelude::*;

verus! {

/// Applies `f` to every item in order. The outcome is the list of results,
/// or the error of the first item on which `f` fails.
pub open spec fn try_map<A, B, E>(items: Seq<A>, f: spec_fn(A) -> Result<B, E>) -> Result<
    Seq<B>,
    E,
>
    decreases items.len(),
{
    if items.len() == 0 {
        Ok(Seq::empty())
    } else {
        match try_map(items.drop_last(), f) {
            Err(e) => Err(e),
            Ok(done) => match f(items.last()) {
                Err(e) => Err(e),
                Ok(b) => Ok(done.push(b)),
            },
        }
    }
}

/// Applies `f` to every item in order and joins the lists it returns. The
/// outcome is the joined list, or the error of the first item on which `f`
/// fails.
pub open spec fn try_flat_map<A, B, E>(items: Seq<A>, f: spec_fn(A) -> Result<Seq<B>, E>)
    -> Result<Seq<B>, E>
    decreases items.len(),
{
    if items.len() == 0 {
        Ok(Seq::empty())
    } else {
        match try_flat_map(items.drop_last(), f) {
            Err(e) => Err(e),
            Ok(done) => match f(items.last()) {
                Err(e) => Err(e),
                Ok(bs) => Ok(done + bs),
            },
        }
    }
}

/// One more item: its result is appended, or its error ends the run.
pub proof fn lemma_try_map_step<A, B, E>(items: Seq<A>, f: spec_fn(A) -> Result<B, E>, i: int)
    requires
        0 <= i < items.len(),
    ensures
        try_map(items.take(i + 1), f) == match try_map(items.take(i), f) {
            Err(e) => Err(e),
            Ok(done) => match f(items[i]) {
                Err(e) => Err(e),
                Ok(b) => Ok(done.push(b)),
            },
        },
{
    assert(items.take(i + 1).drop_last() =~= items.take(i));
}

/// An error among the first `n` items is the error of the whole list.
pub proof fn lemma_try_map_err<A, B, E>(items: Seq<A>, f: spec_fn(A) -> Result<B, E>, n: int)
    requires
        0 <= n <= items.len(),
        try_map(items.take(n), f) is Err,
    ensures
        try_map(items, f) == try_map(items.take(n), f),
    decreases items.len() - n,
{
    if n < items.len() {
        lemma_try_map_step(items, f, n);
        lemma_try_map_err(items, f, n + 1);
    } else {
        assert(items.take(n) =~= items);
    }
}

/// The run succeeds exactly if `f` succeeds on every item, and then gives
/// the results in the items' order.
pub proof fn lemma_try_map_ok<A, B, E>(items: Seq<A>, f: spec_fn(A) -> Result<B, E>)
    ensures
        try_map(items, f) matches Ok(bs) ==> bs.len() == items.len() && forall|i: int|
            0 <= i < items.len() ==> f(#[trigger] items[i]) == Ok::<B, E>(bs[i]),
        (forall|i: int| 0 <= i < items.len() ==> f(#[trigger] items[i]) is Ok) ==> try_map(
            items,
            f,
        ) is Ok,
    decreases items.len(),
{
    if items.len() > 0 {
        let head = items.drop_last();
        lemma_try_map_ok(head, f);
        assert forall|i: int| 0 <= i < head.len() implies head[i] == items[i] by {}
        if forall|i: int| 0 <= i < items.len() ==> f(#[trigger] items[i]) is Ok {
            assert forall|i: int| 0 <= i < head.len() implies f(#[trigger] head[i]) is Ok by {
                assert(head[i] == items[i]);
            }
            assert(f(items[items.len() - 1]) is Ok);
        }
        if try_map(items, f) is Ok {
            let bs = try_map(items, f)->Ok_0;
            let done = try_map(head, f)->Ok_0;
            assert forall|i: int| 0 <= i < items.len() implies f(#[trigger] items[i]) == Ok::<
                B,
                E,
            >(bs[i]) by {
                if i < head.len() {
                    assert(head[i] == items[i]);
                    assert(bs[i] == done[i]);
                }
            }
        }
    }
}

/// Where the run fails, it fails with the error of the first item on
/// which `f` fails.
pub proof fn lemma_try_map_first_err<A, B, E>(items: Seq<A>, f: spec_fn(A) -> Result<B, E>)
    requires
        try_map(items, f) is Err,
    ensures
        exists|i: int|
            0 <= i < items.len() && f(#[trigger] items[i]) == Err::<B, E>(
                try_map(items, f)->Err_0,
            ) && forall|j: int| 0 <= j < i ==> f(#[trigger] items[j]) is Ok,
    decreases items.len(),
{
    let head = items.drop_last();
    if try_map(head, f) is Err {
        lemma_try_map_first_err(head, f);
        let i = choose|i: int|
            0 <= i < head.len() && f(#[trigger] head[i]) == Err::<B, E>(try_map(head, f)->Err_0)
                && forall|j: int| 0 <= j < i ==> f(#[trigger] head[j]) is Ok;
        assert(items[i] == head[i]);
        assert forall|j: int| 0 <= j < i implies f(#[trigger] items[j]) is Ok by {
            assert(items[j] == head[j]);
        }
    } else {
        lemma_try_map_ok(head, f);
        let i = items.len() - 1;
        assert forall|j: int| 0 <= j < i implies f(#[trigger] items[j]) is Ok by {
            assert(items[j] == head[j]);
        }
        assert(f(items[i]) == Err::<B, E>(try_map(items, f)->Err_0));
    }
}

/// One more item: its list is appended, or its error ends the run.
pub proof fn lemma_try_flat_map_step<A, B, E>(
    items: Seq<A>,
    f: spec_fn(A) -> Result<Seq<B>, E>,
    i: int,
)
    requires
        0 <= i < items.len(),
    ensures
        try_flat_map(items.take(i + 1), f) == match try_flat_map(items.take(i), f) {
            Err(e) => Err(e),
            Ok(done) => match f(items[i]) {
                Err(e) => Err(e),
                Ok(bs) => Ok(done + bs),
            },
        },
{
    assert(items.take(i + 1).drop_last() =~= items.take(i));
}

/// An error among the first `n` items is the error of the whole list.
pub proof fn lemma_try_flat_map_err<A, B, E>(
    items: Seq<A>,
    f: spec_fn(A) -> Result<Seq<B>, E>,
    n: int,
)
    requires
        0 <= n <= items.len(),
        try_flat_map(items.take(n), f) is Err,
    ensures
        try_flat_map(items, f) == try_flat_map(items.take(n), f),
    decreases items.len() - n,
{
    if n < items.len() {
        lemma_try_flat_map_step(items, f, n);
        lemma_try_flat_map_err(items, f, n + 1);
    } else {
        assert(items.take(n) =~= items);
    }
}

} // verus!
