use vstd::prelude::*;

verus! {

/// The start of each of `n` consecutive records from `p`, and where the last ends,
/// when `next` gives each record's end from its start; `None` when one does not fit.
pub open spec fn walk(p: int, n: nat, next: spec_fn(int) -> Option<int>) -> Option<(Seq<int>, int)>
    decreases n,
{
    if n == 0 {
        Some((Seq::empty(), p))
    } else {
        match next(p) {
            None => None,
            Some(q) => match walk(q, (n - 1) as nat, next) {
                None => None,
                Some((starts, end)) => Some((seq![p] + starts, end)),
            },
        }
    }
}

/// `w` with `done` put before its record starts.
pub open spec fn after(done: Seq<int>, w: Option<(Seq<int>, int)>) -> Option<(Seq<int>, int)> {
    match w {
        None => None,
        Some((starts, end)) => Some((done + starts, end)),
    }
}

/// Stepping over one record: the walk from `p` is the record at `p` followed by the walk
/// from its end.
pub(crate) proof fn lemma_walk_step(done: Seq<int>, p: int, q: int, n: nat, next: spec_fn(int) -> Option<int>)
    requires
        n > 0,
        next(p) == Some(q),
    ensures
        after(done, walk(p, n, next)) == after(done.push(p), walk(q, (n - 1) as nat, next)),
{
    match walk(q, (n - 1) as nat, next) {
        None => {},
        Some((starts, end)) => {
            assert(done + (seq![p] + starts) =~= done.push(p) + starts);
        },
    }
}

/// A record that does not fit ends the walk.
pub(crate) proof fn lemma_walk_fail(done: Seq<int>, p: int, n: nat, next: spec_fn(int) -> Option<int>)
    requires
        n > 0,
        next(p) is None,
    ensures
        after(done, walk(p, n, next)) is None,
{
}

/// A finished walk gives the starts seen and the current position.
pub(crate) proof fn lemma_walk_done(done: Seq<int>, p: int, next: spec_fn(int) -> Option<int>)
    ensures
        after(done, walk(p, 0, next)) == Some((done, p)),
{
    assert(done + Seq::<int>::empty() =~= done);
}

} // verus!
