//! Walks that keep the nodes still to visit on a stack: after a node come the
//! nodes it leads to, the last one first.

use vstd::prelude::*;

verus! {

/// What a walk meets below node `i` in the first `n` of the nodes it leads to,
/// the last of them first.
pub open spec fn visit_below<T>(
    len: int,
    own: spec_fn(int) -> Seq<T>,
    next: spec_fn(int) -> Seq<int>,
    i: int,
    n: int,
) -> Seq<T>
    decreases len - i, n,
{
    if n <= 0 {
        seq![]
    } else {
        let c = next(i)[n - 1];
        let met = if i < c < len {
            own(c) + visit_below(len, own, next, c, next(c).len() as int)
        } else {
            seq![]
        };
        met + visit_below(len, own, next, i, n - 1)
    }
}

/// What a walk from node `i` meets.
pub open spec fn visit<T>(
    len: int,
    own: spec_fn(int) -> Seq<T>,
    next: spec_fn(int) -> Seq<int>,
    i: int,
) -> Seq<T> {
    own(i) + visit_below(len, own, next, i, next(i).len() as int)
}

/// What is still to be met from a stack of nodes.
pub open spec fn visit_stack<T>(
    len: int,
    own: spec_fn(int) -> Seq<T>,
    next: spec_fn(int) -> Seq<int>,
    stack: Seq<int>,
) -> Seq<T>
    decreases stack.len(),
{
    if stack.len() == 0 {
        seq![]
    } else {
        visit(len, own, next, stack.last()) + visit_stack(len, own, next, stack.drop_last())
    }
}

/// One unit for every node that a walk meets.
pub open spec fn unit() -> spec_fn(int) -> Seq<()> {
    |i: int| seq![()]
}

/// The number of nodes still to be met from a stack.
pub open spec fn work(len: int, next: spec_fn(int) -> Seq<int>, stack: Seq<int>) -> nat {
    visit_stack(len, unit(), next, stack).len()
}

/// Pushing the nodes that `x` leads to puts what is below `x` first.
pub proof fn lemma_visit_push<T>(
    len: int,
    own: spec_fn(int) -> Seq<T>,
    next: spec_fn(int) -> Seq<int>,
    stack: Seq<int>,
    x: int,
    n: int,
)
    requires
        0 <= n <= next(x).len(),
        forall|k: int| 0 <= k < next(x).len() ==> x < #[trigger] next(x)[k] < len,
    ensures
        visit_stack(len, own, next, stack + next(x).take(n)) == visit_below(len, own, next, x, n)
            + visit_stack(len, own, next, stack),
    decreases n,
{
    let below = next(x).take(n);
    if n == 0 {
        assert(stack + below =~= stack);
        assert(visit_below(len, own, next, x, 0) + visit_stack(len, own, next, stack)
            =~= visit_stack(len, own, next, stack));
    } else {
        let c = next(x)[n - 1];
        assert((stack + below).drop_last() =~= stack + next(x).take(n - 1));
        assert((stack + below).last() == c);
        lemma_visit_push(len, own, next, stack, x, n - 1);
        assert(visit_stack(len, own, next, stack + below) =~= visit_below(len, own, next, x, n)
            + visit_stack(len, own, next, stack));
    }
}

/// Visiting the top of the stack: what it gives comes first, and one node
/// fewer is left to visit.
pub proof fn lemma_visit_step<T>(
    len: int,
    own: spec_fn(int) -> Seq<T>,
    next: spec_fn(int) -> Seq<int>,
    stack: Seq<int>,
)
    requires
        stack.len() > 0,
        forall|k: int|
            0 <= k < next(stack.last()).len() ==> stack.last() < #[trigger] next(stack.last())[k]
                < len,
    ensures
        visit_stack(len, own, next, stack) == own(stack.last()) + visit_stack(
            len,
            own,
            next,
            stack.drop_last() + next(stack.last()),
        ),
        work(len, next, stack) == 1 + work(len, next, stack.drop_last() + next(stack.last())),
{
    let x = stack.last();
    let rest = stack.drop_last();
    let n = next(x).len() as int;
    assert(next(x).take(n) =~= next(x));
    lemma_visit_push(len, own, next, rest, x, n);
    lemma_visit_push(len, unit(), next, rest, x, n);
    assert(visit_stack(len, own, next, stack) =~= own(x) + visit_stack(
        len,
        own,
        next,
        rest + next(x),
    ));
    assert(visit_stack(len, unit(), next, stack) =~= seq![()] + visit_stack(
        len,
        unit(),
        next,
        rest + next(x),
    ));
}

/// A stack of one node gives what a walk from it meets.
pub proof fn lemma_visit_one<T>(
    len: int,
    own: spec_fn(int) -> Seq<T>,
    next: spec_fn(int) -> Seq<int>,
    x: int,
)
    ensures
        visit_stack(len, own, next, seq![x]) == visit(len, own, next, x),
{
    assert(seq![x].drop_last() =~= seq![]);
    assert(visit_stack(len, own, next, seq![]) =~= seq![]);
    assert(visit_stack(len, own, next, seq![x]) =~= visit(len, own, next, x));
}

} // verus!
