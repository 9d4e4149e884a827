//! Running a sequence of hooks over a value, each hook on what the one before returned.

use vstd::prelude::*;

verus! {

/// `values` records a run of `hooks`: hook `i` turned `values[i]` into `values[i + 1]`.
pub open spec fn steps<A, F: FnMut(A) -> A>(hooks: Seq<F>, values: Seq<A>) -> bool {
    &&& values.len() == hooks.len() + 1
    &&& forall|i: int|
        0 <= i < hooks.len() ==> call_ensures(#[trigger] hooks[i], (values[i],), values[i + 1])
}

/// Running `hooks` in order on `input` can give `output`.
pub open spec fn applied<A, F: FnMut(A) -> A>(hooks: Seq<F>, input: A, output: A) -> bool {
    exists|values: Seq<A>| #[trigger] steps(hooks, values) && values[0] == input && values.last() == output
}

/// A hook that may be called on any value.
pub open spec fn accepts_any<A, F: FnMut(A) -> A>(hook: F) -> bool {
    forall|x: A| #[trigger] call_requires(hook, (x,))
}

/// Every hook of `hooks` may be called on any value.
pub open spec fn all_accept_any<A, F: FnMut(A) -> A>(hooks: Seq<F>) -> bool {
    forall|i: int| 0 <= i < hooks.len() ==> accepts_any(#[trigger] hooks[i])
}

/// No hooks leave the value as it is.
pub proof fn lemma_applied_empty<A, F: FnMut(A) -> A>(input: A)
    ensures
        applied(Seq::<F>::empty(), input, input),
{
    assert(steps(Seq::<F>::empty(), seq![input]));
}

/// No hooks give back the value they were given, and nothing else.
pub proof fn lemma_applied_empty_is_identity<A, F: FnMut(A) -> A>(input: A, output: A)
    requires
        applied(Seq::<F>::empty(), input, output),
    ensures
        output == input,
{
    let v = choose|values: Seq<A>| #[trigger] steps(Seq::<F>::empty(), values) && values[0] == input && values.last() == output;
    assert(v.len() == 1);
}

/// A run of the concatenation of two lists of hooks passes, between the two,
/// through a value that the first list gives and the second starts from.
pub proof fn lemma_applied_split<A, F: FnMut(A) -> A>(first: Seq<F>, second: Seq<F>, input: A, output: A)
    requires
        applied(first + second, input, output),
    ensures
        exists|mid: A| #[trigger] applied(first, input, mid) && applied(second, mid, output),
{
    let hs = first + second;
    let v = choose|values: Seq<A>| #[trigger] steps(hs, values) && values[0] == input && values.last() == output;
    let n = first.len() as int;
    let v1 = v.take(n + 1);
    let v2 = v.skip(n);
    assert forall|i: int| 0 <= i < first.len() implies call_ensures(#[trigger] first[i], (v1[i],), v1[i + 1]) by {
        assert(hs[i] == first[i]);
    }
    assert(steps(first, v1));
    assert forall|i: int| 0 <= i < second.len() implies call_ensures(#[trigger] second[i], (v2[i],), v2[i + 1]) by {
        assert(hs[n + i] == second[i]);
    }
    assert(steps(second, v2));
    assert(applied(first, input, v[n]));
    assert(applied(second, v[n], output));
}

/// Running two lists of hooks one after the other is running their concatenation.
pub proof fn lemma_applied_concat<A, F: FnMut(A) -> A>(
    first: Seq<F>,
    second: Seq<F>,
    input: A,
    mid: A,
    output: A,
)
    requires
        applied(first, input, mid),
        applied(second, mid, output),
    ensures
        applied(first + second, input, output),
{
    let v1 = choose|values: Seq<A>| #[trigger] steps(first, values) && values[0] == input && values.last() == mid;
    let v2 = choose|values: Seq<A>| #[trigger] steps(second, values) && values[0] == mid && values.last() == output;
    let v = v1 + v2.drop_first();
    let hs = first + second;
    assert forall|i: int| 0 <= i < hs.len() implies call_ensures(#[trigger] hs[i], (v[i],), v[i + 1]) by {
        if i < first.len() {
            assert(hs[i] == first[i]);
            if i + 1 < v1.len() {
                assert(v[i + 1] == v1[i + 1]);
            } else {
                assert(v[i + 1] == v2[0]);
            }
        } else {
            let k = i - first.len();
            assert(hs[i] == second[k]);
            if k == 0 {
                assert(v[i] == v1.last());
            } else {
                assert(v[i] == v2[k]);
            }
            assert(v[i + 1] == v2[k + 1]);
        }
    }
    assert(steps(hs, v));
}

/// A hook added at the end of a list runs last: running the longer list is
/// running the list as it was, then the added hook on what the list gave.
pub proof fn lemma_applied_push<A, F: FnMut(A) -> A>(hooks: Seq<F>, hook: F, input: A, output: A)
    ensures
        applied(hooks.push(hook), input, output) <==> exists|mid: A| #[trigger] applied(hooks, input, mid) && call_ensures(hook, (mid,), output),
{
    let single = seq![hook];
    assert(hooks.push(hook) =~= hooks + single);
    if applied(hooks.push(hook), input, output) {
        lemma_applied_split(hooks, single, input, output);
        let mid = choose|mid: A| #[trigger] applied(hooks, input, mid) && applied(single, mid, output);
        let v = choose|values: Seq<A>| #[trigger] steps(single, values) && values[0] == mid && values.last() == output;
        assert(single[0] == hook);
        assert(call_ensures(hook, (mid,), output));
    }
    if exists|mid: A| #[trigger] applied(hooks, input, mid) && call_ensures(hook, (mid,), output) {
        let mid = choose|mid: A| #[trigger] applied(hooks, input, mid) && call_ensures(hook, (mid,), output);
        let v = seq![mid, output];
        assert(single[0] == hook);
        assert(steps(single, v));
        assert(applied(single, mid, output));
        lemma_applied_concat(hooks, single, input, mid, output);
    }
}

/// Runs `hooks` in order on `data`, each on what the one before returned.
pub fn run_hooks<A, F: FnMut(A) -> A>(hooks: &mut Vec<F>, data: A) -> (r: A)
    requires
        all_accept_any(old(hooks)@),
    ensures
        final(hooks)@ == old(hooks)@,
        applied(old(hooks)@, data, r),
{
    let ghost hs = hooks@;
    let ghost start = data;
    let mut data = data;
    let n = hooks.len();
    let mut i: usize = 0;
    let ghost mut values: Seq<A> = seq![data];
    while i < n
        invariant
            i <= n,
            n == hooks.len(),
            hooks@ == hs,
            all_accept_any(hs),
            steps(hs.take(i as int), values),
            values[0] == start,
            values.last() == data,
        decreases n - i,
    {
        assert(accepts_any(hs[i as int]));
        let h = &mut hooks[i];
        data = h(data);
        proof {
            values = values.push(data);
            assert forall|k: int| 0 <= k < i + 1 implies call_ensures(
                #[trigger] hs.take(i + 1)[k],
                (values[k],),
                values[k + 1],
            ) by {
                if k < i {
                    assert(hs.take(i as int)[k] == hs.take(i + 1)[k]);
                }
            }
        }
        i += 1;
    }
    assert(hs.take(n as int) =~= hs);
    data
}

} // verus!
