//! What a hook server answers to each of Dredd's messages, stage by stage,
//! stated over the hooks it holds.

use vstd::prelude::*;
use crate::event::EventType;
use crate::fold::{applied, lemma_applied_empty_is_identity, lemma_applied_push, steps};
use crate::hooks::{dispatched, DispatchError, HookMessage, HooksView, MultiTransaction, SingleTransaction};
use crate::json::{transaction_name, Transaction};
use crate::named::{hooks_named, lemma_named_hook_isolated, with_named_hook};

verus! {

/// `r` answers the message `t` about all transactions with `data`, keeping the
/// message's event and uuid.
pub open spec fn answers_all(t: MultiTransaction, r: Result<HookMessage, DispatchError>, data: Vec<Transaction>) -> bool {
    r matches Ok(HookMessage::All(o)) && o.event == t.event && o.uuid == t.uuid && o.data == data
}

/// `r` answers the message `t` about a single transaction with `data`, keeping
/// the message's event and uuid.
pub open spec fn answers_each(t: SingleTransaction, r: Result<HookMessage, DispatchError>, data: Transaction) -> bool {
    r matches Ok(HookMessage::Each(o)) && o.event == t.event && o.uuid == t.uuid && o.data == data
}

/// A list of hooks made of one hook turns a value into what that hook returns on it.
proof fn lemma_applied_one<A, F: FnMut(A) -> A>(h: F, input: A, output: A)
    requires
        applied(seq![h], input, output),
    ensures
        call_ensures(h, (input,), output),
{
    assert(seq![h] =~= Seq::<F>::empty().push(h));
    lemma_applied_push(Seq::<F>::empty(), h, input, output);
    let mid = choose|mid: A| #[trigger] applied(Seq::<F>::empty(), input, mid) && call_ensures(h, (mid,), output);
    lemma_applied_empty_is_identity::<A, F>(input, mid);
}

/// `beforeAll` runs every hook registered with `before_all`, in the order of
/// registration, each on what the one before returned: hook `i` turns
/// `values[i]` into `values[i + 1]`, from the message's data to the answer's.
pub proof fn law_before_all_runs_every_hook<M, S>(v: HooksView<M, S>, t: MultiTransaction, r: Result<HookMessage, DispatchError>)
    where
        M: FnMut(Vec<Transaction>) -> Vec<Transaction>,
        S: FnMut(Transaction) -> Transaction,
    requires
        t.event == EventType::BeforeAll,
        dispatched(v, HookMessage::All(t), r),
    ensures
        exists|values: Seq<Vec<Transaction>>|
            {
                &&& values.len() == v.before_all.len() + 1
                &&& values[0] == t.data
                &&& #[trigger] answers_all(t, r, values.last())
                &&& forall|i: int| 0 <= i < v.before_all.len() ==> call_ensures(#[trigger] v.before_all[i], (values[i],), values[i + 1])
            },
{
    let o = r->Ok_0->All_0;
    let values = choose|values: Seq<Vec<Transaction>>| #[trigger] steps(v.before_all, values) && values[0] == t.data && values.last() == o.data;
    assert(answers_all(t, r, values.last()));
}

/// `afterAll` runs every hook registered with `after_all`, in the order of
/// registration, each on what the one before returned: hook `i` turns
/// `values[i]` into `values[i + 1]`, from the message's data to the answer's.
pub proof fn law_after_all_runs_every_hook<M, S>(v: HooksView<M, S>, t: MultiTransaction, r: Result<HookMessage, DispatchError>)
    where
        M: FnMut(Vec<Transaction>) -> Vec<Transaction>,
        S: FnMut(Transaction) -> Transaction,
    requires
        t.event == EventType::AfterAll,
        dispatched(v, HookMessage::All(t), r),
    ensures
        exists|values: Seq<Vec<Transaction>>|
            {
                &&& values.len() == v.after_all.len() + 1
                &&& values[0] == t.data
                &&& #[trigger] answers_all(t, r, values.last())
                &&& forall|i: int| 0 <= i < v.after_all.len() ==> call_ensures(#[trigger] v.after_all[i], (values[i],), values[i + 1])
            },
{
    let o = r->Ok_0->All_0;
    let values = choose|values: Seq<Vec<Transaction>>| #[trigger] steps(v.after_all, values) && values[0] == t.data && values.last() == o.data;
    assert(answers_all(t, r, values.last()));
}

/// The hook registered last with `before_all` runs last on `beforeAll`: on
/// what the hooks registered before it gave.
pub proof fn law_before_all_last_runs_last<M, S>(v: HooksView<M, S>, h: M, t: MultiTransaction, r: Result<HookMessage, DispatchError>)
    where
        M: FnMut(Vec<Transaction>) -> Vec<Transaction>,
        S: FnMut(Transaction) -> Transaction,
    requires
        t.event == EventType::BeforeAll,
        dispatched(HooksView { before_all: v.before_all.push(h), ..v }, HookMessage::All(t), r),
    ensures
        exists|mid: Vec<Transaction>, out: Vec<Transaction>|
            #![trigger applied(v.before_all, t.data, mid), answers_all(t, r, out)]
            applied(v.before_all, t.data, mid) && call_ensures(h, (mid,), out) && answers_all(t, r, out),
{
    let o = r->Ok_0->All_0;
    lemma_applied_push(v.before_all, h, t.data, o.data);
    let mid = choose|mid: Vec<Transaction>| #[trigger] applied(v.before_all, t.data, mid) && call_ensures(h, (mid,), o.data);
    assert(answers_all(t, r, o.data));
}

/// The hook registered last with `after_all` runs last on `afterAll`: on what
/// the hooks registered before it gave.
pub proof fn law_after_all_last_runs_last<M, S>(v: HooksView<M, S>, h: M, t: MultiTransaction, r: Result<HookMessage, DispatchError>)
    where
        M: FnMut(Vec<Transaction>) -> Vec<Transaction>,
        S: FnMut(Transaction) -> Transaction,
    requires
        t.event == EventType::AfterAll,
        dispatched(HooksView { after_all: v.after_all.push(h), ..v }, HookMessage::All(t), r),
    ensures
        exists|mid: Vec<Transaction>, out: Vec<Transaction>|
            #![trigger applied(v.after_all, t.data, mid), answers_all(t, r, out)]
            applied(v.after_all, t.data, mid) && call_ensures(h, (mid,), out) && answers_all(t, r, out),
{
    let o = r->Ok_0->All_0;
    lemma_applied_push(v.after_all, h, t.data, o.data);
    let mid = choose|mid: Vec<Transaction>| #[trigger] applied(v.after_all, t.data, mid) && call_ensures(h, (mid,), o.data);
    assert(answers_all(t, r, o.data));
}

/// With two hooks registered with `before_all`, first `h1` then `h2`,
/// `beforeAll` answers with what `h2` returns on what `h1` returned on the
/// message's data.
pub proof fn law_two_before_all_hooks<M, S>(v: HooksView<M, S>, h1: M, h2: M, t: MultiTransaction, r: Result<HookMessage, DispatchError>)
    where
        M: FnMut(Vec<Transaction>) -> Vec<Transaction>,
        S: FnMut(Transaction) -> Transaction,
    requires
        t.event == EventType::BeforeAll,
        v.before_all == seq![h1, h2],
        dispatched(v, HookMessage::All(t), r),
    ensures
        exists|mid: Vec<Transaction>, out: Vec<Transaction>|
            #![trigger call_ensures(h1, (t.data,), mid), answers_all(t, r, out)]
            call_ensures(h1, (t.data,), mid) && call_ensures(h2, (mid,), out) && answers_all(t, r, out),
{
    let o = r->Ok_0->All_0;
    assert(v.before_all =~= seq![h1].push(h2));
    lemma_applied_push(seq![h1], h2, t.data, o.data);
    let mid = choose|mid: Vec<Transaction>| #[trigger] applied(seq![h1], t.data, mid) && call_ensures(h2, (mid,), o.data);
    lemma_applied_one(h1, t.data, mid);
    assert(answers_all(t, r, o.data));
}

/// `beforeEach` first runs the hooks registered with `before_each` on the
/// message's transaction. When what they give has no name, the message is
/// refused with `MissingName`; otherwise the hooks registered with `before`
/// under that name run on it, and give the answer's transaction.
pub proof fn law_before_each_runs_general_then_named<M, S>(
    v: HooksView<M, S>,
    t: SingleTransaction,
    r: Result<HookMessage, DispatchError>,
)
    where
        M: FnMut(Vec<Transaction>) -> Vec<Transaction>,
        S: FnMut(Transaction) -> Transaction,
    requires
        t.event == EventType::BeforeEach,
        dispatched(v, HookMessage::Each(t), r),
    ensures
        exists|mid: Transaction|
            {
                &&& #[trigger] applied(v.before_each, t.data, mid)
                &&& transaction_name(mid) is None ==> r == Err::<HookMessage, DispatchError>(DispatchError::MissingName)
                &&& transaction_name(mid) is Some ==> exists|out: Transaction|
                    #[trigger] applied(hooks_named(v.before, transaction_name(mid)->0), mid, out) && answers_each(t, r, out)
            },
{
    let a = match r {
        Ok(HookMessage::Each(o)) => Ok::<SingleTransaction, DispatchError>(o),
        Err(e) => Err::<SingleTransaction, DispatchError>(e),
        _ => Err::<SingleTransaction, DispatchError>(DispatchError::MissingName),
    };
    let mid = choose|mid: Transaction| #[trigger] applied(v.before_each, t.data, mid) && crate::hooks::ran_named(v.before, t, mid, a);
    if transaction_name(mid) is Some {
        let name = transaction_name(mid)->0;
        let out = choose|out: Transaction| #[trigger] applied(hooks_named(v.before, name), mid, out) && crate::hooks::answered_with(t, a, out);
        assert(answers_each(t, r, out));
    }
}

/// `beforeEachValidation` first runs the hooks registered with
/// `before_each_validation` on the message's transaction. When what they give
/// has no name, the message is refused with `MissingName`; otherwise the hooks
/// registered with `before_validation` under that name run on it, whatever the
/// `before_each_validation` list holds, and give the answer's transaction.
pub proof fn law_before_each_validation_runs_general_then_named<M, S>(
    v: HooksView<M, S>,
    t: SingleTransaction,
    r: Result<HookMessage, DispatchError>,
)
    where
        M: FnMut(Vec<Transaction>) -> Vec<Transaction>,
        S: FnMut(Transaction) -> Transaction,
    requires
        t.event == EventType::BeforeEachValidation,
        dispatched(v, HookMessage::Each(t), r),
    ensures
        exists|mid: Transaction|
            {
                &&& #[trigger] applied(v.before_each_validation, t.data, mid)
                &&& transaction_name(mid) is None ==> r == Err::<HookMessage, DispatchError>(DispatchError::MissingName)
                &&& transaction_name(mid) is Some ==> exists|out: Transaction|
                    #[trigger] applied(hooks_named(v.before_validation, transaction_name(mid)->0), mid, out) && answers_each(t, r, out)
            },
{
    let a = match r {
        Ok(HookMessage::Each(o)) => Ok::<SingleTransaction, DispatchError>(o),
        Err(e) => Err::<SingleTransaction, DispatchError>(e),
        _ => Err::<SingleTransaction, DispatchError>(DispatchError::MissingName),
    };
    let mid = choose|mid: Transaction| #[trigger] applied(v.before_each_validation, t.data, mid) && crate::hooks::ran_named(v.before_validation, t, mid, a);
    if transaction_name(mid) is Some {
        let name = transaction_name(mid)->0;
        let out = choose|out: Transaction| #[trigger] applied(hooks_named(v.before_validation, name), mid, out) && crate::hooks::answered_with(t, a, out);
        assert(answers_each(t, r, out));
    }
}

/// `afterEach` first runs the hooks registered with `after` under the
/// transaction's name, then the hooks registered with `after_each` on what
/// they gave, which gives the answer's transaction.
pub proof fn law_after_each_runs_named_then_general<M, S>(
    v: HooksView<M, S>,
    t: SingleTransaction,
    n: Seq<char>,
    r: Result<HookMessage, DispatchError>,
)
    where
        M: FnMut(Vec<Transaction>) -> Vec<Transaction>,
        S: FnMut(Transaction) -> Transaction,
    requires
        t.event == EventType::AfterEach,
        transaction_name(t.data) == Some(n),
        dispatched(v, HookMessage::Each(t), r),
    ensures
        exists|mid: Transaction, out: Transaction|
            #![trigger applied(hooks_named(v.after, n), t.data, mid), applied(v.after_each, mid, out)]
            applied(hooks_named(v.after, n), t.data, mid) && applied(v.after_each, mid, out) && answers_each(t, r, out),
{
    let a = Ok::<SingleTransaction, DispatchError>(r->Ok_0->Each_0);
    let (mid, out) = choose|mid: Transaction, out: Transaction|
        #![trigger applied(hooks_named(v.after, n), t.data, mid), applied(v.after_each, mid, out)]
        applied(hooks_named(v.after, n), t.data, mid) && applied(v.after_each, mid, out) && crate::hooks::answered_with(t, a, out);
    assert(answers_each(t, r, out));
}

/// With no hooks registered with `before_each_validation`,
/// `beforeEachValidation` on a transaction named `n` answers with what the
/// hooks registered with `before_validation` under `n` give on it.
pub proof fn law_before_validation_without_general_hooks<M, S>(
    v: HooksView<M, S>,
    t: SingleTransaction,
    n: Seq<char>,
    r: Result<HookMessage, DispatchError>,
)
    where
        M: FnMut(Vec<Transaction>) -> Vec<Transaction>,
        S: FnMut(Transaction) -> Transaction,
    requires
        t.event == EventType::BeforeEachValidation,
        v.before_each_validation.len() == 0,
        transaction_name(t.data) == Some(n),
        dispatched(v, HookMessage::Each(t), r),
    ensures
        exists|out: Transaction| #[trigger] applied(hooks_named(v.before_validation, n), t.data, out) && answers_each(t, r, out),
{
    law_before_each_validation_runs_general_then_named(v, t, r);
    let mid = choose|mid: Transaction|
        {
            &&& #[trigger] applied(v.before_each_validation, t.data, mid)
            &&& transaction_name(mid) is None ==> r == Err::<HookMessage, DispatchError>(DispatchError::MissingName)
            &&& transaction_name(mid) is Some ==> exists|out: Transaction|
                #[trigger] applied(hooks_named(v.before_validation, transaction_name(mid)->0), mid, out) && answers_each(t, r, out)
        };
    assert(v.before_each_validation =~= Seq::<S>::empty());
    lemma_applied_empty_is_identity::<Transaction, S>(t.data, mid);
}

/// With no hooks registered with `before_each`, `beforeEach` on a transaction
/// named `n` answers with what the hooks registered with `before` under `n`
/// give on it.
pub proof fn law_before_without_general_hooks<M, S>(
    v: HooksView<M, S>,
    t: SingleTransaction,
    n: Seq<char>,
    r: Result<HookMessage, DispatchError>,
)
    where
        M: FnMut(Vec<Transaction>) -> Vec<Transaction>,
        S: FnMut(Transaction) -> Transaction,
    requires
        t.event == EventType::BeforeEach,
        v.before_each.len() == 0,
        transaction_name(t.data) == Some(n),
        dispatched(v, HookMessage::Each(t), r),
    ensures
        exists|out: Transaction| #[trigger] applied(hooks_named(v.before, n), t.data, out) && answers_each(t, r, out),
{
    law_before_each_runs_general_then_named(v, t, r);
    let mid = choose|mid: Transaction|
        {
            &&& #[trigger] applied(v.before_each, t.data, mid)
            &&& transaction_name(mid) is None ==> r == Err::<HookMessage, DispatchError>(DispatchError::MissingName)
            &&& transaction_name(mid) is Some ==> exists|out: Transaction|
                #[trigger] applied(hooks_named(v.before, transaction_name(mid)->0), mid, out) && answers_each(t, r, out)
        };
    assert(v.before_each =~= Seq::<S>::empty());
    lemma_applied_empty_is_identity::<Transaction, S>(t.data, mid);
}

/// A server whose only hook is `h`, registered with `before_validation` under
/// `n`, answers `beforeEachValidation` on a transaction named `n` with what
/// `h` returns on it.
pub proof fn law_one_before_validation_hook<M, S>(h: S, n: Seq<char>, t: SingleTransaction, r: Result<HookMessage, DispatchError>)
    where
        M: FnMut(Vec<Transaction>) -> Vec<Transaction>,
        S: FnMut(Transaction) -> Transaction,
    requires
        t.event == EventType::BeforeEachValidation,
        transaction_name(t.data) == Some(n),
        dispatched(
            (HooksView { before_validation: with_named_hook(Map::empty(), n, h), ..crate::hooks::no_hooks::<M, S>() }),
            HookMessage::Each(t),
            r,
        ),
    ensures
        exists|out: Transaction| #[trigger] call_ensures(h, (t.data,), out) && answers_each(t, r, out),
{
    let v = HooksView { before_validation: with_named_hook(Map::empty(), n, h), ..crate::hooks::no_hooks::<M, S>() };
    law_before_validation_without_general_hooks(v, t, n, r);
    lemma_named_hook_isolated(Map::<Seq<char>, Seq<S>>::empty(), n, h, n);
    assert(hooks_named(Map::<Seq<char>, Seq<S>>::empty(), n) == Seq::<S>::empty());
    assert(hooks_named(v.before_validation, n) =~= seq![h]);
    let out = choose|out: Transaction| #[trigger] applied(hooks_named(v.before_validation, n), t.data, out) && answers_each(t, r, out);
    lemma_applied_one(h, t.data, out);
}

/// A server whose only hook is `h`, registered with `before` under `n`,
/// answers `beforeEach` on a transaction named `n` with what `h` returns on it.
pub proof fn law_one_before_hook<M, S>(h: S, n: Seq<char>, t: SingleTransaction, r: Result<HookMessage, DispatchError>)
    where
        M: FnMut(Vec<Transaction>) -> Vec<Transaction>,
        S: FnMut(Transaction) -> Transaction,
    requires
        t.event == EventType::BeforeEach,
        transaction_name(t.data) == Some(n),
        dispatched(
            (HooksView { before: with_named_hook(Map::empty(), n, h), ..crate::hooks::no_hooks::<M, S>() }),
            HookMessage::Each(t),
            r,
        ),
    ensures
        exists|out: Transaction| #[trigger] call_ensures(h, (t.data,), out) && answers_each(t, r, out),
{
    let v = HooksView { before: with_named_hook(Map::empty(), n, h), ..crate::hooks::no_hooks::<M, S>() };
    law_before_without_general_hooks(v, t, n, r);
    lemma_named_hook_isolated(Map::<Seq<char>, Seq<S>>::empty(), n, h, n);
    assert(hooks_named(Map::<Seq<char>, Seq<S>>::empty(), n) == Seq::<S>::empty());
    assert(hooks_named(v.before, n) =~= seq![h]);
    let out = choose|out: Transaction| #[trigger] applied(hooks_named(v.before, n), t.data, out) && answers_each(t, r, out);
    lemma_applied_one(h, t.data, out);
}

/// A server whose only hook is `h`, registered with `after` under `n`, answers
/// `afterEach` on a transaction named `n` with what `h` returns on it.
pub proof fn law_one_after_hook<M, S>(h: S, n: Seq<char>, t: SingleTransaction, r: Result<HookMessage, DispatchError>)
    where
        M: FnMut(Vec<Transaction>) -> Vec<Transaction>,
        S: FnMut(Transaction) -> Transaction,
    requires
        t.event == EventType::AfterEach,
        transaction_name(t.data) == Some(n),
        dispatched(
            (HooksView { after: with_named_hook(Map::empty(), n, h), ..crate::hooks::no_hooks::<M, S>() }),
            HookMessage::Each(t),
            r,
        ),
    ensures
        exists|out: Transaction| #[trigger] call_ensures(h, (t.data,), out) && answers_each(t, r, out),
{
    let v = HooksView { after: with_named_hook(Map::empty(), n, h), ..crate::hooks::no_hooks::<M, S>() };
    law_after_each_runs_named_then_general(v, t, n, r);
    lemma_named_hook_isolated(Map::<Seq<char>, Seq<S>>::empty(), n, h, n);
    assert(hooks_named(Map::<Seq<char>, Seq<S>>::empty(), n) == Seq::<S>::empty());
    assert(hooks_named(v.after, n) =~= seq![h]);
    let (mid, out) = choose|mid: Transaction, out: Transaction|
        #![trigger applied(hooks_named(v.after, n), t.data, mid), applied(v.after_each, mid, out)]
        applied(hooks_named(v.after, n), t.data, mid) && applied(v.after_each, mid, out) && answers_each(t, r, out);
    assert(v.after_each =~= Seq::<S>::empty());
    lemma_applied_empty_is_identity::<Transaction, S>(mid, out);
    lemma_applied_one(h, t.data, mid);
}

} // verus!
