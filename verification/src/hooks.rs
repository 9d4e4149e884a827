//! The hook server: hooks registered for the stages of a Dredd run, and the
//! dispatch of Dredd's messages to them.

use vstd::prelude::*;
use crate::event::EventType;
use crate::fold::{accepts_any, all_accept_any, applied, lemma_applied_empty_is_identity, run_hooks};
use crate::json::{name_of, transaction_name, Transaction};
use crate::named::{hooks_named, lists_nonempty, with_named_hook, NamedHooks};
use crate::text::{decimal, join, text_of, usize_to_decimal};

verus! {

/// A message from Dredd about all transactions of a run (`beforeAll`, `afterAll`).
#[derive(Debug)]
pub struct MultiTransaction {
    pub event: EventType,
    pub uuid: String,
    pub data: Vec<Transaction>,
}

/// A message from Dredd about a single transaction.
#[derive(Debug)]
pub struct SingleTransaction {
    pub event: EventType,
    pub uuid: String,
    pub data: Transaction,
}

/// A message from Dredd, as the hook server receives it and answers it.
#[derive(Debug)]
pub enum HookMessage {
    All(MultiTransaction),
    Each(SingleTransaction),
}

/// Why a message could not be answered.
#[derive(Clone, Copy, Debug, PartialEq, Eq, Structural)]
pub enum DispatchError {
    /// After the hooks for each transaction ran (`beforeEach`,
    /// `beforeEachValidation`), the transaction has no `name` that is a JSON
    /// string, so the hooks registered by name cannot be looked up.
    MissingName,
}

/// The hooks of a server, by stage.
#[verifier::ext_equal]
pub struct HooksView<M, S> {
    pub before_all: Seq<M>,
    pub before_each: Seq<S>,
    pub before: Map<Seq<char>, Seq<S>>,
    pub before_each_validation: Seq<S>,
    pub before_validation: Map<Seq<char>, Seq<S>>,
    pub after: Map<Seq<char>, Seq<S>>,
    pub after_each: Seq<S>,
    pub after_all: Seq<M>,
}

/// A server that holds the hooks registered for the stages of a Dredd run.
///
/// Hooks for all transactions (`M`) turn the list of all transactions into a new
/// one; hooks for a single transaction (`S`) turn it into a new one. Hooks of a
/// stage run in the order in which they were registered.
pub struct HooksServer<M, S> {
    hooks_before_all: Vec<M>,
    hooks_before_each: Vec<S>,
    hooks_before: NamedHooks<S>,
    hooks_before_each_validation: Vec<S>,
    hooks_before_validation: NamedHooks<S>,
    hooks_after: NamedHooks<S>,
    hooks_after_each: Vec<S>,
    hooks_after_all: Vec<M>,
}

impl<M, S> View for HooksServer<M, S> {
    type V = HooksView<M, S>;

    closed spec fn view(&self) -> HooksView<M, S> {
        HooksView {
            before_all: self.hooks_before_all@,
            before_each: self.hooks_before_each@,
            before: self.hooks_before.view(),
            before_each_validation: self.hooks_before_each_validation@,
            before_validation: self.hooks_before_validation.view(),
            after: self.hooks_after.view(),
            after_each: self.hooks_after_each@,
            after_all: self.hooks_after_all@,
        }
    }
}

/// Every list of hooks in `m` may be called on any transaction.
pub open spec fn named_accept_any<S: FnMut(Transaction) -> Transaction>(m: Map<Seq<char>, Seq<S>>) -> bool {
    forall|k: Seq<char>| #[trigger] m.contains_key(k) ==> all_accept_any(m[k])
}

/// Every hook registered may be called on any value of its kind.
pub open spec fn hooks_accept_any<M, S>(v: HooksView<M, S>) -> bool where
    M: FnMut(Vec<Transaction>) -> Vec<Transaction>,
    S: FnMut(Transaction) -> Transaction,
 {
    &&& all_accept_any(v.before_all)
    &&& all_accept_any(v.before_each)
    &&& named_accept_any(v.before)
    &&& all_accept_any(v.before_each_validation)
    &&& named_accept_any(v.before_validation)
    &&& named_accept_any(v.after)
    &&& all_accept_any(v.after_each)
    &&& all_accept_any(v.after_all)
}

/// The answer to a message about all transactions, when `hooks` ran over its data.
pub open spec fn ran_all<M: FnMut(Vec<Transaction>) -> Vec<Transaction>>(
    hooks: Seq<M>,
    t: MultiTransaction,
    r: Result<HookMessage, DispatchError>,
) -> bool {
    r matches Ok(HookMessage::All(o)) && o.event == t.event && o.uuid == t.uuid && applied(hooks, t.data, o.data)
}

/// The answer `r` to `t` carries `data` and otherwise what `t` carried.
pub open spec fn answered_with(t: SingleTransaction, r: Result<SingleTransaction, DispatchError>, data: Transaction) -> bool {
    r matches Ok(o) && o.event == t.event && o.uuid == t.uuid && o.data == data
}

/// The answer to a message about a single transaction, as such.
pub open spec fn single_answer(r: Result<HookMessage, DispatchError>) -> Option<Result<SingleTransaction, DispatchError>> {
    match r {
        Ok(HookMessage::Each(o)) => Some(Ok(o)),
        Ok(HookMessage::All(_)) => None,
        Err(e) => Some(Err(e)),
    }
}

/// The answer to `t` when the hooks registered under the transaction's name run
/// on `data`: refused when the transaction has no name.
pub open spec fn ran_named<S: FnMut(Transaction) -> Transaction>(
    named: Map<Seq<char>, Seq<S>>,
    t: SingleTransaction,
    data: Transaction,
    r: Result<SingleTransaction, DispatchError>,
) -> bool {
    match transaction_name(data) {
        None => r == Err::<SingleTransaction, DispatchError>(DispatchError::MissingName),
        Some(name) => ran_hooks_of(named, name, t, data, r),
    }
}

/// The answer to `t` when the hooks registered under `name` run on `data`.
pub open spec fn ran_hooks_of<S: FnMut(Transaction) -> Transaction>(
    named: Map<Seq<char>, Seq<S>>,
    name: Seq<char>,
    t: SingleTransaction,
    data: Transaction,
    r: Result<SingleTransaction, DispatchError>,
) -> bool {
    exists|out: Transaction| #[trigger] applied(hooks_named(named, name), data, out) && answered_with(t, r, out)
}

/// The answer to `t` when first `general` runs on its transaction, then the hooks
/// registered under the name that the transaction has after that.
pub open spec fn ran_general_then_named<S: FnMut(Transaction) -> Transaction>(
    general: Seq<S>,
    named: Map<Seq<char>, Seq<S>>,
    t: SingleTransaction,
    r: Result<SingleTransaction, DispatchError>,
) -> bool {
    exists|mid: Transaction| #[trigger] applied(general, t.data, mid) && ran_named(named, t, mid, r)
}

/// The answer to `t` when the hooks registered under `name` run on its
/// transaction, then `general`.
pub open spec fn ran_hooks_of_then_general<S: FnMut(Transaction) -> Transaction>(
    named: Map<Seq<char>, Seq<S>>,
    name: Seq<char>,
    general: Seq<S>,
    t: SingleTransaction,
    r: Result<SingleTransaction, DispatchError>,
) -> bool {
    exists|mid: Transaction, out: Transaction|
        #![trigger applied(hooks_named(named, name), t.data, mid), applied(general, mid, out)]
        applied(hooks_named(named, name), t.data, mid) && applied(general, mid, out) && answered_with(t, r, out)
}

/// The answer that the hooks in `v` give to `message`.
pub open spec fn dispatched<M, S>(v: HooksView<M, S>, message: HookMessage, r: Result<HookMessage, DispatchError>) -> bool where
    M: FnMut(Vec<Transaction>) -> Vec<Transaction>,
    S: FnMut(Transaction) -> Transaction,
 {
    match message {
        HookMessage::All(t) => match t.event {
            EventType::BeforeAll => ran_all(v.before_all, t, r),
            EventType::AfterAll => ran_all(v.after_all, t, r),
            _ => false,
        },
        HookMessage::Each(t) => match t.event {
            EventType::BeforeEach => single_answer(r) matches Some(a) && ran_general_then_named(v.before_each, v.before, t, a),
            EventType::BeforeEachValidation => single_answer(r) matches Some(a) && ran_general_then_named(
                v.before_each_validation,
                v.before_validation,
                t,
                a,
            ),
            EventType::AfterEach => single_answer(r) matches Some(a) && ran_hooks_of_then_general(
                v.after,
                transaction_name(t.data)->0,
                v.after_each,
                t,
                a,
            ),
            _ => false,
        },
    }
}

/// The messages that a hook server answers: those about all transactions carry
/// `beforeAll` or `afterAll`; those about a single transaction carry
/// `beforeEach`, `beforeEachValidation`, or `afterEach` with a transaction that
/// has a name. Dredd sends no `before`, `beforeValidation` or `after` event.
pub open spec fn dispatchable(message: HookMessage) -> bool {
    match message {
        HookMessage::All(t) => t.event == EventType::BeforeAll || t.event == EventType::AfterAll,
        HookMessage::Each(t) => {
            ||| t.event == EventType::BeforeEach
            ||| t.event == EventType::BeforeEachValidation
            ||| t.event == EventType::AfterEach && transaction_name(t.data) is Some
        },
    }
}

impl HookMessage {
    /// Whether a hook server answers the message (see [`dispatchable`]).
    pub fn is_dispatchable(&self) -> (b: bool)
        ensures
            b == dispatchable(*self),
    {
        match self {
            HookMessage::All(t) => match t.event {
                EventType::BeforeAll | EventType::AfterAll => true,
                _ => false,
            },
            HookMessage::Each(t) => match t.event {
                EventType::BeforeEach | EventType::BeforeEachValidation => true,
                EventType::AfterEach => name_of(&t.data).is_some(),
                _ => false,
            },
        }
    }
}

/// The TCP port on which a hook server given `port` listens: `port` itself,
/// when it is a TCP port at all (at most 65535); `None` otherwise.
pub fn listen_port(port: usize) -> (p: Option<u16>)
    ensures
        p is Some <==> port <= 65535,
        p matches Some(q) ==> q == port,
{
    if port <= 65535 {
        Some(port as u16)
    } else {
        None
    }
}

/// The hooks of a server that has none.
pub open spec fn no_hooks<M, S>() -> HooksView<M, S> {
    HooksView {
        before_all: Seq::empty(),
        before_each: Seq::empty(),
        before: Map::empty(),
        before_each_validation: Seq::empty(),
        before_validation: Map::empty(),
        after: Map::empty(),
        after_each: Seq::empty(),
        after_all: Seq::empty(),
    }
}

/// The answer carries the data that the message carried.
pub open spec fn same_data(message: HookMessage, answer: HookMessage) -> bool {
    match (message, answer) {
        (HookMessage::All(t), HookMessage::All(o)) => o.data == t.data,
        (HookMessage::Each(t), HookMessage::Each(o)) => o.data == t.data,
        _ => false,
    }
}

/// A server without hooks answers every message that it answers at all with
/// the data that the message carried.
pub proof fn law_no_hooks_keep_data<M, S>(message: HookMessage, r: Result<HookMessage, DispatchError>)
    where
        M: FnMut(Vec<Transaction>) -> Vec<Transaction>,
        S: FnMut(Transaction) -> Transaction,
    requires
        dispatched(no_hooks::<M, S>(), message, r),
    ensures
        r matches Ok(answer) ==> same_data(message, answer),
{
    let v = no_hooks::<M, S>();
    match message {
        HookMessage::All(t) => {
            if r is Ok {
                let o = r->Ok_0->All_0;
                lemma_applied_empty_is_identity::<Vec<Transaction>, M>(t.data, o.data);
            }
        },
        HookMessage::Each(t) => {
            if let Ok(HookMessage::Each(o)) = r {
                let a = Ok::<SingleTransaction, DispatchError>(o);
                match t.event {
                    EventType::BeforeEach | EventType::BeforeEachValidation => {
                        let general = if t.event == EventType::BeforeEach { v.before_each } else { v.before_each_validation };
                        let named = if t.event == EventType::BeforeEach { v.before } else { v.before_validation };
                        let mid = choose|mid: Transaction| #[trigger] applied(general, t.data, mid) && ran_named(named, t, mid, a);
                        lemma_applied_empty_is_identity::<Transaction, S>(t.data, mid);
                        let name = transaction_name(mid)->0;
                        assert(hooks_named(named, name) == Seq::<S>::empty());
                        let out = choose|out: Transaction| #[trigger] applied(hooks_named(named, name), mid, out) && answered_with(t, a, out);
                        lemma_applied_empty_is_identity::<Transaction, S>(mid, out);
                    },
                    EventType::AfterEach => {
                        let name = transaction_name(t.data)->0;
                        assert(ran_hooks_of_then_general(v.after, name, v.after_each, t, a));
                        assert(hooks_named(v.after, name) == Seq::<S>::empty());
                        let (mid, out) = choose|mid: Transaction, out: Transaction|
                            #![trigger applied(hooks_named(v.after, name), t.data, mid), applied(v.after_each, mid, out)]
                            applied(hooks_named(v.after, name), t.data, mid) && applied(v.after_each, mid, out) && answered_with(t, a, out);
                        lemma_applied_empty_is_identity::<Transaction, S>(t.data, mid);
                        lemma_applied_empty_is_identity::<Transaction, S>(mid, out);
                    },
                    _ => {},
                }
            }
        },
    }
}

impl<M, S> HooksServer<M, S> where
    M: FnMut(Vec<Transaction>) -> Vec<Transaction>,
    S: FnMut(Transaction) -> Transaction,
 {
    /// The server is well formed and every hook it holds may be called on any value.
    pub closed spec fn inv(&self) -> bool {
        &&& self.hooks_before.wf()
        &&& self.hooks_before_validation.wf()
        &&& self.hooks_after.wf()
        &&& hooks_accept_any(self@)
    }

    /// A name is registered only together with a hook, and hooks are never
    /// removed: every name with hooks by name has at least one hook.
    pub proof fn law_named_hooks_nonempty(&self)
        requires
            self.inv(),
        ensures
            lists_nonempty(self@.before),
            lists_nonempty(self@.before_validation),
            lists_nonempty(self@.after),
    {
        self.hooks_before.lemma_lists_nonempty();
        self.hooks_before_validation.lemma_lists_nonempty();
        self.hooks_after.lemma_lists_nonempty();
    }

    /// Create a new instance.
    pub fn new() -> (r: Self)
        ensures
            r.inv(),
            r@ == no_hooks::<M, S>(),
    {
        let r = HooksServer {
            hooks_before_all: Vec::new(),
            hooks_before_each: Vec::new(),
            hooks_before: NamedHooks::new(),
            hooks_before_each_validation: Vec::new(),
            hooks_before_validation: NamedHooks::new(),
            hooks_after: NamedHooks::new(),
            hooks_after_each: Vec::new(),
            hooks_after_all: Vec::new(),
        };
        assert(r@ =~= no_hooks::<M, S>());
        r
    }

    /// Register a hook that will run once before running any transactions.
    pub fn before_all(&mut self, closure: M)
        requires
            old(self).inv(),
            accepts_any(closure),
        ensures
            final(self).inv(),
            final(self)@ == (HooksView { before_all: old(self)@.before_all.push(closure), ..old(self)@ }),
    {
        self.hooks_before_all.push(closure);
        assert(self@ =~= (HooksView { before_all: old(self)@.before_all.push(closure), ..old(self)@ }));
    }

    /// Register a hook that will run before each individual transaction.
    pub fn before_each(&mut self, closure: S)
        requires
            old(self).inv(),
            accepts_any(closure),
        ensures
            final(self).inv(),
            final(self)@ == (HooksView { before_each: old(self)@.before_each.push(closure), ..old(self)@ }),
    {
        self.hooks_before_each.push(closure);
        assert(self@ =~= (HooksView { before_each: old(self)@.before_each.push(closure), ..old(self)@ }));
    }

    /// Register a hook that will run before a specific transaction.
    pub fn before(&mut self, name: &str, closure: S)
        requires
            old(self).inv(),
            accepts_any(closure),
        ensures
            final(self).inv(),
            final(self)@ == (HooksView { before: with_named_hook(old(self)@.before, name@, closure), ..old(self)@ }),
    {
        self.hooks_before.add(text_of(name), closure);
        assert(self@ =~= (HooksView { before: with_named_hook(old(self)@.before, name@, closure), ..old(self)@ }));
    }

    /// Register a hook that will run before the validation of each individual transaction.
    pub fn before_each_validation(&mut self, closure: S)
        requires
            old(self).inv(),
            accepts_any(closure),
        ensures
            final(self).inv(),
            final(self)@ == (HooksView { before_each_validation: old(self)@.before_each_validation.push(closure), ..old(self)@ }),
    {
        self.hooks_before_each_validation.push(closure);
        assert(self@ =~= (HooksView { before_each_validation: old(self)@.before_each_validation.push(closure), ..old(self)@ }));
    }

    /// Register a hook that will run before a specific transaction is validated.
    pub fn before_validation(&mut self, name: &str, closure: S)
        requires
            old(self).inv(),
            accepts_any(closure),
        ensures
            final(self).inv(),
            final(self)@ == (HooksView { before_validation: with_named_hook(old(self)@.before_validation, name@, closure), ..old(self)@ }),
    {
        self.hooks_before_validation.add(text_of(name), closure);
        assert(self@ =~= (HooksView { before_validation: with_named_hook(old(self)@.before_validation, name@, closure), ..old(self)@ }));
    }

    /// Register a hook that will run after a specific transaction.
    pub fn after(&mut self, name: &str, closure: S)
        requires
            old(self).inv(),
            accepts_any(closure),
        ensures
            final(self).inv(),
            final(self)@ == (HooksView { after: with_named_hook(old(self)@.after, name@, closure), ..old(self)@ }),
    {
        self.hooks_after.add(text_of(name), closure);
        assert(self@ =~= (HooksView { after: with_named_hook(old(self)@.after, name@, closure), ..old(self)@ }));
    }

    /// Register a hook that will run after each individual transaction.
    pub fn after_each(&mut self, closure: S)
        requires
            old(self).inv(),
            accepts_any(closure),
        ensures
            final(self).inv(),
            final(self)@ == (HooksView { after_each: old(self)@.after_each.push(closure), ..old(self)@ }),
    {
        self.hooks_after_each.push(closure);
        assert(self@ =~= (HooksView { after_each: old(self)@.after_each.push(closure), ..old(self)@ }));
    }

    /// Register a hook that will run once after running all other transactions.
    pub fn after_all(&mut self, closure: M)
        requires
            old(self).inv(),
            accepts_any(closure),
        ensures
            final(self).inv(),
            final(self)@ == (HooksView { after_all: old(self)@.after_all.push(closure), ..old(self)@ }),
    {
        self.hooks_after_all.push(closure);
        assert(self@ =~= (HooksView { after_all: old(self)@.after_all.push(closure), ..old(self)@ }));
    }

    fn run_hooks_before_all(&mut self, transaction: MultiTransaction) -> (r: MultiTransaction)
        requires
            old(self).inv(),
        ensures
            final(self).inv(),
            final(self)@ == old(self)@,
            r.event == transaction.event,
            r.uuid == transaction.uuid,
            applied(old(self)@.before_all, transaction.data, r.data),
    {
        let MultiTransaction { event, uuid, data } = transaction;
        let data = run_hooks(&mut self.hooks_before_all, data);
        assert(self@ =~= old(self)@);
        MultiTransaction { event, uuid, data }
    }

    fn run_hooks_after_all(&mut self, transaction: MultiTransaction) -> (r: MultiTransaction)
        requires
            old(self).inv(),
        ensures
            final(self).inv(),
            final(self)@ == old(self)@,
            r.event == transaction.event,
            r.uuid == transaction.uuid,
            applied(old(self)@.after_all, transaction.data, r.data),
    {
        let MultiTransaction { event, uuid, data } = transaction;
        let data = run_hooks(&mut self.hooks_after_all, data);
        assert(self@ =~= old(self)@);
        MultiTransaction { event, uuid, data }
    }

    fn run_hooks_before_each(&mut self, transaction: SingleTransaction) -> (r: SingleTransaction)
        requires
            old(self).inv(),
        ensures
            final(self).inv(),
            final(self)@ == old(self)@,
            r.event == transaction.event,
            r.uuid == transaction.uuid,
            applied(old(self)@.before_each, transaction.data, r.data),
    {
        let SingleTransaction { event, uuid, data } = transaction;
        let data = run_hooks(&mut self.hooks_before_each, data);
        assert(self@ =~= old(self)@);
        SingleTransaction { event, uuid, data }
    }

    fn run_hooks_before_each_validation(&mut self, transaction: SingleTransaction) -> (r: SingleTransaction)
        requires
            old(self).inv(),
        ensures
            final(self).inv(),
            final(self)@ == old(self)@,
            r.event == transaction.event,
            r.uuid == transaction.uuid,
            applied(old(self)@.before_each_validation, transaction.data, r.data),
    {
        let SingleTransaction { event, uuid, data } = transaction;
        let data = run_hooks(&mut self.hooks_before_each_validation, data);
        assert(self@ =~= old(self)@);
        SingleTransaction { event, uuid, data }
    }

    fn run_hooks_after_each(&mut self, transaction: SingleTransaction) -> (r: SingleTransaction)
        requires
            old(self).inv(),
        ensures
            final(self).inv(),
            final(self)@ == old(self)@,
            r.event == transaction.event,
            r.uuid == transaction.uuid,
            applied(old(self)@.after_each, transaction.data, r.data),
    {
        let SingleTransaction { event, uuid, data } = transaction;
        let data = run_hooks(&mut self.hooks_after_each, data);
        assert(self@ =~= old(self)@);
        SingleTransaction { event, uuid, data }
    }

    fn run_hooks_before(&mut self, transaction: SingleTransaction) -> (r: SingleTransaction)
        requires
            old(self).inv(),
            transaction_name(transaction.data) is Some,
        ensures
            final(self).inv(),
            final(self)@ == old(self)@,
            r.event == transaction.event,
            r.uuid == transaction.uuid,
            applied(hooks_named(old(self)@.before, transaction_name(transaction.data)->0), transaction.data, r.data),
    {
        match name_of(&transaction.data) {
            Some(name) => {
                let SingleTransaction { event, uuid, data } = transaction;
                let out = self.hooks_before.run(&name, data);
                assert(self@ =~= old(self)@);
                SingleTransaction { event, uuid, data: out }
            },
            None => transaction,
        }
    }

    fn run_hooks_before_validation(&mut self, transaction: SingleTransaction) -> (r: SingleTransaction)
        requires
            old(self).inv(),
            transaction_name(transaction.data) is Some,
        ensures
            final(self).inv(),
            final(self)@ == old(self)@,
            r.event == transaction.event,
            r.uuid == transaction.uuid,
            applied(hooks_named(old(self)@.before_validation, transaction_name(transaction.data)->0), transaction.data, r.data),
    {
        match name_of(&transaction.data) {
            Some(name) => {
                let SingleTransaction { event, uuid, data } = transaction;
                let out = self.hooks_before_validation.run(&name, data);
                assert(self@ =~= old(self)@);
                SingleTransaction { event, uuid, data: out }
            },
            None => transaction,
        }
    }

    fn run_hooks_after(&mut self, transaction: SingleTransaction) -> (r: SingleTransaction)
        requires
            old(self).inv(),
            transaction_name(transaction.data) is Some,
        ensures
            final(self).inv(),
            final(self)@ == old(self)@,
            r.event == transaction.event,
            r.uuid == transaction.uuid,
            applied(hooks_named(old(self)@.after, transaction_name(transaction.data)->0), transaction.data, r.data),
    {
        match name_of(&transaction.data) {
            Some(name) => {
                let SingleTransaction { event, uuid, data } = transaction;
                let out = self.hooks_after.run(&name, data);
                assert(self@ =~= old(self)@);
                SingleTransaction { event, uuid, data: out }
            },
            None => transaction,
        }
    }

    /// Answers a message from Dredd by running the hooks registered for its event.
    ///
    /// `beforeAll` and `afterAll` run the hooks for all transactions. `beforeEach`
    /// runs the hooks for each transaction, then those registered under the name
    /// that the transaction has after them; `beforeEachValidation` does the same
    /// with the validation hooks. When the transaction has no name after the hooks
    /// for each transaction ran, the message is refused with `MissingName`.
    /// `afterEach` runs the hooks registered under the transaction's name, then
    /// the hooks for each transaction. The answer keeps the event and uuid of the
    /// message. The hooks held stay as they are.
    pub fn dispatch(&mut self, message: HookMessage) -> (r: Result<HookMessage, DispatchError>)
        requires
            old(self).inv(),
            dispatchable(message),
        ensures
            final(self).inv(),
            final(self)@ == old(self)@,
            dispatched(old(self)@, message, r),
    {
        match message {
            HookMessage::All(t) => {
                if t.event == EventType::BeforeAll {
                    Ok(HookMessage::All(self.run_hooks_before_all(t)))
                } else {
                    Ok(HookMessage::All(self.run_hooks_after_all(t)))
                }
            },
            HookMessage::Each(t) => {
                let answer = match t.event {
                    EventType::BeforeEach => {
                        let t = self.run_hooks_before_each(t);
                        if name_of(&t.data).is_some() {
                            Ok(self.run_hooks_before(t))
                        } else {
                            Err(DispatchError::MissingName)
                        }
                    },
                    EventType::BeforeEachValidation => {
                        let t = self.run_hooks_before_each_validation(t);
                        if name_of(&t.data).is_some() {
                            Ok(self.run_hooks_before_validation(t))
                        } else {
                            Err(DispatchError::MissingName)
                        }
                    },
                    _ => {
                        let t = self.run_hooks_after(t);
                        Ok(self.run_hooks_after_each(t))
                    },
                };
                match answer {
                    Ok(o) => Ok(HookMessage::Each(o)),
                    Err(e) => Err(e),
                }
            },
        }
    }

    /// A description of the server that counts its hooks, in the form its
    /// `Debug` output takes. The stages with hooks by name count the names that
    /// have hooks.
    pub fn debug_string(&self) -> (s: String)
        requires
            self.inv(),
        ensures
            s@ == debug_text(self@),
            shows_count(s@, "HooksServer { hooks_before_all: "@, self@.before_all.len(), ", hooks_before_each: "@),
            shows_count(s@, ", hooks_before_each: "@, self@.before_each.len(), ", hooks_before: "@),
            shows_count(s@, ", hooks_before: "@, self@.before.dom().len(), ", hooks_before_each_validation: "@),
            shows_count(s@, ", hooks_before_each_validation: "@, self@.before_each_validation.len(), ", hooks_before_validation: "@),
            shows_count(s@, ", hooks_before_validation: "@, self@.before_validation.dom().len(), ", hooks_before_after: "@),
            shows_count(s@, ", hooks_before_after: "@, self@.after.dom().len(), ", hooks_before_after_each: "@),
            shows_count(s@, ", hooks_before_after_each: "@, self@.after_each.len(), ", hooks_before_after_all: "@),
            shows_count(s@, ", hooks_before_after_all: "@, self@.after_all.len(), " }"@),
    {
        proof {
            law_debug_counts(self@);
        }
        let s = text_of("HooksServer { hooks_before_all: ");
        let s = join(s, usize_to_decimal(self.hooks_before_all.len()).as_str());
        let s = join(s, ", hooks_before_each: ");
        let s = join(s, usize_to_decimal(self.hooks_before_each.len()).as_str());
        let s = join(s, ", hooks_before: ");
        let s = join(s, usize_to_decimal(self.hooks_before.count()).as_str());
        let s = join(s, ", hooks_before_each_validation: ");
        let s = join(s, usize_to_decimal(self.hooks_before_each_validation.len()).as_str());
        let s = join(s, ", hooks_before_validation: ");
        let s = join(s, usize_to_decimal(self.hooks_before_validation.count()).as_str());
        let s = join(s, ", hooks_before_after: ");
        let s = join(s, usize_to_decimal(self.hooks_after.count()).as_str());
        let s = join(s, ", hooks_before_after_each: ");
        let s = join(s, usize_to_decimal(self.hooks_after_each.len()).as_str());
        let s = join(s, ", hooks_before_after_all: ");
        let s = join(s, usize_to_decimal(self.hooks_after_all.len()).as_str());
        join(s, " }")
    }
}

impl<M, S> Default for HooksServer<M, S> where
    M: FnMut(Vec<Transaction>) -> Vec<Transaction>,
    S: FnMut(Transaction) -> Transaction,
 {
    /// A server without hooks, as [`HooksServer::new`] makes it.
    fn default() -> (r: Self)
        ensures
            r.inv(),
            r@ == no_hooks::<M, S>(),
    {
        HooksServer::new()
    }
}

/// The `Debug` text of a server with hooks `v`.
pub open spec fn debug_text<M, S>(v: HooksView<M, S>) -> Seq<char> {
    "HooksServer { hooks_before_all: "@ + decimal(v.before_all.len())
        + ", hooks_before_each: "@ + decimal(v.before_each.len())
        + ", hooks_before: "@ + decimal(v.before.dom().len())
        + ", hooks_before_each_validation: "@ + decimal(v.before_each_validation.len())
        + ", hooks_before_validation: "@ + decimal(v.before_validation.dom().len())
        + ", hooks_before_after: "@ + decimal(v.after.dom().len())
        + ", hooks_before_after_each: "@ + decimal(v.after_each.len())
        + ", hooks_before_after_all: "@ + decimal(v.after_all.len())
        + " }"@
}


/// `text` shows the number `n` right after `label` and right before `next`.
pub open spec fn shows_count(text: Seq<char>, label: Seq<char>, n: nat, next: Seq<char>) -> bool {
    exists|p: int|
        0 <= p && p + label.len() + decimal(n).len() + next.len() <= text.len() && #[trigger] text.subrange(
            p,
            p + label.len() + decimal(n).len() + next.len(),
        ) == label + decimal(n) + next
}

proof fn lemma_prefix_kept(y: Seq<char>, z: Seq<char>, i: int, j: int)
    requires
        0 <= i <= j <= y.len(),
    ensures
        (y + z).subrange(i, j) == y.subrange(i, j),
{
    assert((y + z).subrange(i, j) =~= y.subrange(i, j));
}

proof fn lemma_last_three(a: Seq<char>, l: Seq<char>, c: Seq<char>, nx: Seq<char>)
    ensures
        (a + l + c + nx).subrange(a.len() as int, (a.len() + l.len() + c.len() + nx.len()) as int) == l + c + nx,
{
    assert((a + l + c + nx).subrange(a.len() as int, (a.len() + l.len() + c.len() + nx.len()) as int) =~= l + c + nx);
}

/// The `Debug` text of a server counts each stage under its own label: between
/// the label of a stage and the label of the stage after it stands the number of
/// hooks of that stage (for the stages with hooks by name, the number of names).
pub proof fn law_debug_counts<M, S>(v: HooksView<M, S>)
    ensures
        shows_count(debug_text(v), "HooksServer { hooks_before_all: "@, v.before_all.len(), ", hooks_before_each: "@),
        shows_count(debug_text(v), ", hooks_before_each: "@, v.before_each.len(), ", hooks_before: "@),
        shows_count(debug_text(v), ", hooks_before: "@, v.before.dom().len(), ", hooks_before_each_validation: "@),
        shows_count(debug_text(v), ", hooks_before_each_validation: "@, v.before_each_validation.len(), ", hooks_before_validation: "@),
        shows_count(debug_text(v), ", hooks_before_validation: "@, v.before_validation.dom().len(), ", hooks_before_after: "@),
        shows_count(debug_text(v), ", hooks_before_after: "@, v.after.dom().len(), ", hooks_before_after_each: "@),
        shows_count(debug_text(v), ", hooks_before_after_each: "@, v.after_each.len(), ", hooks_before_after_all: "@),
        shows_count(debug_text(v), ", hooks_before_after_all: "@, v.after_all.len(), " }"@),
{
    let l0 = "HooksServer { hooks_before_all: "@;
    let l1 = ", hooks_before_each: "@;
    let l2 = ", hooks_before: "@;
    let l3 = ", hooks_before_each_validation: "@;
    let l4 = ", hooks_before_validation: "@;
    let l5 = ", hooks_before_after: "@;
    let l6 = ", hooks_before_after_each: "@;
    let l7 = ", hooks_before_after_all: "@;
    let l8 = " }"@;
    let c0 = decimal(v.before_all.len());
    let c1 = decimal(v.before_each.len());
    let c2 = decimal(v.before.dom().len());
    let c3 = decimal(v.before_each_validation.len());
    let c4 = decimal(v.before_validation.dom().len());
    let c5 = decimal(v.after.dom().len());
    let c6 = decimal(v.after_each.len());
    let c7 = decimal(v.after_all.len());
    let p0 = l0;
    let p1 = p0 + c0;
    let p2 = p1 + l1;
    let p3 = p2 + c1;
    let p4 = p3 + l2;
    let p5 = p4 + c2;
    let p6 = p5 + l3;
    let p7 = p6 + c3;
    let p8 = p7 + l4;
    let p9 = p8 + c4;
    let p10 = p9 + l5;
    let p11 = p10 + c5;
    let p12 = p11 + l6;
    let p13 = p12 + c6;
    let p14 = p13 + l7;
    let p15 = p14 + c7;
    let p16 = p15 + l8;
    assert(debug_text(v) == p16);
    assert(shows_count(p16, l0, v.before_all.len(), l1)) by {
        let a = Seq::<char>::empty();
        assert(p2 =~= a + l0 + c0 + l1);
        lemma_last_three(a, l0, c0, l1);
        let i = a.len() as int;
        let j = p2.len() as int;
        assert(p2.subrange(i, j) == l0 + c0 + l1);
        lemma_prefix_kept(p2, c1, i, j);
        lemma_prefix_kept(p3, l2, i, j);
        lemma_prefix_kept(p4, c2, i, j);
        lemma_prefix_kept(p5, l3, i, j);
        lemma_prefix_kept(p6, c3, i, j);
        lemma_prefix_kept(p7, l4, i, j);
        lemma_prefix_kept(p8, c4, i, j);
        lemma_prefix_kept(p9, l5, i, j);
        lemma_prefix_kept(p10, c5, i, j);
        lemma_prefix_kept(p11, l6, i, j);
        lemma_prefix_kept(p12, c6, i, j);
        lemma_prefix_kept(p13, l7, i, j);
        lemma_prefix_kept(p14, c7, i, j);
        lemma_prefix_kept(p15, l8, i, j);
        assert(p16.subrange(i, j) == l0 + c0 + l1);
    }
    assert(shows_count(p16, l1, v.before_each.len(), l2)) by {
        let a = p1;
        lemma_last_three(a, l1, c1, l2);
        let i = a.len() as int;
        let j = p4.len() as int;
        assert(p4.subrange(i, j) == l1 + c1 + l2);
        lemma_prefix_kept(p4, c2, i, j);
        lemma_prefix_kept(p5, l3, i, j);
        lemma_prefix_kept(p6, c3, i, j);
        lemma_prefix_kept(p7, l4, i, j);
        lemma_prefix_kept(p8, c4, i, j);
        lemma_prefix_kept(p9, l5, i, j);
        lemma_prefix_kept(p10, c5, i, j);
        lemma_prefix_kept(p11, l6, i, j);
        lemma_prefix_kept(p12, c6, i, j);
        lemma_prefix_kept(p13, l7, i, j);
        lemma_prefix_kept(p14, c7, i, j);
        lemma_prefix_kept(p15, l8, i, j);
        assert(p16.subrange(i, j) == l1 + c1 + l2);
    }
    assert(shows_count(p16, l2, v.before.dom().len(), l3)) by {
        let a = p3;
        lemma_last_three(a, l2, c2, l3);
        let i = a.len() as int;
        let j = p6.len() as int;
        assert(p6.subrange(i, j) == l2 + c2 + l3);
        lemma_prefix_kept(p6, c3, i, j);
        lemma_prefix_kept(p7, l4, i, j);
        lemma_prefix_kept(p8, c4, i, j);
        lemma_prefix_kept(p9, l5, i, j);
        lemma_prefix_kept(p10, c5, i, j);
        lemma_prefix_kept(p11, l6, i, j);
        lemma_prefix_kept(p12, c6, i, j);
        lemma_prefix_kept(p13, l7, i, j);
        lemma_prefix_kept(p14, c7, i, j);
        lemma_prefix_kept(p15, l8, i, j);
        assert(p16.subrange(i, j) == l2 + c2 + l3);
    }
    assert(shows_count(p16, l3, v.before_each_validation.len(), l4)) by {
        let a = p5;
        lemma_last_three(a, l3, c3, l4);
        let i = a.len() as int;
        let j = p8.len() as int;
        assert(p8.subrange(i, j) == l3 + c3 + l4);
        lemma_prefix_kept(p8, c4, i, j);
        lemma_prefix_kept(p9, l5, i, j);
        lemma_prefix_kept(p10, c5, i, j);
        lemma_prefix_kept(p11, l6, i, j);
        lemma_prefix_kept(p12, c6, i, j);
        lemma_prefix_kept(p13, l7, i, j);
        lemma_prefix_kept(p14, c7, i, j);
        lemma_prefix_kept(p15, l8, i, j);
        assert(p16.subrange(i, j) == l3 + c3 + l4);
    }
    assert(shows_count(p16, l4, v.before_validation.dom().len(), l5)) by {
        let a = p7;
        lemma_last_three(a, l4, c4, l5);
        let i = a.len() as int;
        let j = p10.len() as int;
        assert(p10.subrange(i, j) == l4 + c4 + l5);
        lemma_prefix_kept(p10, c5, i, j);
        lemma_prefix_kept(p11, l6, i, j);
        lemma_prefix_kept(p12, c6, i, j);
        lemma_prefix_kept(p13, l7, i, j);
        lemma_prefix_kept(p14, c7, i, j);
        lemma_prefix_kept(p15, l8, i, j);
        assert(p16.subrange(i, j) == l4 + c4 + l5);
    }
    assert(shows_count(p16, l5, v.after.dom().len(), l6)) by {
        let a = p9;
        lemma_last_three(a, l5, c5, l6);
        let i = a.len() as int;
        let j = p12.len() as int;
        assert(p12.subrange(i, j) == l5 + c5 + l6);
        lemma_prefix_kept(p12, c6, i, j);
        lemma_prefix_kept(p13, l7, i, j);
        lemma_prefix_kept(p14, c7, i, j);
        lemma_prefix_kept(p15, l8, i, j);
        assert(p16.subrange(i, j) == l5 + c5 + l6);
    }
    assert(shows_count(p16, l6, v.after_each.len(), l7)) by {
        let a = p11;
        lemma_last_three(a, l6, c6, l7);
        let i = a.len() as int;
        let j = p14.len() as int;
        assert(p14.subrange(i, j) == l6 + c6 + l7);
        lemma_prefix_kept(p14, c7, i, j);
        lemma_prefix_kept(p15, l8, i, j);
        assert(p16.subrange(i, j) == l6 + c6 + l7);
    }
    assert(shows_count(p16, l7, v.after_all.len(), l8)) by {
        let a = p13;
        lemma_last_three(a, l7, c7, l8);
        let i = a.len() as int;
        let j = p16.len() as int;
        assert(p16.subrange(i, j) == l7 + c7 + l8);
        assert(p16.subrange(i, j) == l7 + c7 + l8);
    }
}

} // verus!
