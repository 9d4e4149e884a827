//! The kinds of events that Dredd sends to a hook server, and their names on the wire.

use vstd::prelude::*;
use crate::text::same_text;

verus! {

/// The stage of a Dredd run that a message from Dredd announces.
#[derive(Clone, Copy, Debug, PartialEq, Eq, Structural)]
pub enum EventType {
    BeforeAll,
    BeforeEach,
    Before,
    BeforeEachValidation,
    BeforeValidation,
    After,
    AfterEach,
    AfterAll,
}

impl EventType {
    /// The name under which the event travels in the `event` field of a message.
    pub open spec fn spec_name(self) -> Seq<char> {
        match self {
            EventType::BeforeAll => "beforeAll"@,
            EventType::BeforeEach => "beforeEach"@,
            EventType::Before => "before"@,
            EventType::BeforeEachValidation => "beforeEachValidation"@,
            EventType::BeforeValidation => "beforeValidation"@,
            EventType::After => "after"@,
            EventType::AfterEach => "afterEach"@,
            EventType::AfterAll => "afterAll"@,
        }
    }

    /// Whether the event carries all transactions of the run at once
    /// (`beforeAll`, `afterAll`) rather than a single one.
    pub open spec fn spec_carries_all(self) -> bool {
        self == EventType::BeforeAll || self == EventType::AfterAll
    }

    /// The name of the event on the wire.
    pub fn name(&self) -> (s: &'static str)
        ensures
            s@ == self.spec_name(),
    {
        match self {
            EventType::BeforeAll => "beforeAll",
            EventType::BeforeEach => "beforeEach",
            EventType::Before => "before",
            EventType::BeforeEachValidation => "beforeEachValidation",
            EventType::BeforeValidation => "beforeValidation",
            EventType::After => "after",
            EventType::AfterEach => "afterEach",
            EventType::AfterAll => "afterAll",
        }
    }

    /// The event with the given wire name, if there is one.
    pub fn from_name(name: &str) -> (r: Option<EventType>)
        ensures
            r == event_named(name@),
    {
        if same_text(name, "beforeAll") {
            Some(EventType::BeforeAll)
        } else if same_text(name, "beforeEach") {
            Some(EventType::BeforeEach)
        } else if same_text(name, "before") {
            Some(EventType::Before)
        } else if same_text(name, "beforeEachValidation") {
            Some(EventType::BeforeEachValidation)
        } else if same_text(name, "beforeValidation") {
            Some(EventType::BeforeValidation)
        } else if same_text(name, "after") {
            Some(EventType::After)
        } else if same_text(name, "afterEach") {
            Some(EventType::AfterEach)
        } else if same_text(name, "afterAll") {
            Some(EventType::AfterAll)
        } else {
            None
        }
    }

    /// Whether the event carries all transactions at once.
    pub fn carries_all(&self) -> (r: bool)
        ensures
            r == self.spec_carries_all(),
    {
        match self {
            EventType::BeforeAll | EventType::AfterAll => true,
            _ => false,
        }
    }
}

/// The event whose wire name is `name`, if any.
pub open spec fn event_named(name: Seq<char>) -> Option<EventType> {
    if name == "beforeAll"@ {
        Some(EventType::BeforeAll)
    } else if name == "beforeEach"@ {
        Some(EventType::BeforeEach)
    } else if name == "before"@ {
        Some(EventType::Before)
    } else if name == "beforeEachValidation"@ {
        Some(EventType::BeforeEachValidation)
    } else if name == "beforeValidation"@ {
        Some(EventType::BeforeValidation)
    } else if name == "after"@ {
        Some(EventType::After)
    } else if name == "afterEach"@ {
        Some(EventType::AfterEach)
    } else if name == "afterAll"@ {
        Some(EventType::AfterAll)
    } else {
        None
    }
}

/// Reading back the wire name of an event gives that event again.
pub proof fn lemma_event_name_roundtrip(e: EventType)
    ensures
        event_named(e.spec_name()) == Some(e),
{
    reveal_strlit("beforeAll");
    reveal_strlit("beforeEach");
    reveal_strlit("before");
    reveal_strlit("beforeEachValidation");
    reveal_strlit("beforeValidation");
    reveal_strlit("after");
    reveal_strlit("afterEach");
    reveal_strlit("afterAll");
    assert("beforeAll"@.len() == 9 && "beforeEach"@.len() == 10 && "before"@.len() == 6);
    assert("beforeEachValidation"@.len() == 20 && "beforeValidation"@.len() == 16);
    assert("after"@.len() == 5 && "afterEach"@.len() == 9 && "afterAll"@.len() == 8);
    assert("afterEach"@[0] != "beforeAll"@[0]);
}

/// A wire name that is accepted names exactly one event: the one it is read as.
pub proof fn lemma_event_name_unique(name: Seq<char>, e: EventType)
    requires
        event_named(name) == Some(e),
    ensures
        e.spec_name() == name,
{
}

/// Different events travel under different names.
pub proof fn lemma_event_names_distinct(a: EventType, b: EventType)
    requires
        a != b,
    ensures
        a.spec_name() != b.spec_name(),
{
    lemma_event_name_roundtrip(a);
    lemma_event_name_roundtrip(b);
}

} // verus!
