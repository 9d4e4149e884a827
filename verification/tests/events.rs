use dredd_hooks::EventType;

const ALL: [(EventType, &str); 8] = [
    (EventType::BeforeAll, "beforeAll"),
    (EventType::BeforeEach, "beforeEach"),
    (EventType::Before, "before"),
    (EventType::BeforeEachValidation, "beforeEachValidation"),
    (EventType::BeforeValidation, "beforeValidation"),
    (EventType::After, "after"),
    (EventType::AfterEach, "afterEach"),
    (EventType::AfterAll, "afterAll"),
];

#[test]
fn event_names_match_the_wire_format() {
    for (event, name) in ALL {
        assert_eq!(event.name(), name);
        assert_eq!(EventType::from_name(name), Some(event));
    }
}

#[test]
fn unknown_event_names_are_refused() {
    assert_eq!(EventType::from_name("beforeall"), None);
    assert_eq!(EventType::from_name(""), None);
    assert_eq!(EventType::from_name("afterEach "), None);
}

#[test]
fn only_all_events_carry_all_transactions() {
    for (event, _) in ALL {
        let expected = event == EventType::BeforeAll || event == EventType::AfterAll;
        assert_eq!(event.carries_all(), expected);
    }
}
