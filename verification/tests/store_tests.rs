//! Tests of the record, the store, and the engine.

use sparrow::{Data, Egg, Engine, Nest};

const TEST_EGG_KEY: &str = "test";
const TEST_EGG_VALUE: &str = "This is a test value!";
const TEST_KEY: &str = "key";
const TEST_VALUE: &str = "value";

#[test]
fn egg_test_egg_new() {
    Egg::new(TEST_EGG_KEY, TEST_EGG_VALUE);
}

#[test]
fn test_create_new_egg() {
    let egg_key = "test";
    let egg_value = "This is a test value!";
    Egg::new(egg_key, egg_value);
}

#[test]
fn test_egg_getters() {
    let egg_key = "test";
    let egg_value = "This is a test value!";
    let egg = Egg::new(egg_key, egg_value);

    assert_eq!(egg.key(), egg_key);
    assert_eq!(egg.value(), egg_value);

    let current_time = chrono::Utc::now().naive_utc();
    assert!(egg.created_at() < &current_time);
}

#[test]
fn test_egg_equality_ignores_creation_time() {
    let first = Egg::new(TEST_EGG_KEY, TEST_EGG_VALUE);
    let second = Egg::new(TEST_EGG_KEY, TEST_EGG_VALUE);
    assert!(first.created_at() <= second.created_at());
    assert_eq!(first, second);
}

#[test]
fn test_egg_to_string() {
    let egg = Egg::new(TEST_EGG_KEY, TEST_EGG_VALUE);
    let text = egg.to_string();
    assert!(text.starts_with("{ key=test, value=This is a test value!, created_at="));
    assert!(text.ends_with(" }"));
}

#[test]
fn nest_test_new_nest() {
    Nest::new();
}

#[test]
fn nest_test_nest_new() {
    Nest::new();
}

#[test]
fn test_nest_set_get_rem() {
    let mut nest = Nest::new();
    assert!(nest.get(TEST_EGG_KEY).is_none());

    nest.set(Egg::new(TEST_EGG_KEY, TEST_EGG_VALUE));
    let egg = nest.get(TEST_EGG_KEY).unwrap();
    assert_eq!(egg.key(), TEST_EGG_KEY);
    assert_eq!(egg.value(), TEST_EGG_VALUE);

    // Overwriting replaces the record wholesale.
    nest.set(Egg::new(TEST_EGG_KEY, "newer"));
    assert_eq!(nest.get(TEST_EGG_KEY).unwrap().value(), "newer");

    nest.rem(TEST_EGG_KEY);
    assert!(nest.get(TEST_EGG_KEY).is_none());

    // Removing what is already gone is quietly done.
    nest.rem(TEST_EGG_KEY);
    assert!(nest.get(TEST_EGG_KEY).is_none());
}

#[test]
fn test_engine_new() {
    Engine::new();
}

#[test]
fn test_run_engine() {
    let mut engine = Engine::new();

    // A SET is acknowledged with OK.
    let data = Data::BulkString(format!("SET {} {}", TEST_KEY, TEST_VALUE));
    let output = engine.process(&data);
    assert_eq!(output, Data::SimpleString("OK".to_string()));

    // A GET of the key answers the stored value.
    let data = Data::BulkString(format!("GET {}", TEST_KEY));
    let output = engine.process(&data);
    assert_eq!(output, Data::BulkString(TEST_VALUE.to_string()));
}

#[test]
fn test_engine_get_never_set_is_null() {
    let mut engine = Engine::new();
    let output = engine.process(&Data::BulkString("GET nobody".to_string()));
    assert_eq!(output, Data::Null);
}

#[test]
fn test_engine_rem_then_get() {
    let mut engine = Engine::new();
    engine.process(&Data::BulkString(format!("SET {} {}", TEST_KEY, TEST_VALUE)));

    // REM always answers OK, present or not.
    let output = engine.process(&Data::BulkString(format!("REM {}", TEST_KEY)));
    assert_eq!(output, Data::SimpleString("OK".to_string()));
    let output = engine.process(&Data::BulkString(format!("REM {}", TEST_KEY)));
    assert_eq!(output, Data::SimpleString("OK".to_string()));

    let output = engine.process(&Data::BulkString(format!("GET {}", TEST_KEY)));
    assert_eq!(output, Data::Null);
}

#[test]
fn test_engine_later_set_wins() {
    // Two SETs of one key, in each of the two orders the queue could
    // hand them over: the later processed one decides, whole.
    let mut engine = Engine::new();
    engine.process(&Data::BulkString("SET k first".to_string()));
    engine.process(&Data::BulkString("SET k second".to_string()));
    let output = engine.process(&Data::BulkString("GET k".to_string()));
    assert_eq!(output, Data::BulkString("second".to_string()));

    let mut engine = Engine::new();
    engine.process(&Data::BulkString("SET k second".to_string()));
    engine.process(&Data::BulkString("SET k first".to_string()));
    let output = engine.process(&Data::BulkString("GET k".to_string()));
    assert_eq!(output, Data::BulkString("first".to_string()));
}

#[test]
fn test_engine_parse_failure_answers_error() {
    let mut engine = Engine::new();
    let output = engine.process(&Data::BulkString("TOTO key".to_string()));
    assert_eq!(output, Data::Error("Command not found: TOTO".to_string()));

    let output = engine.process(&Data::Integer(3));
    assert_eq!(
        output,
        Data::Error("Cannot parse command: data is not a bulk string".to_string())
    );

    // A failed command never touches the store.
    let output = engine.process(&Data::BulkString("GET key".to_string()));
    assert_eq!(output, Data::Null);
}
