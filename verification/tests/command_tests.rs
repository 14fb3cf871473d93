//! Tests of the command layer: parsing and the three operations.

use sparrow::{
    parse_command, Data, GetCommand, Nest, RemCommand, SetCommand,
};

const TEST_KEY: &str = "My key";
const TEST_VALUE: &str = "This is a test value!";

#[test]
fn command_test_parse_command_valid() {
    let get_cmd = parse_command(&Data::BulkString("GET key".to_string())).unwrap();
    assert_eq!(get_cmd.to_string(), "GET key");

    let set_cmd = parse_command(&Data::BulkString("SET key value".to_string())).unwrap();
    assert_eq!(set_cmd.to_string(), "SET key value");

    let rem_cmd = parse_command(&Data::BulkString("REM key".to_string())).unwrap();
    assert_eq!(rem_cmd.to_string(), "REM key");
}

#[test]
#[should_panic(expected = "Command not found: TOTO")]
fn command_test_parse_command_unknown() {
    parse_command(&Data::BulkString("TOTO key".to_string())).unwrap();
}

#[test]
#[should_panic(expected = "Command not found:")]
fn command_test_parse_command_empty() {
    parse_command(&Data::BulkString("".to_string())).unwrap();
}

#[test]
#[should_panic(expected = "Cannot parse command: data is not a bulk string")]
fn test_parse_command_null() {
    parse_command(&Data::Null).unwrap();
}

#[test]
fn get_command_test_command_new_1_args() {
    let args = &vec![TEST_KEY];
    let command = GetCommand::new(args).unwrap();
    assert_eq!(command.key().as_str(), TEST_KEY)
}

#[test]
#[should_panic(
    expected = "Cannot parse GET command arguments: Wrong number of arguments. Expected 1, got 0."
)]
fn get_command_test_command_new_0_args() {
    let args = &vec![];
    GetCommand::new(args).unwrap();
}

#[test]
#[should_panic(
    expected = "Cannot parse GET command arguments: Wrong number of arguments. Expected 1, got 2."
)]
fn get_command_test_command_new_2_args() {
    let args = &vec![TEST_KEY, TEST_VALUE];
    GetCommand::new(args).unwrap();
}

#[test]
fn set_command_test_command_new_2_args() {
    let args = &vec![TEST_KEY, TEST_VALUE];
    let command = SetCommand::new(args).unwrap();
    assert_eq!(command.key().as_str(), TEST_KEY);
    assert_eq!(command.value().as_str(), TEST_VALUE);
}

#[test]
#[should_panic(
    expected = "Cannot parse SET command arguments: Wrong number of arguments. Expected 2, got 0."
)]
fn set_command_test_command_new_0_args() {
    let args = &vec![];
    SetCommand::new(args).unwrap();
}

#[test]
#[should_panic(
    expected = "Cannot parse SET command arguments: Wrong number of arguments. Expected 2, got 3."
)]
fn set_command_test_command_new_3_args() {
    let args = &vec![TEST_KEY, TEST_VALUE, TEST_VALUE];
    SetCommand::new(args).unwrap();
}

#[test]
fn rem_command_test_command_new_1_args() {
    let args = &vec![TEST_KEY];
    let command = RemCommand::new(args).unwrap();
    assert_eq!(command.key().as_str(), TEST_KEY)
}

#[test]
#[should_panic(
    expected = "Cannot parse REM command arguments: Wrong number of arguments. Expected 1, got 0."
)]
fn rem_command_test_command_new_0_args() {
    let args = &vec![];
    RemCommand::new(args).unwrap();
}

#[test]
#[should_panic(
    expected = "Cannot parse REM command arguments: Wrong number of arguments. Expected 1, got 2."
)]
fn rem_command_test_command_new_2_args() {
    let args = &vec![TEST_KEY, TEST_VALUE];
    RemCommand::new(args).unwrap();
}

#[test]
fn test_get_command_execute() {
    let mut nest = Nest::new();
    let command = GetCommand::new(&vec![TEST_KEY]).unwrap();

    assert_eq!(command.execute(&mut nest), Data::Null);

    let set = SetCommand::new(&vec![TEST_KEY, TEST_VALUE]).unwrap();
    set.execute(&mut nest);
    assert_eq!(
        command.execute(&mut nest),
        Data::BulkString(TEST_VALUE.to_string())
    );
}

#[test]
fn test_set_command_execute() {
    let mut nest = Nest::new();
    let set = SetCommand::new(&vec![TEST_KEY, TEST_VALUE]).unwrap();

    assert_eq!(set.execute(&mut nest), Data::SimpleString("OK".to_string()));

    let egg = nest.get(TEST_KEY).unwrap();
    assert_eq!(egg.key(), TEST_KEY);
    assert_eq!(egg.value(), TEST_VALUE);
}

#[test]
fn test_rem_command_execute() {
    let mut nest = Nest::new();
    let command = RemCommand::new(&vec![TEST_KEY]).unwrap();

    // Removing an absent key is still acknowledged.
    assert_eq!(command.execute(&mut nest), Data::SimpleString("OK".to_string()));

    let set = SetCommand::new(&vec![TEST_KEY, TEST_VALUE]).unwrap();
    set.execute(&mut nest);
    assert_eq!(command.execute(&mut nest), Data::SimpleString("OK".to_string()));
    assert!(nest.get(TEST_KEY).is_none());
}

#[test]
fn test_parse_command_double_space_counts_empty_argument() {
    // Two spaces in a row make an empty token, so the count is wrong.
    let err = parse_command(&Data::BulkString("GET  key".to_string())).unwrap_err();
    assert_eq!(
        err.message().as_str(),
        "Cannot parse GET command arguments: Wrong number of arguments. Expected 1, got 2."
    );
}

#[test]
fn test_parse_command_is_case_sensitive() {
    let err = parse_command(&Data::BulkString("get key".to_string())).unwrap_err();
    assert_eq!(err.message().as_str(), "Command not found: get");
}
