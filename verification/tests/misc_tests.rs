//! Tests of the small helpers: tokens, messages, CLI descriptions,
//! and error values.

use sparrow::{
    next_token, Cli, CliFlag, CliOpt, EggNotInNestError, Message, PoisonedInputQueueError,
    PoisonedOutputQueueError, Token,
};

#[test]
fn test_next_token() {
    // Ref token is the reference unique token
    let mut ref_token = Token(0);
    assert_eq!(ref_token.0, 0);

    // token has the previous ref_token value
    // ref_token value is incremented
    let token = next_token(&mut ref_token);
    assert_eq!(token.0, 0);
    assert_eq!(ref_token.0, 1);

    // token value has not changed
    // new_token has the previous ref_token value
    // ref_token value is incremented
    let new_token = next_token(&mut ref_token);
    assert_eq!(token.0, 0);
    assert_eq!(new_token.0, 1);
    assert_eq!(ref_token.0, 2);
}

#[test]
fn test_message_getters() {
    let message = Message::new(7, "hello".to_string());
    assert_eq!(message.id(), 7);
    assert_eq!(message.content(), "hello");
}

#[test]
fn test_message_clone_keeps_parts() {
    let message = Message::new(3, 40u64);
    let copy = message.clone();
    assert_eq!(copy.id(), 3);
    assert_eq!(*copy.content(), 40u64);
}

#[test]
fn test_cli_new() {
    Cli::new();
    Cli::default();
}

#[test]
fn test_cli_opt_new() {
    let opt = CliOpt::new("p", "port", "set tcp server port", "PORT", "TCP_SERVER_PORT");
    assert_eq!(opt.short_name, "p");
    assert_eq!(opt.long_name, "port");
    assert_eq!(opt.description, "set tcp server port");
    assert_eq!(opt.placeholder, "PORT");
    assert_eq!(opt.evar_name, "TCP_SERVER_PORT");
}

#[test]
fn test_cli_flag_new() {
    let flag = CliFlag::new("h", "help", "display this message");
    assert_eq!(flag.short_name, "h");
    assert_eq!(flag.long_name, "help");
    assert_eq!(flag.description, "display this message");
}

#[test]
fn test_poisoned_queue_errors() {
    let input_err = PoisonedInputQueueError::new("went away");
    assert_eq!(input_err.message(), "went away");
    assert_eq!(input_err, PoisonedInputQueueError::new("went away"));
    assert_eq!(
        input_err.to_string(),
        "Engine input queue was poisoned: went away"
    );

    let output_err = PoisonedOutputQueueError::new("gone too");
    assert_eq!(output_err.message(), "gone too");
    assert_ne!(output_err, PoisonedOutputQueueError::new("other"));
    assert_eq!(
        output_err.to_string(),
        "Engine output queue was poisoned: gone too"
    );
}

#[test]
fn test_egg_not_in_nest_error() {
    let err = EggNotInNestError::new("missing");
    assert_eq!(err.key(), "missing");
    assert_eq!(err, EggNotInNestError::new("missing"));
    assert_eq!(
        err.to_string(),
        "No egg with key \"missing\" was found in the nest"
    );
}
