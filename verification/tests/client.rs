use marquito::cli::{env_switch, parse_args, ArgsError, SubCommand};
use marquito::client::{create_url, file_message, MAX_PARALLEL_REQUESTS, SERVER_BASE_URL};
use marquito::config::{app_state, server_address, TIMEOUT_SECONDS};

fn argv(words: &[&str]) -> Vec<String> {
    words.iter().map(|w| w.to_string()).collect()
}

fn files(cmd: &SubCommand) -> Vec<String> {
    match cmd {
        SubCommand::Send { files } => files.clone(),
        SubCommand::Get { files, .. } => files.clone(),
    }
}

#[test]
fn send_and_its_alias() {
    for c in ["send", "s"] {
        let a = parse_args(&argv(&["luizito", c, "a.txt", "b.toml"]), false).unwrap();
        assert!(matches!(a.cmd, SubCommand::Send { .. }));
        assert_eq!(files(&a.cmd), argv(&["a.txt", "b.toml"]));
    }
}

#[test]
fn get_and_its_alias_and_the_save_switch() {
    for c in ["get", "d"] {
        let a = parse_args(&argv(&["luizito", c, "a.txt"]), false).unwrap();
        assert!(matches!(a.cmd, SubCommand::Get { save: false, .. }));
        let a = parse_args(&argv(&["luizito", c, "--save", "a.txt", "b"]), false).unwrap();
        assert!(matches!(a.cmd, SubCommand::Get { save: true, .. }));
        assert_eq!(files(&a.cmd), argv(&["a.txt", "b"]));
        let a = parse_args(&argv(&["luizito", c, "a.txt", "-s"]), false).unwrap();
        assert!(matches!(a.cmd, SubCommand::Get { save: true, .. }));
        let a = parse_args(&argv(&["luizito", c, "a.txt"]), true).unwrap();
        assert!(matches!(a.cmd, SubCommand::Get { save: true, .. }));
    }
}

#[test]
fn double_dash_makes_files_of_the_rest() {
    let a = parse_args(&argv(&["luizito", "get", "--", "-s", "--x", "-"]), false).unwrap();
    assert!(matches!(a.cmd, SubCommand::Get { save: false, .. }));
    assert_eq!(files(&a.cmd), argv(&["-s", "--x", "-"]));
    let a = parse_args(&argv(&["luizito", "send", "-", "x"]), false).unwrap();
    assert_eq!(files(&a.cmd), argv(&["-", "x"]));
}

#[test]
fn command_line_errors() {
    assert_eq!(parse_args(&argv(&["luizito"]), false).err(), Some(ArgsError::MissingSubcommand));
    assert_eq!(parse_args(&argv(&[]), false).err(), Some(ArgsError::MissingSubcommand));
    assert_eq!(
        parse_args(&argv(&["luizito", "put", "a"]), false).err(),
        Some(ArgsError::UnknownSubcommand)
    );
    assert_eq!(parse_args(&argv(&["luizito", "send"]), false).err(), Some(ArgsError::MissingFiles));
    assert_eq!(
        parse_args(&argv(&["luizito", "get", "-s"]), false).err(),
        Some(ArgsError::MissingFiles)
    );
    assert_eq!(
        parse_args(&argv(&["luizito", "send", "-s", "a"]), false).err(),
        Some(ArgsError::UnknownOption)
    );
    assert_eq!(
        parse_args(&argv(&["luizito", "get", "--help"]), false).err(),
        Some(ArgsError::UnknownOption)
    );
}

#[test]
fn the_save_switch_may_be_given_once() {
    let a = parse_args(&argv(&["luizito", "get", "-s", "a"]), false).unwrap();
    assert!(matches!(a.cmd, SubCommand::Get { save: true, .. }));
    let a = parse_args(&argv(&["luizito", "d", "a", "--save"]), false).unwrap();
    assert!(matches!(a.cmd, SubCommand::Get { save: true, .. }));
    for line in [
        &["luizito", "get", "-s", "-s", "a"][..],
        &["luizito", "get", "-ss", "a"][..],
        &["luizito", "get", "--save", "a", "-s"][..],
        &["luizito", "get", "--save", "--save", "a"][..],
    ] {
        assert_eq!(parse_args(&argv(line), false).err(), Some(ArgsError::RepeatedOption), "{:?}", line);
    }
    assert_eq!(
        parse_args(&argv(&["luizito", "get", "-s", "-s"]), false).err(),
        Some(ArgsError::MissingFiles)
    );
    assert_eq!(
        parse_args(&argv(&["luizito", "get", "-s", "-s", "-x", "a"]), false).err(),
        Some(ArgsError::UnknownOption)
    );
    assert_eq!(
        parse_args(&argv(&["luizito", "get", "-sx", "a"]), false).err(),
        Some(ArgsError::UnknownOption)
    );
}

#[test]
fn env_switch_values() {
    assert!(!env_switch(None));
    for off in ["n", "No", "F", "false", "OFF", "0"] {
        assert!(!env_switch(Some(off)), "{}", off);
    }
    for on in ["", "1", "yes", "true", "whatever", "nope"] {
        assert!(env_switch(Some(on)), "{}", on);
    }
}

#[test]
fn url_of_a_file() {
    assert_eq!(create_url("a.txt"), "http://127.0.0.1:23400/a.txt");
    assert_eq!(create_url(""), format!("http://{}/", SERVER_BASE_URL));
    assert_eq!(create_url("b"), format!("http://{}/b", server_address(None)));
}

#[test]
fn message_of_a_file() {
    assert_eq!(file_message("olá\n".as_bytes()), "olá\n");
    assert_eq!(file_message(b"\xff\xfe"), "This file contains non-utf8");
    assert_eq!(file_message(b""), "");
}

#[test]
fn settings() {
    assert_eq!(MAX_PARALLEL_REQUESTS, 16);
    assert_eq!(TIMEOUT_SECONDS, 5);
    assert_eq!(server_address(None), "127.0.0.1:23400");
    assert_eq!(server_address(Some("0.0.0.0:1".to_string())), "0.0.0.0:1");
    assert_eq!(app_state(None).directory, "files/");
    assert_eq!(app_state(Some("/tmp/x".to_string())).directory, "/tmp/x");
}
