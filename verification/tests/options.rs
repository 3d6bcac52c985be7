use respstore::command::Role;
use respstore::options::{parse_args, ArgsError, Options, ReplicaOptions};

fn args(items: &[&str]) -> Vec<String> {
    items.iter().map(|s| s.to_string()).collect()
}

#[test]
fn no_arguments_give_the_defaults() {
    let expected = Options { port: "6379".to_string(), replica_options: None };
    assert_eq!(parse_args(&args(&["server"])), Ok(expected.clone()));
    assert_eq!(parse_args(&args(&[])), Ok(expected));
}

#[test]
fn port_option_sets_the_port() {
    let parsed = parse_args(&args(&["server", "--port", "7000"])).unwrap();
    assert_eq!(parsed.port, "7000");
    assert_eq!(parsed.replica_options, None);
}

#[test]
fn replicaof_option_splits_host_and_port_at_the_first_space() {
    let parsed = parse_args(&args(&["server", "--replicaof", "localhost 6379"])).unwrap();
    assert_eq!(parsed.port, "6379");
    assert_eq!(
        parsed.replica_options,
        Some(ReplicaOptions {
            master_host: "localhost".to_string(),
            master_port: "6379".to_string()
        })
    );
    let parsed = parse_args(&args(&["server", "--replicaof", "h 1 2"])).unwrap();
    assert_eq!(
        parsed.replica_options,
        Some(ReplicaOptions { master_host: "h".to_string(), master_port: "1 2".to_string() })
    );
    let parsed = parse_args(&args(&["server", "--replicaof", " "])).unwrap();
    assert_eq!(
        parsed.replica_options,
        Some(ReplicaOptions { master_host: String::new(), master_port: String::new() })
    );
}

#[test]
fn options_combine_and_the_last_one_wins() {
    let parsed = parse_args(&args(&[
        "server",
        "--port",
        "1",
        "--replicaof",
        "a 2",
        "--port",
        "3",
        "--replicaof",
        "b 4",
    ]))
    .unwrap();
    assert_eq!(parsed.port, "3");
    assert_eq!(
        parsed.replica_options,
        Some(ReplicaOptions { master_host: "b".to_string(), master_port: "4".to_string() })
    );
}

#[test]
fn non_ascii_host_is_split_by_characters() {
    let parsed = parse_args(&args(&["server", "--replicaof", "hôte 6380"])).unwrap();
    assert_eq!(
        parsed.replica_options,
        Some(ReplicaOptions { master_host: "hôte".to_string(), master_port: "6380".to_string() })
    );
}

#[test]
fn unknown_option_is_refused() {
    assert_eq!(parse_args(&args(&["server", "--verbose"])), Err(ArgsError::UnexpectedOption));
    assert_eq!(parse_args(&args(&["server", "7000"])), Err(ArgsError::UnexpectedOption));
    assert_eq!(parse_args(&args(&["server", "--PORT", "1"])), Err(ArgsError::UnexpectedOption));
}

#[test]
fn option_without_value_is_refused() {
    assert_eq!(parse_args(&args(&["server", "--port"])), Err(ArgsError::MissingValue));
    assert_eq!(parse_args(&args(&["server", "--replicaof"])), Err(ArgsError::MissingValue));
    assert_eq!(
        parse_args(&args(&["server", "--port", "1", "--port"])),
        Err(ArgsError::MissingValue)
    );
}

#[test]
fn master_without_separator_is_refused() {
    assert_eq!(
        parse_args(&args(&["server", "--replicaof", "localhost:6379"])),
        Err(ArgsError::MissingSeparator)
    );
    assert_eq!(parse_args(&args(&["server", "--replicaof", ""])), Err(ArgsError::MissingSeparator));
}

#[test]
fn the_first_offending_argument_decides_the_error() {
    assert_eq!(
        parse_args(&args(&["server", "--replicaof", "nospace", "--bogus"])),
        Err(ArgsError::MissingSeparator)
    );
    assert_eq!(
        parse_args(&args(&["server", "--bogus", "--port"])),
        Err(ArgsError::UnexpectedOption)
    );
}

#[test]
fn role_follows_the_options() {
    let master = Role::from_options(&parse_args(&args(&["server"])).unwrap());
    match master {
        Role::Master { replication_id, replication_offset } => {
            assert_eq!(replication_id, "8371b4fb1155b71f4a04d3e1bc3e18c4a990aeeb");
            assert_eq!(replication_id.len(), 40);
            assert_eq!(replication_offset, 0);
        }
        Role::Replica { .. } => panic!("expected a master"),
    }
    let replica =
        Role::from_options(&parse_args(&args(&["server", "--replicaof", "m 6379"])).unwrap());
    assert_eq!(
        replica,
        Role::Replica { master_host: "m".to_string(), master_port: "6379".to_string() }
    );
}
