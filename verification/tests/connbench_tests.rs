use velamq_bench::connbench::{
    apply_arg, check_config, client_id, normalize_error, parse_bool, parse_target, parse_value,
    take_value, topic_for_client, wants_help, ArgStep, ConnbenchConfig,
};

fn args(v: &[&str]) -> Vec<String> {
    v.iter().map(|s| s.to_string()).collect()
}

#[test]
fn booleans_accept_common_words() {
    for word in ["1", "true", "YES", "On"] {
        assert_eq!(parse_bool(word, "--x"), Ok(true));
    }
    for word in ["0", "False", "no", "OFF"] {
        assert_eq!(parse_bool(word, "--x"), Ok(false));
    }
    assert_eq!(parse_bool("maybe", "--clean-session"), Err("--clean-session expects true/false".to_string()));
}

#[test]
fn targets_split_at_the_last_colon() {
    assert_eq!(parse_target("127.0.0.1:1883"), Ok(("127.0.0.1".to_string(), 1883)));
    assert_eq!(parse_target("[::1]:8883"), Ok(("::1".to_string(), 8883)));
    assert_eq!(parse_target("host"), Err("--target must be host:port".to_string()));
    assert_eq!(
        parse_target("host:99999"),
        Err("--target port invalid value \"99999\": number too large to fit in target type".to_string())
    );
}

#[test]
fn values_report_std_parse_errors() {
    assert_eq!(parse_value("42", "--clients", u64::MAX), Ok(42));
    assert_eq!(parse_value("+7", "--qos", 255), Ok(7));
    assert_eq!(
        parse_value("", "--clients", u64::MAX),
        Err("--clients invalid value \"\": cannot parse integer from empty string".to_string())
    );
    assert_eq!(
        parse_value("-1", "--clients", u64::MAX),
        Err("--clients invalid value \"-1\": invalid digit found in string".to_string())
    );
    assert_eq!(
        parse_value("256", "--qos", 255),
        Err("--qos invalid value \"256\": number too large to fit in target type".to_string())
    );
    assert_eq!(
        "x".parse::<u8>().unwrap_err().to_string(),
        "invalid digit found in string"
    );
}

#[test]
fn take_value_consumes_one_argument() {
    let mut rest = args(&["a", "b"]);
    assert_eq!(take_value(&mut rest, "--host"), Ok("a".to_string()));
    assert_eq!(rest, args(&["b"]));
    let mut empty: Vec<String> = Vec::new();
    assert_eq!(take_value(&mut empty, "--host"), Err("--host requires a value".to_string()));
}

#[test]
fn errors_are_grouped_by_cause() {
    assert_eq!(normalize_error("IO: Connection Refused (os error 111)".into()), "connection refused");
    assert_eq!(normalize_error("Quota exceeded for client".into()), "quota exceeded");
    assert_eq!(normalize_error("connection LIMIT REACHED".into()), "quota exceeded");
    assert_eq!(normalize_error("I/O error: Broken pipe".into()), "io error");
    assert_eq!(normalize_error("something else".into()), "something else");
}

fn parse_all(list: &[&str]) -> Result<(ConnbenchConfig, Option<String>), String> {
    let mut rest = args(list);
    let mut config = ConnbenchConfig::default();
    let mut rate = None;
    while !rest.is_empty() {
        let key = rest.remove(0);
        match apply_arg(&mut config, &key, &mut rest)? {
            ArgStep::Applied => {}
            ArgStep::ConnectRate(text) => rate = Some(text),
        }
    }
    check_config(&config, false)?;
    Ok((config, rate))
}

#[test]
fn arguments_set_options() {
    let (config, rate) = parse_all(&[
        "--target", "10.0.0.1:1884", "--clients", "10", "--start-index", "5", "--client-prefix", "p",
        "--connect-rate", "250.5", "--clean-session", "false", "--username", "u", "--qos", "1",
        "--max-in-flight-spawns", "8", "--report-json", "out.json", "--topic", "t/{client}",
    ])
    .unwrap();
    assert_eq!(config.host, "10.0.0.1");
    assert_eq!(config.port, 1884);
    assert_eq!(config.clients, 10);
    assert_eq!(config.start_index, 5);
    assert_eq!(config.client_prefix, "p");
    assert!(!config.clean_session);
    assert_eq!(config.username.as_deref(), Some("u"));
    assert_eq!(config.qos, 1);
    assert_eq!(config.max_in_flight_spawns, 8);
    assert_eq!(config.report_json.as_deref(), Some("out.json"));
    assert_eq!(config.topic, "t/{client}");
    assert_eq!(rate.as_deref(), Some("250.5"));
    let (defaults, _) = parse_all(&[]).unwrap();
    assert_eq!(defaults.host, "127.0.0.1");
    assert_eq!(defaults.clients, 1000);
    assert_eq!(defaults.topic, "velamq/bench/{client_id}");
}

#[test]
fn argument_errors_name_the_option() {
    assert_eq!(parse_all(&["--bogus"]).unwrap_err(), "unknown argument --bogus; use --help");
    assert_eq!(parse_all(&["--clients"]).unwrap_err(), "--clients requires a value");
    assert_eq!(parse_all(&["--connect-rate-per-sec"]).unwrap_err(), "--connect-rate requires a value");
    assert_eq!(parse_all(&["--clients", "0"]).unwrap_err(), "--clients must be greater than 0");
    assert_eq!(parse_all(&["--qos", "3"]).unwrap_err(), "--qos must be 0, 1, or 2");
    let config = ConnbenchConfig::default();
    assert_eq!(check_config(&config, true), Err("--connect-rate must be >= 0".to_string()));
    assert!(wants_help(&args(&["--clients", "3", "-h"])));
    assert!(!wants_help(&args(&["--host", "h"])));
}

#[test]
fn client_topics_fill_placeholders() {
    assert_eq!(client_id("pre", 12), "pre-12");
    assert_eq!(topic_for_client("a/{client}/{client_id}", "pre", 3), "a/3/pre-3");
}
