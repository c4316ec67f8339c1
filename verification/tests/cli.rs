use ospfd::cli::{
    client_name, control_socket_path, lock_path, parse_args, CliError, Command, IoBackend,
    OutputFormat,
};
use ospfd::control::reply::ControlRequest;

/// The arguments behind the name of the program.
fn args(words: &[&str]) -> Vec<String> {
    words.iter().skip(1).map(|w| w.to_string()).collect()
}

fn error(words: &[&str]) -> CliError {
    parse_args(&args(words)).unwrap_err()
}

#[test]
fn daemon_options_have_defaults() {
    match parse_args(&args(&["ospfd", "--config", "/tmp/x.yaml"])).unwrap() {
        Command::Run(r) => {
            assert_eq!(r.config_path, "/tmp/x.yaml");
            assert_eq!(r.vpp_api_socket, "/run/vpp/api.sock");
            assert_eq!(r.control_socket, "/run/ospfd.sock");
            assert_eq!(r.io_backend, IoBackend::Raw);
            assert_eq!(r.vrf_deprecated, None);
        }
        Command::Query(_) => panic!("no query"),
    }
}

#[test]
fn daemon_options_are_taken() {
    let words = [
        "ospfd", "--vpp-api", "/v", "--control-socket", "/c", "--io", "punt", "--vrf", "red",
    ];
    match parse_args(&args(&words)).unwrap() {
        Command::Run(r) => {
            assert_eq!(r.config_path, "/etc/ospfd/config.yaml");
            assert_eq!(r.vpp_api_socket, "/v");
            assert_eq!(r.control_socket, "/c");
            assert_eq!(r.io_backend, IoBackend::Punt);
            assert_eq!(r.vrf_deprecated.as_deref(), Some("red"));
        }
        Command::Query(_) => panic!("no query"),
    }
}

#[test]
fn queries_name_their_subject() {
    let words = ["ospfd", "query", "database", "--area", "0.0.0.0", "--type", "router"];
    match parse_args(&args(&words)).unwrap() {
        Command::Query(q) => {
            assert_eq!(q.control_socket, "/run/ospfd.sock");
            assert_eq!(q.output, OutputFormat::Text);
            match q.request {
                ControlRequest::Database { area, ls_type } => {
                    assert_eq!(area.as_deref(), Some("0.0.0.0"));
                    assert_eq!(ls_type.as_deref(), Some("router"));
                }
                _ => panic!("expected the database"),
            }
        }
        Command::Run(_) => panic!("no daemon"),
    }
    for subject in ["status", "neighbors", "interfaces", "routes", "status6", "neighbors6",
        "interfaces6", "database6", "routes6"]
    {
        assert!(matches!(parse_args(&args(&["ospfd", "query", subject])), Ok(Command::Query(_))));
    }
}

#[test]
fn each_wrong_command_line_has_its_error() {
    assert!(matches!(error(&["ospfd"]), CliError::NoArguments));
    assert!(matches!(error(&["ospfd", "--help"]), CliError::Help));
    assert_eq!(error(&["ospfd", "--help"]).exit_code(), 0);
    assert!(matches!(error(&["ospfd", "--config"]), CliError::MissingValue { .. }));
    let backend = error(&["ospfd", "--io", "fast"]);
    assert_eq!(backend.message(), "Unknown --io value: fast (expected raw|punt)");
    assert_eq!(backend.exit_code(), 1);
    assert_eq!(error(&["ospfd", "--fast"]).message(), "Unknown argument: --fast");
    assert!(matches!(error(&["ospfd", "query"]), CliError::MissingSubject));
    assert_eq!(
        error(&["ospfd", "query", "status", "--output", "xml"]).message(),
        "Unknown output format: xml (expected text|json)"
    );
    assert_eq!(
        error(&["ospfd", "query", "status", "--fast"]).message(),
        "Unknown query argument: --fast"
    );
    assert_eq!(error(&["ospfd", "query", "weather"]).message(), "Unknown query subject: weather");
}

#[test]
fn each_vrf_has_its_own_socket() {
    assert_eq!(control_socket_path(&None), "/run/ospfd.sock");
    assert_eq!(control_socket_path(&Some("red".to_string())), "/run/ospfd@red.sock");
    assert_ne!(
        control_socket_path(&Some("red".to_string())),
        control_socket_path(&Some("blue".to_string()))
    );
    assert_eq!(client_name(&None), "ospfd");
    assert_eq!(client_name(&Some("red".to_string())), "ospfd@red");
    assert_eq!(lock_path("/run/ospfd.sock"), "/run/ospfd.sock.lock");
}
