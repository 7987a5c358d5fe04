use onnx_http::cli::{parse_args, resolve_pool_size, ArgError, Command, ExecutionProvider, ServeArgs};

fn args(a: &[&str]) -> Vec<String> {
    a.iter().map(|s| s.to_string()).collect()
}

fn serve(provider: ExecutionProvider, port: &str, pool_size: usize) -> Command {
    Command::Serve(ServeArgs { provider, port: port.to_string(), pool_size })
}

#[test]
fn no_arguments_serve_on_the_default_port() {
    assert_eq!(parse_args(&args(&[]), None).unwrap(), serve(ExecutionProvider::Cpu, "8901", 0));
    assert_eq!(
        parse_args(&args(&[]), Some("9100".to_string())).unwrap(),
        serve(ExecutionProvider::Cpu, "9100", 0)
    );
}

#[test]
fn download_subcommands() {
    assert_eq!(parse_args(&args(&["download"]), None).unwrap(), Command::ListCatalog);
    assert_eq!(parse_args(&args(&["download", "--list"]), None).unwrap(), Command::ListCatalog);
    assert_eq!(
        parse_args(&args(&["download", "bge-m3", "extra"]), None).unwrap(),
        Command::Download("bge-m3".to_string())
    );
    assert_eq!(parse_args(&args(&["models"]), None).unwrap(), Command::ListInstalled);
}

#[test]
fn server_options() {
    assert_eq!(
        parse_args(&args(&["--npu", "--port", "9000", "--pool-size", "3"]), Some("1".into())).unwrap(),
        serve(ExecutionProvider::Npu, "9000", 3)
    );
    assert_eq!(
        parse_args(&args(&["--npu", "--cpu"]), Some("7000".into())).unwrap(),
        serve(ExecutionProvider::Cpu, "7000", 0)
    );
    assert_eq!(
        parse_args(&args(&["--pool-size", "+2"]), None).unwrap(),
        serve(ExecutionProvider::Cpu, "8901", 2)
    );
}

#[test]
fn option_errors() {
    assert_eq!(parse_args(&args(&["--port"]), None).unwrap_err(), ArgError::MissingPortValue);
    assert_eq!(parse_args(&args(&["--pool-size"]), None).unwrap_err(), ArgError::MissingPoolSizeValue);
    assert_eq!(parse_args(&args(&["--pool-size", "x"]), None).unwrap_err(), ArgError::InvalidPoolSize);
    assert_eq!(parse_args(&args(&["--pool-size", "-1"]), None).unwrap_err(), ArgError::InvalidPoolSize);
    assert_eq!(parse_args(&args(&["--pool-size", "0"]), None).unwrap_err(), ArgError::ZeroPoolSize);
    assert_eq!(ArgError::MissingPortValue.message(), "--port requires a value");
    assert_eq!(ArgError::MissingPoolSizeValue.message(), "--pool-size requires a value");
    assert_eq!(ArgError::InvalidPoolSize.message(), "--pool-size must be a positive integer");
    assert_eq!(ArgError::ZeroPoolSize.message(), "--pool-size must be >= 1");
}

#[test]
fn help_and_unknown_options_stop_parsing() {
    assert_eq!(parse_args(&args(&["--help", "--port"]), None).unwrap(), Command::Help);
    assert_eq!(parse_args(&args(&["--npu", "-h"]), None).unwrap(), Command::Help);
    assert_eq!(
        parse_args(&args(&["--bogus", "--port"]), None).unwrap(),
        Command::UnknownOption("--bogus".to_string())
    );
    assert_eq!(parse_args(&args(&["--port", "1", "--port"]), None).unwrap_err(), ArgError::MissingPortValue);
}

#[test]
fn pool_size_defaults_by_provider() {
    assert_eq!(resolve_pool_size(0, ExecutionProvider::Npu), 2);
    assert_eq!(resolve_pool_size(0, ExecutionProvider::Cpu), 4);
    assert_eq!(resolve_pool_size(7, ExecutionProvider::Npu), 7);
}
