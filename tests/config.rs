use projector::config::{get_config, get_pwd, Config, ConfigError, Operation};
use projector::opts::Opts;

fn home() -> Option<String> {
    Some("/home/user".to_string())
}

fn cwd() -> Option<String> {
    Some("/home/user/work".to_string())
}

fn args(words: &[&str]) -> Vec<String> {
    words.iter().map(|w| w.to_string()).collect()
}

#[test]
fn test_print_all() -> Result<(), ConfigError> {
    let config: Config = Config::from_opts(
        Opts {
            args: vec![],
            config: None,
            pwd: None,
        },
        home(),
        cwd(),
    )?;

    assert_eq!(config.operation, Operation::Print(None));

    Ok(())
}

#[test]
fn test_print_key() -> Result<(), ConfigError> {
    let config: Config = Config::from_opts(
        Opts {
            args: vec!["foo".to_string()],
            config: None,
            pwd: None,
        },
        home(),
        cwd(),
    )?;

    assert_eq!(config.operation, Operation::Print(Some("foo".to_string())));

    Ok(())
}

#[test]
fn test_add_key_value() -> Result<(), ConfigError> {
    let config: Config = Config::from_opts(
        Opts {
            args: vec!["add".to_string(), "foo".to_string(), "bar".to_string()],
            config: None,
            pwd: None,
        },
        home(),
        cwd(),
    )?;

    assert_eq!(
        config.operation,
        Operation::Add("foo".to_string(), "bar".to_string())
    );

    Ok(())
}

#[test]
fn test_remove_key_value() -> Result<(), ConfigError> {
    let config: Config = Config::from_opts(
        Opts {
            args: vec!["rm".to_string(), "foo".to_string()],
            config: None,
            pwd: None,
        },
        home(),
        cwd(),
    )?;

    assert_eq!(config.operation, Operation::Remove("foo".to_string()));

    Ok(())
}

#[test]
fn add_needs_two_arguments() {
    assert_eq!(
        Operation::from_args(args(&["add", "foo"])),
        Err(ConfigError::AddArity(1))
    );
    assert_eq!(
        Operation::from_args(args(&["add", "a", "b", "c"])),
        Err(ConfigError::AddArity(3))
    );
}

#[test]
fn rm_needs_one_argument() {
    assert_eq!(
        Operation::from_args(args(&["rm"])),
        Err(ConfigError::RemoveArity(0))
    );
    assert_eq!(
        Operation::from_args(args(&["rm", "a", "b"])),
        Err(ConfigError::RemoveArity(2))
    );
}

#[test]
fn print_takes_at_most_one_argument() {
    assert_eq!(
        Operation::from_args(args(&["foo", "bar"])),
        Err(ConfigError::PrintArity(1))
    );
}

#[test]
fn default_backing_file_is_under_home() {
    assert_eq!(
        get_config(None, Some("/home/user".to_string())),
        Ok("/home/user/projector/projector.json".to_string())
    );
    assert_eq!(
        get_config(Some("/etc/p.json".to_string()), None),
        Ok("/etc/p.json".to_string())
    );
    assert_eq!(get_config(None, None), Err(ConfigError::NoHome));
}

#[test]
fn anchor_defaults_to_current_directory() {
    assert_eq!(
        get_pwd(None, Some("/tmp".to_string())),
        Ok("/tmp".to_string())
    );
    assert_eq!(
        get_pwd(Some("/a".to_string()), Some("/tmp".to_string())),
        Ok("/a".to_string())
    );
    assert_eq!(get_pwd(None, None), Err(ConfigError::NoCurrentDir));
}

#[test]
fn given_paths_win_over_environment() {
    let config = Config::from_opts(
        Opts {
            args: vec![],
            config: Some("/c/p.json".to_string()),
            pwd: Some("/w".to_string()),
        },
        None,
        None,
    )
    .unwrap();
    assert_eq!(config.config, "/c/p.json");
    assert_eq!(config.pwd, "/w");
}

#[test]
fn operation_error_comes_before_path_errors() {
    let r = Config::from_opts(
        Opts {
            args: args(&["rm"]),
            config: None,
            pwd: None,
        },
        None,
        None,
    );
    assert_eq!(r.err(), Some(ConfigError::RemoveArity(0)));
    let r = Config::from_opts(
        Opts {
            args: vec![],
            config: None,
            pwd: None,
        },
        None,
        None,
    );
    assert_eq!(r.err(), Some(ConfigError::NoHome));
    let r = Config::from_opts(
        Opts {
            args: vec![],
            config: None,
            pwd: None,
        },
        home(),
        None,
    );
    assert_eq!(r.err(), Some(ConfigError::NoCurrentDir));
}
