use croniq::placeholders::{resolve, HostInputs, PlaceholderError};

fn no_host() -> HostInputs {
    HostInputs { env: Vec::new(), files: Vec::new() }
}

#[test]
fn resolve_vars() {
    let vars = vec![("tz".to_string(), "Europe/Vienna".to_string())];
    assert_eq!(resolve("vars.tz", &vars, &no_host()).unwrap(), "Europe/Vienna");
}

#[test]
fn resolve_env_with_default() {
    let vars = Vec::new();
    // Unlikely to exist
    let result = resolve("$CRONIQ_TEST_NONEXISTENT:fallback", &vars, &no_host());
    assert_eq!(result.unwrap(), "fallback");
}

#[test]
fn unresolved_error() {
    let vars = Vec::new();
    let result = resolve("vars.nope", &vars, &no_host());
    assert!(result.is_err());
}

#[test]
fn dollar_variable_prefers_the_environment_over_the_default() {
    let host = HostInputs { env: vec![("HOME_DIR".to_string(), "/home/x".to_string())], files: Vec::new() };
    assert_eq!(resolve("$HOME_DIR:/tmp", &Vec::new(), &host).unwrap(), "/home/x");
    assert_eq!(resolve("$HOME_DIR", &Vec::new(), &host).unwrap(), "/home/x");
}

#[test]
fn dollar_variable_without_default_is_unresolved() {
    let err = resolve("$MISSING", &Vec::new(), &no_host()).unwrap_err();
    assert_eq!(err.message(), "unresolved placeholder '$MISSING'");
}

#[test]
fn env_prefix_reads_the_environment() {
    let host = HostInputs { env: vec![("TOKEN".to_string(), "abc".to_string())], files: Vec::new() };
    assert_eq!(resolve("env.TOKEN", &Vec::new(), &host).unwrap(), "abc");
    let err = resolve("env.OTHER", &Vec::new(), &host).unwrap_err();
    assert_eq!(err.message(), "unresolved placeholder 'env.OTHER'");
}

#[test]
fn file_prefix_reads_trimmed_contents() {
    let host = HostInputs {
        env: Vec::new(),
        files: vec![
            ("/run/secret".to_string(), Ok("  s3cret\n".to_string())),
            ("/run/gone".to_string(), Err("No such file or directory (os error 2)".to_string())),
        ],
    };
    assert_eq!(resolve("file./run/secret", &Vec::new(), &host).unwrap(), "s3cret");
    let err = resolve("file./run/gone", &Vec::new(), &host).unwrap_err();
    assert!(matches!(err, PlaceholderError::FileRead(_, _)));
    assert_eq!(err.message(), "cannot read file '/run/gone': No such file or directory (os error 2)");
}

#[test]
fn unknown_prefix_is_reported() {
    let err = resolve("secret.x", &Vec::new(), &no_host()).unwrap_err();
    assert_eq!(err.message(), "unknown placeholder prefix: 'secret.x'");
}
