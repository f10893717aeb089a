use croniq::jwt_secret::{env_principal, resolve_jwt_secret, whoami_principal};

#[test]
fn the_environment_wins_over_the_file() {
    assert_eq!(resolve_jwt_secret(Some("  env-secret \n"), Some("file-secret")), Some("env-secret".to_string()));
}

#[test]
fn a_blank_environment_value_falls_back_to_the_file() {
    assert_eq!(resolve_jwt_secret(Some("   "), Some("file-secret\n")), Some("file-secret".to_string()));
    assert_eq!(resolve_jwt_secret(None, Some("file-secret")), Some("file-secret".to_string()));
}

#[test]
fn nothing_usable_means_a_new_secret() {
    assert_eq!(resolve_jwt_secret(None, None), None);
    assert_eq!(resolve_jwt_secret(Some(""), Some(" \n")), None);
}

#[test]
fn whoami_csv_yields_the_sid() {
    assert_eq!(
        whoami_principal("\"desktop\\\\alex\",\"S-1-5-21-1004\"\r\n"),
        Some("*S-1-5-21-1004".to_string())
    );
}

#[test]
fn whoami_output_without_a_sid_yields_nothing() {
    assert_eq!(whoami_principal("\"desktop\\\\alex\",\"unknown\""), None);
    assert_eq!(whoami_principal("no commas here"), None);
}

#[test]
fn the_environment_principal_is_domain_qualified() {
    assert_eq!(env_principal(Some("alex"), Some("CORP")), Ok("CORP\\alex".to_string()));
    assert_eq!(env_principal(Some("alex"), Some(" ")), Ok("alex".to_string()));
    assert_eq!(env_principal(Some("alex"), None), Ok("alex".to_string()));
}

#[test]
fn no_user_name_is_an_error() {
    assert!(env_principal(None, Some("CORP")).unwrap_err().contains("USERNAME is unset"));
    assert!(env_principal(Some("  "), None).is_err());
}
