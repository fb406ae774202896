use why::inspectors::environment::{env_visibility, is_secret_key, scan_env_variables, EnvVisibility};

#[test]
fn test_is_secret_key() {
    assert!(is_secret_key("GITHUB_TOKEN"));
    assert!(is_secret_key("AWS_SECRET_ACCESS_KEY"));
    assert!(is_secret_key("DB_PASSWORD"));
    assert!(is_secret_key("DATABASE_URL"));
    assert!(!is_secret_key("PATH"));
    assert!(!is_secret_key("NODE_ENV"));
}

#[test]
fn secret_detection_ignores_case() {
    assert!(is_secret_key("github_token"));
    assert!(is_secret_key("Ssl_Cert_File"));
    assert!(!is_secret_key("home"));
}

#[test]
fn scan_matches_names_ignoring_case() {
    let vars = vec![
        ("NODE_ENV".to_string(), "dev".to_string()),
        ("PATH".to_string(), "/bin".to_string()),
        ("node_options".to_string(), "x".to_string()),
    ];
    let found = scan_env_variables("Node", vars);
    let names: Vec<&str> = found.iter().map(|(k, _)| k.as_str()).collect();
    assert_eq!(names, vec!["NODE_ENV", "node_options"]);
}

#[test]
fn visibility_masks_secrets_even_when_shown() {
    assert_eq!(env_visibility("API_KEY", true), EnvVisibility::Masked);
    assert_eq!(env_visibility("NODE_ENV", true), EnvVisibility::Shown);
    assert_eq!(env_visibility("NODE_ENV", false), EnvVisibility::Hidden);
}

#[test]
fn secret_detection_same_for_ascii_lowercase() {
    for key in ["GITHUB_TOKEN", "Api_Key", "PATH", "conn_STRING", "Node_Env", "ssh_private_KEY_FILE"] {
        assert_eq!(is_secret_key(key), is_secret_key(&key.to_ascii_lowercase()));
        assert_eq!(is_secret_key(key), is_secret_key(&key.to_ascii_uppercase()));
    }
}

#[test]
fn secret_detection_same_for_ascii_lowercase_of_any_name() {
    for key in ["STRAßE_TOKEN", "ÜBER_Key", "Ünits", "CAFÉ_AUTH", "ﬁle_path"] {
        assert_eq!(is_secret_key(key), is_secret_key(&key.to_ascii_lowercase()));
    }
}
