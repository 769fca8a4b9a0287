use k8s_ldap_auth::args::LogLevel;
use k8s_ldap_auth::error::ErrorChain;
use k8s_ldap_auth::logging::banner;
use k8s_ldap_auth::logging::coloured_head;
use k8s_ldap_auth::logging::convert_to_tracing_levels;
use k8s_ldap_auth::logging::env_var_notice;
use k8s_ldap_auth::logging::format_error_chain;
use k8s_ldap_auth::logging::get_level_ansi;
use k8s_ldap_auth::logging::level_name;
use k8s_ldap_auth::logging::log_file_warning;
use k8s_ldap_auth::logging::plain_head;
use k8s_ldap_auth::logging::Level;

const BASE_IDENT_NUM_COLUMNS: u8 = 5;

/// The error with the first message, caused by the one with the next, and so on.
fn chain(messages: &[&str]) -> ErrorChain {
    let (root, others) = messages.split_last().unwrap();
    let mut error = ErrorChain::msg(root.to_string());
    for message in others.iter().rev() {
        error = error.context(message.to_string());
    }
    error
}

#[test]
fn test_logging_format_error_chain_no_source() {
    let result = format_error_chain(&chain(&["Something went wrong"]));
    assert_eq!(
        result,
        format!(
            "\n{}Caused by: Something went wrong",
            " ".repeat(BASE_IDENT_NUM_COLUMNS as usize)
        )
    );
}

#[test]
fn test_logging_format_error_chain_anyhow() {
    let error = ErrorChain::msg("Root".to_string())
        .context("Mid".to_string())
        .context("Top".to_string());
    let result = format_error_chain(&error);
    assert!(result.contains("Top"));
    assert!(result.contains("Mid"));
    assert!(result.contains("Root"));
}

#[test]
fn test_logging_format_error_chain_one_level() {
    let result = format_error_chain(&chain(&["Outer error", "Root error"]));
    let indent = " ".repeat(BASE_IDENT_NUM_COLUMNS as usize);
    assert_eq!(result, format!("Outer error\n{}Caused by: Root error", indent));
}

#[test]
fn test_logging_format_error_chain_two_levels() {
    let result = format_error_chain(&chain(&["Top error", "Mid error", "Root error"]));
    let indent1 = " ".repeat(BASE_IDENT_NUM_COLUMNS as usize);
    let indent2 = " ".repeat(BASE_IDENT_NUM_COLUMNS as usize * 2);
    assert_eq!(
        result,
        format!(
            "Top error\n{}Caused by: Mid error\n{}Caused by: Root error",
            indent1, indent2
        )
    );
}

#[test]
fn test_logging_format_error_chain_indentation_increases_per_depth() {
    let result = format_error_chain(&chain(&["A", "B", "C", "D"]));
    let lines: Vec<&str> = result.lines().collect();
    let leading_spaces: Vec<usize> =
        lines.iter().skip(1).map(|l| l.len() - l.trim_start().len()).collect();
    assert_eq!(leading_spaces.len(), 3);
    for pair_neighbour_lines in leading_spaces.windows(2) {
        assert!(
            pair_neighbour_lines[1] > pair_neighbour_lines[0],
            "Indentation should increase: {:?}",
            leading_spaces
        );
    }
}

#[test]
fn test_logging_convert_to_tracing_levels() {
    assert_eq!(convert_to_tracing_levels(&LogLevel::DEBUG), Level::DEBUG);
    assert_eq!(convert_to_tracing_levels(&LogLevel::INFO), Level::INFO);
    assert_eq!(convert_to_tracing_levels(&LogLevel::WARN), Level::WARN);
    assert_eq!(convert_to_tracing_levels(&LogLevel::ERROR), Level::ERROR);
    assert_eq!(convert_to_tracing_levels(&LogLevel::CRITICAL), Level::ERROR);
}

#[test]
fn banner_holds_the_version() {
    let text = banner("v0.2.0");
    assert!(text.starts_with("===="));
    assert!(text.contains("k8s-auth-ldap-rs"));
    assert!(text.ends_with("\nVersion: v0.2.0\n\n"));
}

#[test]
fn heads_of_events() {
    assert_eq!(get_level_ansi(&Level::WARN), "\x1b[43;37;1m WARN  \x1b[0m");
    assert_eq!(get_level_ansi(&Level::TRACE), "");
    assert_eq!(
        coloured_head("[now]", Level::ERROR),
        "\x1b[35m[now]\x1b[0m - \x1b[41;37;1m ERROR \x1b[0m - "
    );
    assert_eq!(plain_head("[now]", Level::INFO), "[now] - INFO  - ");
    assert_eq!(plain_head("[now]", Level::DEBUG), "[now] - DEBUG - ");
    assert_eq!(level_name(Level::WARN), "WARN");
}

#[test]
fn notices_on_environment_variables() {
    assert_eq!(
        env_var_notice("A", "x", true),
        (Level::INFO, "Loaded environment variable A".to_string())
    );
    assert_eq!(
        env_var_notice("A", "x", false),
        (Level::DEBUG, "Environment variable A not found. Using default value: x".to_string())
    );
    assert_eq!(
        env_var_notice("A", "", false),
        (
            Level::DEBUG,
            "Environment variable A not found. Using value from command line".to_string()
        )
    );
}

#[test]
fn warnings_on_the_log_file() {
    assert_eq!(log_file_warning(Some(Ok(()))), None);
    assert_eq!(
        log_file_warning(None),
        Some("No log file path provided. Using only stdout".to_string())
    );
    assert_eq!(
        log_file_warning(Some(Err(ErrorChain::msg("denied".to_string())))),
        Some(
            "Could not initialize file log layer. Using only stdout. \n     Caused by: denied"
                .to_string()
        )
    );
}
