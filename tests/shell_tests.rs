use multimoon::cmdline::{init_global_info, Args, Command};
use multimoon::shell::{shell_config_file, shell_config_with_path, text_contains, user_path_with};

#[test]
fn shell_config_files() {
    assert_eq!(shell_config_file("/bin/bash"), ".bashrc");
    assert_eq!(shell_config_file("/usr/bin/zsh"), ".zshrc");
    assert_eq!(shell_config_file("/usr/local/bin/fish"), ".config/fish/config.fish");
    assert_eq!(shell_config_file("/bin/sh"), ".profile");
    assert_eq!(shell_config_file("bash"), ".bashrc");
}

#[test]
fn shell_config_gets_export_line_once() {
    assert_eq!(
        shell_config_with_path("alias ll=ls", "/h/.moon/bin"),
        Some("alias ll=ls\nexport PATH=\"/h/.moon/bin:$PATH\"\n".to_string())
    );
    assert_eq!(shell_config_with_path("export PATH=\"/h/.moon/bin:$PATH\"", "/h/.moon/bin"), None);
}

#[test]
fn user_path_value() {
    assert_eq!(user_path_with("C:\\a;C:\\b", "C:\\m\\bin"), Some("C:\\m\\bin;C:\\a;C:\\b".to_string()));
    assert_eq!(user_path_with("C:\\m\\bin;C:\\a", "C:\\m\\bin"), None);
}

#[test]
fn configuration_defaults() {
    let args = Args { command: Command::Show, registry: None, moonhome: None, multimoonhome: None, verbose: true };
    let info = init_global_info(&args, "/home/u").unwrap();
    assert_eq!(info.moonhome, "/home/u/.moon");
    assert_eq!(info.multimoonhome, "/home/u/.multimoon");
    assert_eq!(info.registry, "https://multimoon.lopt.dev/");
    assert!(info.verbose);
}

#[test]
fn configuration_overrides_and_bad_registry() {
    let args = Args {
        command: Command::Show,
        registry: Some("https://r.example.com".to_string()),
        moonhome: Some("/opt/moon".to_string()),
        multimoonhome: None,
        verbose: false,
    };
    let info = init_global_info(&args, "/home/u").unwrap();
    assert_eq!(info.moonhome, "/opt/moon");
    assert_eq!(info.registry, "https://r.example.com/");
    let bad = Args { command: Command::Show, registry: Some("::".to_string()), moonhome: None, multimoonhome: None, verbose: false };
    assert!(init_global_info(&bad, "/home/u").is_err());
}

#[test]
fn substring_search() {
    assert!(text_contains("abcabd", "abd"));
    assert!(text_contains("abc", ""));
    assert!(text_contains("", ""));
    assert!(!text_contains("ab", "abc"));
    assert!(!text_contains("abcabc", "abd"));
    assert!(text_contains("Grüße aus /h/bin", "/h/bin"));
}
