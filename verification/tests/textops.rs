use node_manager::ansi::{regex_escape, strip_ansi_escapes};
use node_manager::errors::AppError;
use node_manager::platform::map_os_arch_to_binary_name;
use node_manager::types::OperationResult;

#[test]
fn strips_colour_escapes() {
    assert_eq!(strip_ansi_escapes("\x1b[31mred\x1b[0m"), "red");
    assert_eq!(strip_ansi_escapes("\x1b[1;32mbold green\x1b[0m!"), "bold green!");
    assert_eq!(strip_ansi_escapes("plain"), "plain");
    assert_eq!(strip_ansi_escapes(""), "");
}

#[test]
fn keeps_non_colour_escapes() {
    // A cursor movement (`ESC [ 2 J`) is not a colour sequence and stays.
    assert_eq!(strip_ansi_escapes("\x1b[2Jx"), "\x1b[2Jx");
    // A bare escape or an unterminated opener stays too.
    assert_eq!(strip_ansi_escapes("\x1b"), "\x1b");
    assert_eq!(strip_ansi_escapes("\x1b[12"), "\x1b[12");
}

#[test]
fn escapes_regex_metacharacters() {
    assert_eq!(regex_escape("a.b*c"), "a\\.b\\*c");
    assert_eq!(regex_escape("(x|y)?"), "\\(x\\|y\\)\\?");
    assert_eq!(regex_escape("[{^$}]\\"), "\\[\\{\\^\\$\\}\\]\\\\");
    assert_eq!(regex_escape("plain-name_1"), "plain-name_1");
}

#[test]
fn binary_names_per_platform() {
    assert_eq!(
        map_os_arch_to_binary_name("windows", "x86_64"),
        "merod-x86_64-pc-windows-msvc"
    );
    assert_eq!(
        map_os_arch_to_binary_name("darwin", "x86_64"),
        "merod_x86_64-apple-darwin"
    );
    assert_eq!(
        map_os_arch_to_binary_name("darwin", "aarch64"),
        "merod_aarch64-apple-darwin"
    );
    assert_eq!(
        map_os_arch_to_binary_name("linux", "x86_64"),
        "merod_x86_64-unknown-linux-gnu"
    );
}

#[test]
fn error_messages_name_their_category() {
    assert_eq!(
        AppError::Tauri("boom".to_string()).to_message(),
        "Tauri error: boom"
    );
    assert_eq!(
        AppError::IoError("disk".to_string()).to_message(),
        "IO error: disk"
    );
    assert_eq!(
        AppError::Process("spawn".to_string()).to_message(),
        "Process error: spawn"
    );
    assert_eq!(
        AppError::Store("save".to_string()).to_message(),
        "Store error: save"
    );
    assert_eq!(
        AppError::InvalidInput("name".to_string()).to_message(),
        "Invalid input: name"
    );
    assert_eq!(
        AppError::Custom("other".to_string()).to_message(),
        "Error: other"
    );
    assert_eq!(
        AppError::TomlError("parse".to_string()).to_message(),
        "Toml error: parse"
    );
    assert_eq!(
        AppError::StateConflict("busy".to_string()).to_message(),
        "State conflict: busy"
    );
}

#[test]
fn string_converts_to_custom_error() {
    let e = AppError::from("oops".to_string());
    assert_eq!(e, AppError::Custom("oops".to_string()));
}

#[test]
fn operation_result_envelope() {
    let ok: OperationResult<u16> = OperationResult {
        success: true,
        message: "Node started successfully".to_string(),
        data: Some(2428),
    };
    assert!(ok.success);
    assert_eq!(ok.data, Some(2428));
    let failed: OperationResult<u16> = OperationResult {
        success: false,
        message: AppError::Process("spawn".to_string()).to_message(),
        data: None,
    };
    assert!(!failed.success);
    assert_eq!(failed.message, "Process error: spawn");
}
