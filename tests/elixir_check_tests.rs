use bet_architecture::elixir_check::{run_elixir_check, ElixirCheck};

#[test]
fn test_elixir_check_new() {
    let check = ElixirCheck::new(true, false, Some("26".to_string()));
    assert!(check.has_erlang || !check.has_erlang);
    assert!(check.has_elixir || !check.has_elixir);
}

#[test]
fn test_elixir_check_display() {
    let check = ElixirCheck::new(false, true, None);
    let display = check.display();
    assert!(display.contains("Elixir Check"));
}

#[test]
fn test_elixir_check_verify_guarantees() {
    let check = ElixirCheck::new(true, true, Some("26".to_string()));
    let result = check.verify_guarantees();
    assert!(result.is_ok());
}

#[test]
fn test_run_elixir_check() {
    let check = run_elixir_check(false, false, None);
    assert!(check.has_erlang || !check.has_erlang);
}

#[test]
fn nothing_detected_gives_the_optional_note() {
    let check = ElixirCheck::new(false, false, None);
    assert_eq!(
        check.verify_guarantees(),
        Ok("Erlang/OTP and Elixir not detected (optional)".to_string())
    );
    assert_eq!(
        check.display(),
        "Elixir Check:\nErlang/OTP and Elixir not detected (optional)"
    );
}

#[test]
fn erlang_with_version_lists_its_guarantees() {
    let check = ElixirCheck::new(true, false, Some("\"26\"".to_string()));
    assert_eq!(
        check.verify_guarantees().unwrap(),
        "✓ Erlang/OTP runtime available\n✓ Fault tolerance via supervisor trees\n✓ Hot code reloading support\n✓ OTP Version: \"26\""
    );
}

#[test]
fn elixir_alone_lists_its_guarantees() {
    let check = ElixirCheck::new(false, true, None);
    assert_eq!(
        check.display(),
        "Elixir Check:\n✓ Elixir runtime available\n✓ Immutable data structures\n✓ Pattern matching enabled"
    );
}

#[test]
fn both_runtimes_list_six_lines() {
    let check = run_elixir_check(true, true, None);
    let text = check.verify_guarantees().unwrap();
    assert_eq!(text.lines().count(), 6);
    assert!(text.starts_with("✓ Erlang/OTP runtime available"));
    assert!(text.ends_with("✓ Pattern matching enabled"));
}
