use bet_architecture::monad_lambda::{demonstrate_monad_system, MonadLaws, Plumber};

#[test]
fn test_monad_laws_verify_left_identity() {
    assert!(MonadLaws::verify_left_identity());
}

#[test]
fn test_monad_laws_verify_right_identity() {
    assert!(MonadLaws::verify_right_identity());
}

#[test]
fn test_monad_laws_verify_associativity() {
    assert!(MonadLaws::verify_associativity());
}

#[test]
fn test_monad_laws_verify_all() {
    let result = MonadLaws::verify_all();
    assert!(result.contains("Left Identity"));
    assert!(result.contains("Right Identity"));
    assert!(result.contains("Associativity"));
    assert!(result.contains("Pass"));
}

#[test]
fn test_plumber_new() {
    let plumber = Plumber::new(42);
    assert_eq!(plumber.extract(), Some(42));
}

#[test]
fn test_plumber_pipe() {
    let result = Plumber::new(10).pipe(|x| Some(x * 2)).extract();
    assert_eq!(result, Some(20));
}

#[test]
fn test_plumber_pipe_chain() {
    let result = Plumber::new(5)
        .pipe(|x| Some(x * 2))
        .pipe(|x| Some(x + 10))
        .pipe(|x| Some(x / 2))
        .extract();
    assert_eq!(result, Some(10));
}

#[test]
fn test_plumber_pipe_none() {
    let result = Plumber::new(5)
        .pipe(|_| None::<i32>)
        .pipe(|x| Some(x * 2))
        .extract();
    assert_eq!(result, None);
}

#[test]
fn test_demonstrate_monad_system() {
    let demo = demonstrate_monad_system();
    assert!(demo.contains("Monad Laws"));
    assert!(demo.contains("Plumber Demo"));
    assert!(demo.contains("94"));
}

#[test]
fn test_monad_lambda_integration() {
    assert!(MonadLaws::verify_left_identity());
    assert!(MonadLaws::verify_right_identity());
    assert!(MonadLaws::verify_associativity());

    let laws_output = MonadLaws::verify_all();
    assert!(laws_output.contains("Left Identity"));
    assert!(laws_output.contains("Right Identity"));
    assert!(laws_output.contains("Associativity"));
    assert!(laws_output.contains("✓ Pass"));

    let result = Plumber::new(10)
        .pipe(|x| Some(x * 2))
        .pipe(|x| Some(x + 5))
        .pipe(|x| Some(x * 3))
        .extract();

    assert_eq!(result, Some(75));

    let demo = demonstrate_monad_system();
    assert!(demo.contains("Monad Laws"));
    assert!(demo.contains("Plumber Demo"));
    assert!(demo.contains("94"));
}

#[test]
fn test_plumber_error_handling() {
    let result = Plumber::new(10)
        .pipe(|x| Some(x * 2))
        .pipe(|_x| -> Option<i32> { None })
        .pipe(|x| Some(x * 3))
        .extract();

    assert_eq!(result, None);
}

#[test]
fn laws_report_is_exact() {
    assert_eq!(
        MonadLaws::verify_all(),
        "Monad Laws Verification:\n  Left Identity: ✓ Pass\n  Right Identity: ✓ Pass\n  Associativity: ✓ Pass"
    );
}

#[test]
fn demonstration_text_is_exact() {
    let expected = format!(
        "{}\n\nPlumber Demo: Some(94)\n  42 -> *2 -> +10 = Some(94)",
        MonadLaws::verify_all()
    );
    assert_eq!(demonstrate_monad_system(), expected);
}

#[test]
fn pipe_changes_the_value_type() {
    let result = Plumber::new(7).pipe(|x: i32| Some(format!("n={}", x))).extract();
    assert_eq!(result, Some("n=7".to_string()));
}
