use bet_architecture::storm::{Bolt, KeyBounceBolt, PolymathBolt, RandomizeKeysBolt, WordCountBolt};

#[test]
fn test_word_count_bolt_new() {
    let bolt = WordCountBolt::new();
    assert_eq!(bolt.get_counts().len(), 0);
}

#[test]
fn test_word_count_bolt_execute() {
    let mut bolt = WordCountBolt::new();
    bolt.execute("hello world");
    assert_eq!(*bolt.get_counts().get("hello").unwrap(), 1);
    assert_eq!(*bolt.get_counts().get("world").unwrap(), 1);
}

#[test]
fn test_word_count_bolt_multiple_executes() {
    let mut bolt = WordCountBolt::new();
    bolt.execute("hello world");
    bolt.execute("hello again");
    assert_eq!(*bolt.get_counts().get("hello").unwrap(), 2);
    assert_eq!(*bolt.get_counts().get("world").unwrap(), 1);
    assert_eq!(*bolt.get_counts().get("again").unwrap(), 1);
}

#[test]
fn test_polymath_bolt_new() {
    let bolt = PolymathBolt::new();
    assert_eq!(bolt.domains.len(), 0);
}

#[test]
fn test_polymath_bolt_execute() {
    let mut bolt = PolymathBolt::new();
    bolt.execute("science: physics");
    assert!(bolt.domains.contains_key("science"));
}

#[test]
fn test_polymath_bolt_multiple_domains() {
    let mut bolt = PolymathBolt::new();
    bolt.execute("science: physics");
    bolt.execute("art: painting");
    bolt.execute("science: chemistry");
    assert_eq!(bolt.domains.len(), 2);
    assert_eq!(bolt.domains.get("science").unwrap().len(), 2);
}

#[test]
fn test_key_bounce_bolt_new() {
    let bolt = KeyBounceBolt::new();
    assert_eq!(bolt.bounce_count, 0);
    assert!(bolt.last_key.is_none());
}

#[test]
fn test_key_bounce_bolt_first_key() {
    let mut bolt = KeyBounceBolt::new();
    let result = bolt.execute("a");
    assert!(result[0].contains("accepted"));
}

#[test]
fn test_key_bounce_bolt_bounce_filter() {
    let mut bolt = KeyBounceBolt::new();
    bolt.execute("a");
    let result = bolt.execute("a");
    assert!(result[0].contains("Bounce filtered"));
}

#[test]
fn test_key_bounce_bolt_different_key() {
    let mut bolt = KeyBounceBolt::new();
    bolt.execute("a");
    let result = bolt.execute("b");
    assert!(result[0].contains("accepted"));
}

#[test]
fn test_randomize_keys_bolt_execute() {
    let mut bolt = RandomizeKeysBolt::new(42);
    let result = bolt.execute("test");
    assert!(result[0].contains("Random"));
}

#[test]
fn test_randomize_keys_bolt_deterministic() {
    let mut bolt1 = RandomizeKeysBolt::new(42);
    let mut bolt2 = RandomizeKeysBolt::new(42);
    let result1 = bolt1.execute("test");
    let result2 = bolt2.execute("test");
    assert_eq!(result1[0], result2[0]);
}

#[test]
fn test_polymath_multi_domain() {
    let mut polymath = PolymathBolt::new();

    polymath.execute("mathematics: algebra");
    polymath.execute("mathematics: geometry");
    polymath.execute("physics: mechanics");
    polymath.execute("physics: optics");
    polymath.execute("computer_science: algorithms");

    polymath.add_domain("mathematics", vec!["calculus".to_string()]);

    let result = polymath.execute("philosophy: logic");
    assert!(result[0].contains("philosophy"));
}

#[test]
fn test_concurrent_storm_processing() {
    let mut word_count = WordCountBolt::new();

    let test_strings: Vec<String> = (0..100).map(|i| format!("word{} test data", i)).collect();

    for text in &test_strings {
        word_count.execute(text);
    }

    assert_eq!(word_count.get_counts().get("test"), Some(&100));
    assert_eq!(word_count.get_counts().get("data"), Some(&100));
}

#[test]
fn test_randomize_keys_determinism() {
    let mut rng1 = RandomizeKeysBolt::new(42);
    let mut rng2 = RandomizeKeysBolt::new(42);

    for _ in 0..10 {
        let result1 = rng1.execute("test");
        let result2 = rng2.execute("test");
        assert_eq!(result1, result2);
    }
}

#[test]
fn test_key_bounce_state_management() {
    let mut key_bounce = KeyBounceBolt::new();

    let inputs = vec!["A", "A", "B", "B", "A"];
    let expected_accepts = vec![true, false, true, false, true];

    for (input, should_accept) in inputs.iter().zip(expected_accepts.iter()) {
        let result = key_bounce.execute(input);
        if *should_accept {
            assert!(result[0].contains("accepted"));
        } else {
            assert!(result[0].contains("filtered"));
        }
    }
}

#[test]
fn word_count_folds_case_and_reports_input() {
    let mut bolt = WordCountBolt::new();
    let out = bolt.execute("Hello HELLO  hello\tWorld");
    assert_eq!(out, vec!["Processed: Hello HELLO  hello\tWorld".to_string()]);
    assert_eq!(bolt.get_counts().get("hello"), Some(&3));
    assert_eq!(bolt.get_counts().get("world"), Some(&1));
    assert_eq!(bolt.get_counts().get("Hello"), None);
    assert_eq!(bolt.get_counts().len(), 2);
}

#[test]
fn word_count_of_blank_input_counts_nothing() {
    let mut bolt = WordCountBolt::new();
    let out = bolt.execute("   ");
    assert_eq!(out.len(), 1);
    assert_eq!(bolt.get_counts().len(), 0);
}

#[test]
fn count_words_takes_words_as_given() {
    let mut bolt = WordCountBolt::new();
    bolt.count_words(&vec!["A".to_string(), "b".to_string(), "A".to_string()]);
    assert_eq!(bolt.get_counts().get("A"), Some(&2));
    assert_eq!(bolt.get_counts().get("b"), Some(&1));
    assert_eq!(bolt.get_counts().get("a"), None);
}

#[test]
fn polymath_trims_and_acknowledges() {
    let mut bolt = PolymathBolt::new();
    let out = bolt.execute("  math :  calculus  ");
    assert_eq!(out, vec!["🌐 Added calculus to math".to_string()]);
    assert_eq!(bolt.domains.get("math").unwrap(), &vec!["calculus".to_string()]);
    assert!(!bolt.domains.contains_key("  math "));
}

#[test]
fn polymath_refuses_other_shapes() {
    let mut bolt = PolymathBolt::new();
    assert_eq!(bolt.execute("no colon here"), vec!["Invalid format".to_string()]);
    assert_eq!(bolt.execute("a:b:c"), vec!["Invalid format".to_string()]);
    assert_eq!(bolt.domains.len(), 0);
}

#[test]
fn polymath_add_item_appends_after_replacement() {
    let mut bolt = PolymathBolt::new();
    bolt.execute("art: painting");
    bolt.add_domain("art", vec!["music".to_string()]);
    let line = bolt.add_item("art", "dance");
    assert_eq!(line, "🌐 Added dance to art");
    assert_eq!(
        bolt.domains.get("art").unwrap(),
        &vec!["music".to_string(), "dance".to_string()]
    );
}

#[test]
fn polymath_empty_parts_are_kept() {
    let mut bolt = PolymathBolt::new();
    assert_eq!(bolt.execute(":"), vec!["🌐 Added  to ".to_string()]);
    assert_eq!(bolt.domains.get("").unwrap().len(), 1);
}

#[test]
fn key_bounce_counts_repeats_and_resets() {
    let mut bolt = KeyBounceBolt::new();
    assert_eq!(bolt.execute("k"), vec!["Key accepted: k".to_string()]);
    assert_eq!(bolt.execute("k"), vec!["Bounce filtered: k".to_string()]);
    assert_eq!(bolt.execute("k"), vec!["Bounce filtered: k".to_string()]);
    assert_eq!(bolt.bounce_count, 2);
    assert_eq!(bolt.execute("j"), vec!["Key accepted: j".to_string()]);
    assert_eq!(bolt.bounce_count, 0);
    assert_eq!(bolt.last_key, Some("j".to_string()));
}

#[test]
fn randomize_keys_follows_the_generator() {
    let mut bolt = RandomizeKeysBolt::new(42);
    assert_eq!(bolt.execute("C"), vec!["🎹 C -> Random: 25".to_string()]);
    assert_eq!(bolt.execute("C"), vec!["🎹 C -> Random: 28".to_string()]);
    assert_eq!(bolt.execute("D"), vec!["🎹 D -> Random: 3".to_string()]);
}
