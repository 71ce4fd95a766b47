//! The options of the engine.
use morstilia::config::{EngineConfig, EvalMode, EVAL_VAR};

#[test]
fn defaults_are_sane() {
    let c = EngineConfig::default();
    assert_eq!(c.hash_mb, 64);
    assert_eq!(c.threads, 1);
    assert!(c.book_enabled);
    assert_eq!(c.eval, EvalMode::Classical, "classical is the safe default");
    assert!(c.nnue_path.is_empty());
}

#[test]
fn eval_option_selects_the_evaluator() {
    let mut c = EngineConfig::default();
    assert!(c.set_option("Eval", Some("nnue")));
    assert_eq!(c.eval, EvalMode::Nnue);
    assert!(c.set_option("Eval", Some("NNUE")), "case-insensitive");
    assert_eq!(c.eval, EvalMode::Nnue);
    assert!(c.set_option("Eval", Some(" Classical ")), "trimmed");
    assert_eq!(c.eval, EvalMode::Classical);
    assert!(!c.set_option("Eval", Some("neural")));
    assert_eq!(c.eval, EvalMode::Classical);
    assert!(!c.set_option("Eval", None));
    assert_eq!(c.eval, EvalMode::Classical);
}

#[test]
fn nnue_file_option_is_a_free_form_path() {
    let mut c = EngineConfig::default();
    assert!(c.set_option("NNUEFile", Some("nnue/my.net")));
    assert_eq!(c.nnue_path, "nnue/my.net");
    assert!(c.set_option("NNUEFile", Some("")));
    assert!(c.nnue_path.is_empty(), "empty = use the bundled default");
}

#[test]
fn set_option_parses_values() {
    let mut c = EngineConfig::default();
    assert!(c.set_option("Hash", Some("128")));
    assert_eq!(c.hash_mb, 128);
    assert!(c.set_option("Threads", Some("4")));
    assert_eq!(c.threads, 4);
    assert!(c.set_option("SearchDepth", Some("12")));
    assert_eq!(c.search_depth, 12);
    assert!(!c.set_option("NoSuchOption", Some("x")));
    assert!(c.set_option("Hash", Some("0")));
    assert_eq!(c.hash_mb, 1);
}

#[test]
fn option_log_is_uci_shaped() {
    let c = EngineConfig::default();
    let log = c.option_log();
    assert!(log.iter().all(|l| l.starts_with("option name ")));
    assert!(log.iter().any(|l| l.contains("type spin")));
    assert!(log.iter().any(|l| l.contains("type check")));
    let eval = log.iter().find(|l| l.contains("name Eval ")).unwrap();
    assert!(eval.contains("type combo"), "{eval}");
    assert!(eval.contains("default classical"), "{eval}");
    assert!(eval.contains("var NNUE"), "{eval}");
    let file = log.iter().find(|l| l.contains("name NNUEFile")).unwrap();
    assert!(file.contains("type string"), "{file}");
}

/// The name in a line of the list.
fn name_in(line: &str) -> &str {
    let rest = line.strip_prefix("option name ").unwrap();
    &rest[..rest.find(" type ").unwrap()]
}

#[test]
fn the_listed_options_are_those_that_can_be_set() {
    let values = [
        "7", "7", "7", "false", "seven", "seven", "seven", "nnue", "seven", "7", "true", "true",
    ];
    let fresh = EngineConfig::default().option_log();
    assert_eq!(fresh.len(), values.len());
    for i in 0..fresh.len() {
        assert!(fresh.iter().skip(i + 1).all(|l| name_in(l) != name_in(&fresh[i])));
        let mut c = EngineConfig::default();
        assert!(c.set_option(name_in(&fresh[i]), Some(values[i])), "{}", fresh[i]);
        for (j, line) in c.option_log().iter().enumerate() {
            if j == i {
                assert!(line.contains(&format!(" default {}", values[i])), "{line}");
            } else {
                assert_eq!(*line, fresh[j]);
            }
        }
    }
    let mut c = EngineConfig::default();
    for name in ["", "hash", "Hash ", "UCI_Chess960", "var"] {
        assert!(!c.set_option(name, Some("1")), "{name}");
    }
    assert_eq!(c.option_log(), fresh);
}

#[test]
fn modes_read_back() {
    for mode in [EvalMode::Classical, EvalMode::Nnue] {
        assert_eq!(EvalMode::parse(mode.as_str()), Some(mode));
    }
    assert_eq!(EvalMode::parse("neural"), None);
    assert!(EVAL_VAR.contains("var nnue"));
}

#[test]
fn values_that_are_no_numbers_are_refused() {
    let mut c = EngineConfig::default();
    assert!(!c.set_option("Hash", Some("many")));
    assert_eq!(c.hash_mb, 64);
    assert!(!c.set_option("Threads", None));
    assert_eq!(c.threads, 1);
}
