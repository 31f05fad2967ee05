use ptyproc::env::{CommandEnv, EnvKey};

fn w(s: &str) -> Vec<u16> {
    s.encode_utf16().collect()
}

fn snap(pairs: &[(&str, &str)]) -> Vec<(Vec<u16>, Vec<u16>)> {
    pairs.iter().map(|(k, v)| (w(k), w(v))).collect()
}

fn as_pairs(captured: &[(EnvKey, Vec<u16>)]) -> Vec<(String, String)> {
    captured
        .iter()
        .map(|(k, v)| (String::from_utf16(&k.key).unwrap(), String::from_utf16(v).unwrap()))
        .collect()
}

fn pairs(list: &[(&str, &str)]) -> Vec<(String, String)> {
    list.iter().map(|(k, v)| (k.to_string(), v.to_string())).collect()
}

#[test]
fn capture_inherits_snapshot() {
    let env = CommandEnv::new();
    let r = env.capture(&snap(&[("A", "1"), ("B", "2")]));
    assert_eq!(as_pairs(&r), pairs(&[("A", "1"), ("B", "2")]));
}

#[test]
fn capture_set_overrides_value() {
    let mut env = CommandEnv::new();
    env.set(&w("A"), &w("x"));
    let r = env.capture(&snap(&[("A", "1"), ("B", "2")]));
    assert_eq!(as_pairs(&r), pairs(&[("A", "x"), ("B", "2")]));
}

#[test]
fn capture_set_is_case_insensitive_and_keeps_first_casing() {
    let mut env = CommandEnv::new();
    env.set(&w("PATH"), &w("x"));
    let r = env.capture(&snap(&[("Path", "1")]));
    assert_eq!(as_pairs(&r), pairs(&[("Path", "x")]));
}

#[test]
fn capture_set_adds_new_variable() {
    let mut env = CommandEnv::new();
    env.set(&w("C"), &w("3"));
    let r = env.capture(&snap(&[("A", "1")]));
    assert_eq!(as_pairs(&r), pairs(&[("A", "1"), ("C", "3")]));
}

#[test]
fn capture_remove_deletes_inherited_variable() {
    let mut env = CommandEnv::new();
    env.remove(&w("a"));
    let r = env.capture(&snap(&[("A", "1"), ("B", "2")]));
    assert_eq!(as_pairs(&r), pairs(&[("B", "2")]));
}

#[test]
fn capture_remove_of_absent_variable_is_noop() {
    let mut env = CommandEnv::new();
    env.remove(&w("Z"));
    let r = env.capture(&snap(&[("A", "1")]));
    assert_eq!(as_pairs(&r), pairs(&[("A", "1")]));
}

#[test]
fn capture_after_clear_starts_empty() {
    let mut env = CommandEnv::new();
    env.set(&w("A"), &w("old"));
    env.clear();
    env.set(&w("C"), &w("3"));
    let r = env.capture(&snap(&[("A", "1"), ("B", "2")]));
    assert_eq!(as_pairs(&r), pairs(&[("C", "3")]));
}

#[test]
fn remove_after_clear_deletes_the_override() {
    let mut env = CommandEnv::new();
    env.clear();
    env.set(&w("C"), &w("3"));
    env.remove(&w("c"));
    let r = env.capture(&snap(&[("A", "1")]));
    assert_eq!(as_pairs(&r), pairs(&[]));
}

#[test]
fn set_then_set_last_value_wins() {
    let mut env = CommandEnv::new();
    env.set(&w("A"), &w("1"));
    env.set(&w("a"), &w("2"));
    let r = env.capture(&snap(&[]));
    assert_eq!(as_pairs(&r), pairs(&[("A", "2")]));
}

#[test]
fn capture_output_is_sorted_case_insensitively() {
    let mut env = CommandEnv::new();
    env.set(&w("b"), &w("2"));
    env.set(&w("A"), &w("1"));
    env.set(&w("C"), &w("3"));
    let r = env.capture(&snap(&[]));
    assert_eq!(as_pairs(&r), pairs(&[("A", "1"), ("b", "2"), ("C", "3")]));
}

#[test]
fn duplicate_snapshot_keys_last_value_first_casing() {
    let env = CommandEnv::new();
    let r = env.capture(&snap(&[("Path", "1"), ("PATH", "2")]));
    assert_eq!(as_pairs(&r), pairs(&[("Path", "2")]));
}

#[test]
fn capture_equals_manual_replay() {
    // One concrete instance of the replay law: recording the operations
    // and capturing gives the same variables and values as applying them
    // one by one to the snapshot.
    let snapshot = &[("HOME", "/root"), ("Path", "/bin"), ("TERM", "xterm")];
    let mut env = CommandEnv::new();
    env.set(&w("PATH"), &w("/opt/bin"));
    env.remove(&w("term"));
    env.set(&w("LANG"), &w("C"));
    let r = env.capture(&snap(snapshot));

    // Replay by hand: start from the snapshot, apply each operation.
    let mut manual: Vec<(String, String)> = pairs(snapshot);
    let pos = manual.iter().position(|(k, _)| k.eq_ignore_ascii_case("PATH")).unwrap();
    manual[pos].1 = "/opt/bin".to_string();
    manual.retain(|(k, _)| !k.eq_ignore_ascii_case("term"));
    manual.push(("LANG".to_string(), "C".to_string()));
    manual.sort_by_key(|(k, _)| k.to_uppercase());

    assert_eq!(as_pairs(&r), manual);
}

#[test]
fn unchanged_when_fresh() {
    let env = CommandEnv::new();
    assert!(env.is_unchanged());
    assert!(env.capture_if_changed(&snap(&[("A", "1")])).is_none());
}

#[test]
fn changed_after_set() {
    let mut env = CommandEnv::new();
    env.set(&w("A"), &w("1"));
    assert!(!env.is_unchanged());
    let r = env.capture_if_changed(&snap(&[])).unwrap();
    assert_eq!(as_pairs(&r), pairs(&[("A", "1")]));
}

#[test]
fn changed_after_remove() {
    let mut env = CommandEnv::new();
    env.remove(&w("A"));
    assert!(!env.is_unchanged());
    assert!(env.capture_if_changed(&snap(&[("A", "1")])).is_some());
}

#[test]
fn changed_after_clear() {
    let mut env = CommandEnv::new();
    env.clear();
    assert!(!env.is_unchanged());
    let r = env.capture_if_changed(&snap(&[("A", "1")])).unwrap();
    assert_eq!(as_pairs(&r), pairs(&[]));
}

#[test]
fn default_is_unchanged() {
    let env = CommandEnv::default();
    assert!(env.is_unchanged());
}
