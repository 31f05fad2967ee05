use ptyproc::command::Command;

fn w(s: &str) -> Vec<u16> {
    s.encode_utf16().collect()
}

fn snap(pairs: &[(&str, &str)]) -> Vec<(Vec<u16>, Vec<u16>)> {
    pairs.iter().map(|(k, v)| (w(k), w(v))).collect()
}

fn uw(v: &[u16]) -> String {
    String::from_utf16(v).unwrap()
}

#[test]
fn builder_collects_program_and_args() {
    let mut cmd = Command::new(&w("cat"));
    cmd.arg(&w("-n")).arg(&w("file"));
    assert_eq!(uw(&cmd.program), "cat");
    let got: Vec<String> = cmd.args.iter().map(|a| uw(a)).collect();
    assert_eq!(got, vec!["-n", "file"]);
}

#[test]
fn args_appends_each_in_order() {
    let mut cmd = Command::new(&w("cat"));
    cmd.arg(&w("first")).args(&vec![w("second"), w("third")]);
    let got: Vec<String> = cmd.args.iter().map(|a| uw(a)).collect();
    assert_eq!(got, vec!["first", "second", "third"]);
}

#[test]
fn envs_applies_in_call_order_later_wins() {
    let mut cmd = Command::new(&w("cat"));
    cmd.envs(&vec![(w("A"), w("1")), (w("a"), w("2"))]);
    let captured = cmd.env.capture(&snap(&[]));
    assert_eq!(captured.len(), 1);
    assert_eq!(uw(&captured[0].0.key), "A");
    assert_eq!(uw(&captured[0].1), "2");
}

#[test]
fn env_remove_records_a_removal() {
    let mut cmd = Command::new(&w("cat"));
    cmd.env_remove(&w("HOME"));
    let captured = cmd.env.capture(&snap(&[("HOME", "/root"), ("TERM", "x")]));
    assert_eq!(captured.len(), 1);
    assert_eq!(uw(&captured[0].0.key), "TERM");
}

#[test]
fn env_clear_discards_the_ambient_environment() {
    let mut cmd = Command::new(&w("cat"));
    cmd.env_clear().env(&w("ONLY"), &w("this"));
    let captured = cmd.env.capture(&snap(&[("HOME", "/root")]));
    assert_eq!(captured.len(), 1);
    assert_eq!(uw(&captured[0].0.key), "ONLY");
}

#[test]
fn current_dir_replaces_previous_value() {
    let mut cmd = Command::new(&w("cat"));
    cmd.current_dir(&w("C:\\a")).current_dir(&w("C:\\b"));
    assert_eq!(uw(cmd.cwd.as_ref().unwrap()), "C:\\b");
}
