use ptyproc::command::Command;
use ptyproc::lookup::{
    add_exe_extension, find_path_value, first_existing, path_candidates, split_path_list,
};

fn w(s: &str) -> Vec<u16> {
    s.encode_utf16().collect()
}

fn snap(pairs: &[(&str, &str)]) -> Vec<(Vec<u16>, Vec<u16>)> {
    pairs.iter().map(|(k, v)| (w(k), w(v))).collect()
}

fn uw(v: &[u16]) -> String {
    String::from_utf16(v).unwrap()
}

#[test]
fn path_override_found_case_insensitively() {
    let mut cmd = Command::new(&w("cat"));
    cmd.env(&w("Path"), &w("C:\\bin"));
    let captured = cmd.env.capture_if_changed(&snap(&[])).unwrap();
    let v = find_path_value(&captured).unwrap();
    assert_eq!(uw(&v), "C:\\bin");
}

#[test]
fn no_path_override_found_when_absent() {
    let mut cmd = Command::new(&w("cat"));
    cmd.env(&w("HOME"), &w("C:\\users"));
    let captured = cmd.env.capture_if_changed(&snap(&[])).unwrap();
    assert!(find_path_value(&captured).is_none());
}

#[test]
fn split_keeps_every_piece() {
    let r = split_path_list(&w("a;b;;c"));
    let got: Vec<String> = r.iter().map(|p| uw(p)).collect();
    assert_eq!(got, vec!["a", "b", "", "c"]);
}

#[test]
fn split_of_empty_value_is_one_empty_piece() {
    let r = split_path_list(&w(""));
    assert_eq!(r.len(), 1);
    assert_eq!(uw(&r[0]), "");
}

#[test]
fn extension_appended_when_missing() {
    assert_eq!(uw(&add_exe_extension(&w("cat"))), "cat.exe");
}

#[test]
fn extension_replaced_when_present() {
    assert_eq!(uw(&add_exe_extension(&w("run.cmd"))), "run.exe");
    assert_eq!(uw(&add_exe_extension(&w("a.b.c"))), "a.b.exe");
}

#[test]
fn leading_dot_is_not_an_extension() {
    assert_eq!(uw(&add_exe_extension(&w(".hidden"))), ".hidden.exe");
    assert_eq!(uw(&add_exe_extension(&w("C:\\dir.d\\.rc"))), "C:\\dir.d\\.rc.exe");
}

#[test]
fn candidates_follow_search_path_order() {
    let r = path_candidates(&w("C:\\bin;D:\\tools\\"), &w("cat"));
    let got: Vec<String> = r.iter().map(|p| uw(p)).collect();
    assert_eq!(got, vec!["C:\\bin\\cat.exe", "D:\\tools\\cat.exe"]);
}

#[test]
fn first_existing_takes_the_earliest_hit() {
    let cands = vec![w("a.exe"), w("b.exe"), w("c.exe")];
    let r = first_existing(&cands, &vec![false, true, true]).unwrap();
    assert_eq!(uw(&r), "b.exe");
}

#[test]
fn first_existing_none_when_nothing_exists() {
    let cands = vec![w("a.exe"), w("b.exe")];
    assert!(first_existing(&cands, &vec![false, false]).is_none());
}

#[test]
fn candidate_replaces_program_extension() {
    let r = path_candidates(&w("C:\\bin"), &w("run.cmd"));
    let got: Vec<String> = r.iter().map(|p| uw(p)).collect();
    assert_eq!(got, vec!["C:\\bin\\run.exe"]);
}
