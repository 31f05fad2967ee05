use ptyproc::command::Command;
use ptyproc::envblock::{make_dir_block, make_env_block};
use ptyproc::error::Error;
use ptyproc::spawn::{attribute_list_units, prepare_spawn};

fn w(s: &str) -> Vec<u16> {
    s.encode_utf16().collect()
}

fn snap(pairs: &[(&str, &str)]) -> Vec<(Vec<u16>, Vec<u16>)> {
    pairs.iter().map(|(k, v)| (w(k), w(v))).collect()
}

#[test]
fn plan_for_plain_command() {
    let mut cmd = Command::new(&w("cat"));
    cmd.arg(&w("file a"));
    let plan = prepare_spawn(&cmd, &None, &None).unwrap();
    assert_eq!(plan.cmdline, w("\"cat\" \"file a\"\0"));
    assert!(plan.env_block.is_none());
    assert!(plan.dir.is_none());
}

#[test]
fn plan_uses_resolved_program() {
    let cmd = Command::new(&w("cat"));
    let plan = prepare_spawn(&cmd, &None, &Some(w("C:\\bin\\cat.exe"))).unwrap();
    assert_eq!(plan.cmdline, w("\"C:\\bin\\cat.exe\"\0"));
}

#[test]
fn plan_encodes_captured_environment() {
    let mut cmd = Command::new(&w("cat"));
    cmd.env(&w("B"), &w("2")).env(&w("A"), &w("1"));
    let captured = cmd.env.capture_if_changed(&snap(&[]));
    let plan = prepare_spawn(&cmd, &captured, &None).unwrap();
    assert_eq!(plan.env_block.unwrap(), w("A=1\0B=2\0\0"));
}

#[test]
fn plan_encodes_working_directory() {
    let mut cmd = Command::new(&w("cat"));
    cmd.current_dir(&w("C:\\work"));
    let plan = prepare_spawn(&cmd, &None, &None).unwrap();
    assert_eq!(plan.dir.unwrap(), w("C:\\work\0"));
}

#[test]
fn nul_in_program_fails_before_any_native_call() {
    let cmd = Command::new(&w("ca\0t"));
    assert_eq!(prepare_spawn(&cmd, &None, &None).err(), Some(Error::InvalidInput));
}

#[test]
fn nul_in_argument_fails_before_any_native_call() {
    let mut cmd = Command::new(&w("cat"));
    cmd.arg(&w("a\0b"));
    assert_eq!(prepare_spawn(&cmd, &None, &None).err(), Some(Error::InvalidInput));
}

#[test]
fn nul_in_env_key_fails_before_any_native_call() {
    let mut cmd = Command::new(&w("cat"));
    cmd.env(&w("A\0B"), &w("1"));
    let captured = cmd.env.capture_if_changed(&snap(&[]));
    assert_eq!(prepare_spawn(&cmd, &captured, &None).err(), Some(Error::InvalidInput));
}

#[test]
fn nul_in_env_value_fails_before_any_native_call() {
    let mut cmd = Command::new(&w("cat"));
    cmd.env(&w("A"), &w("1\02"));
    let captured = cmd.env.capture_if_changed(&snap(&[]));
    assert_eq!(prepare_spawn(&cmd, &captured, &None).err(), Some(Error::InvalidInput));
}

#[test]
fn nul_in_cwd_fails_before_any_native_call() {
    let mut cmd = Command::new(&w("cat"));
    cmd.current_dir(&w("C:\\wo\0rk"));
    assert_eq!(prepare_spawn(&cmd, &None, &None).err(), Some(Error::InvalidInput));
}

#[test]
fn empty_captured_environment_encodes_to_one_nul() {
    let r = make_env_block(&Vec::new()).unwrap();
    assert_eq!(r, w("\0"));
}

#[test]
fn dir_block_is_nul_terminated() {
    assert_eq!(make_dir_block(&w("C:\\x")).unwrap(), w("C:\\x\0"));
    assert_eq!(make_dir_block(&w("a\0b")).err(), Some(Error::InvalidInput));
}

#[test]
fn attribute_sizing_rounds_up_to_units() {
    assert_eq!(attribute_list_units(0), 0);
    assert_eq!(attribute_list_units(1), 1);
    assert_eq!(attribute_list_units(8), 1);
    assert_eq!(attribute_list_units(9), 2);
    assert_eq!(attribute_list_units(16), 2);
    assert_eq!(attribute_list_units(17), 3);
}
