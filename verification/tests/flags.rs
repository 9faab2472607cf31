use taggenator::flags::{take_flag, take_flag_values, take_flag_with_arg};

fn strings(v: &[&str]) -> Vec<String> {
    v.iter().map(|s| s.to_string()).collect()
}

#[test]
fn found() {
    let mut args = vec!["A".to_string(), "B".to_string(), "C".to_string()];
    let flag = take_flag_with_arg(&mut args, "B");
    assert_eq!(flag, Some("C".to_string()));
}

#[test]
fn no_arg() {
    let mut args = vec!["A".to_string(), "B".to_string(), "C".to_string()];
    let flag = take_flag_with_arg(&mut args, "C");
    assert_eq!(flag, None);
}

#[test]
fn no_flag() {
    let mut args = vec!["A".to_string(), "B".to_string(), "C".to_string()];
    let flag = take_flag_with_arg(&mut args, "D");
    assert_eq!(flag, None);
}

#[test]
fn flag_with_arg_removes_both() {
    let mut args = strings(&["x", "--threads", "4", "y", "--threads", "2"]);
    let flag = take_flag_with_arg(&mut args, "--threads");
    assert_eq!(flag, Some("4".to_string()));
    assert_eq!(args, strings(&["x", "y", "--threads", "2"]));
}

#[test]
fn flag_at_end_leaves_arguments() {
    let mut args = strings(&["A", "B", "C"]);
    assert_eq!(take_flag_with_arg(&mut args, "C"), None);
    assert_eq!(args, strings(&["A", "B", "C"]));
}

#[test]
fn take_flag_removes_every_copy() {
    let mut args = strings(&["gopen", "a", "gopen", "b"]);
    assert!(take_flag(&mut args, "gopen"));
    assert_eq!(args, strings(&["a", "b"]));
    assert!(!take_flag(&mut args, "gopen"));
    assert_eq!(args, strings(&["a", "b"]));
}

#[test]
fn flag_values_long_and_short() {
    let mut args = strings(&["-tag", "one", "search", "--tag", "two", "-tag", "three", "x"]);
    let values = take_flag_values(&mut args, "--tag", "-tag");
    assert_eq!(values, strings(&["two", "one", "three"]));
    assert_eq!(args, strings(&["search", "x"]));
}
