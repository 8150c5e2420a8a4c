use symcc_fuzzing_helper::command::{
    insert_input_file, queue_entry_name, showmap_arguments, supervisor_arguments, target_command,
    uses_standard_input,
};
use symcc_fuzzing_helper::error::SyncError;
use symcc_fuzzing_helper::stats::{fuzzer_command, split_words};

fn args(v: &[&str]) -> Vec<Vec<u8>> {
    v.iter().map(|s| s.as_bytes().to_vec()).collect()
}

fn chars(s: &str) -> Vec<char> {
    s.chars().collect()
}

fn words(v: &[&str]) -> Vec<Vec<char>> {
    v.iter().map(|s| chars(s)).collect()
}

#[test]
fn placeholder_is_replaced_once() {
    let cmd = args(&["prog", "@@", "-x", "@@"]);
    assert_eq!(insert_input_file(&cmd, b"/w/.cur_input"), args(&["prog", "/w/.cur_input", "-x", "@@"]));
    let plain = args(&["prog", "-x"]);
    assert_eq!(insert_input_file(&plain, b"/in"), plain);
}

#[test]
fn delivery_mode_follows_placeholder() {
    assert!(!uses_standard_input(&args(&["prog", "@@"])));
    assert!(uses_standard_input(&args(&["prog", "@@x"])));
    assert!(uses_standard_input(&args(&[])));
}

#[test]
fn supervisor_wraps_the_command() {
    let r = supervisor_arguments(&args(&["prog", "/w/.cur_input"]));
    assert_eq!(r, args(&["-k", "5", "90", "prog", "/w/.cur_input"]));
}

#[test]
fn showmap_measures_the_candidate() {
    let r = showmap_arguments(b"/t/testcase_bitmap", &args(&["./prog", "@@"]), b"/t/output/out1");
    assert_eq!(
        r,
        args(&["-t", "5000", "-m", "none", "-b", "-o", "/t/testcase_bitmap", "--", "./prog", "/t/output/out1"])
    );
}

#[test]
fn target_follows_the_separator() {
    let afl = args(&["/usr/bin/afl-fuzz", "-i", "in", "-o", "out", "--", "./prog", "@@"]);
    assert_eq!(target_command(&afl), args(&["./prog", "@@"]));
    assert!(target_command(&args(&["afl-fuzz", "-i", "in"])).is_empty());
}

#[test]
fn entry_names_are_zero_padded() {
    assert_eq!(queue_entry_name(0, b"seed1"), b"id:000000,src:seed1".to_vec());
    assert_eq!(queue_entry_name(42, b"x"), b"id:000042,src:x".to_vec());
    assert_eq!(queue_entry_name(1234567, b"y"), b"id:1234567,src:y".to_vec());
    assert_eq!(queue_entry_name(u64::MAX, b""), b"id:18446744073709551615,src:".to_vec());
}

#[test]
fn command_line_is_read_from_stats() {
    let stats = chars("start_time        : 1\ncommand_line      : /opt/afl/afl-fuzz -i in -o out -- prog @@\nexec: 3\n");
    let r = fuzzer_command(&stats);
    assert_eq!(r, Ok(words(&["/opt/afl/afl-fuzz", "-i", "in", "-o", "out", "--", "prog", "@@"])));
}

#[test]
fn first_command_line_wins() {
    let stats = chars("xcommand_line: a\ncommand_line:b c\r\ncommand_line: d\n");
    assert_eq!(fuzzer_command(&stats), Ok(words(&["b", "c"])));
}

#[test]
fn stats_errors() {
    assert_eq!(fuzzer_command(&chars("exec: 1\n")), Err(SyncError::MissingCommandLine));
    assert_eq!(fuzzer_command(&chars("")), Err(SyncError::MissingCommandLine));
    assert_eq!(fuzzer_command(&chars("command_line x\nfoo: 1")), Err(SyncError::MalformedCommandLine));
    assert_eq!(fuzzer_command(&chars("command_line:  \t\n")), Err(SyncError::EmptyCommand));
}

#[test]
fn words_split_on_unicode_space() {
    assert_eq!(split_words(&chars("  a b\u{a0}c\u{3000}\td  ")), words(&["a", "b", "c", "d"]));
    assert!(split_words(&chars(" \n ")).is_empty());
}
