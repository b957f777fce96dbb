use minject::envblock::{make_dir_block, make_env_block, make_key, EnvVar};
use minject::process::{child_reads, Command, StdStream, Stdio, StdioKind};
use minject::Module;

fn wide(s: &str) -> Vec<u16> {
    s.encode_utf16().collect()
}

fn var(k: &str, v: &str) -> EnvVar {
    EnvVar { key: wide(k), value: wide(v) }
}

#[test]
fn make_key_uppercases_ascii_only() {
    assert_eq!(make_key(&wide("path")), wide("PATH"));
    assert_eq!(make_key(&wide("Tmp_2;ä")), wide("TMP_2;ä"));
}

#[test]
fn env_block_layout() {
    let vars = vec![var("A", "b"), var("C", "")];
    let block = make_env_block(&vars);
    let mut expected = wide("A=b");
    expected.push(0);
    expected.extend(wide("C="));
    expected.push(0);
    expected.push(0);
    assert_eq!(block, expected);
}

#[test]
fn empty_env_block_is_one_zero() {
    assert_eq!(make_env_block(&Vec::new()), vec![0u16]);
}

#[test]
fn dir_block_is_zero_terminated() {
    let mut expected = wide("C:\\work");
    expected.push(0);
    assert_eq!(make_dir_block(&wide("C:\\work")), expected);
}

#[test]
fn command_line_quotes_program_and_args() {
    let mut c = Command::new(&wide("C:\\a b\\x.exe"));
    c.arg(&wide("simple"));
    let mut expected = wide("\"C:\\a b\\x.exe\" \"simple\"");
    expected.push(0);
    assert_eq!(c.command_line(), expected);
}

#[test]
fn args_appends_many() {
    let mut c = Command::new(&wide("p"));
    c.args(&vec![wide("a"), wide("b")]);
    c.arg(&wide("c"));
    let mut expected = wide("\"p\" \"a\" \"b\" \"c\"");
    expected.push(0);
    assert_eq!(c.command_line(), expected);
}

#[test]
fn default_command_inherits_everything() {
    let c = Command::new(&wide("p"));
    assert_eq!(c.env_data(), None);
    assert_eq!(c.dir_data(), None);
    assert_eq!(c.module_slice().len(), 0);
}

#[test]
fn env_uppercases_and_replaces() {
    let mut c = Command::new(&wide("p"));
    c.env(&wide("path"), &wide("one"));
    c.env(&wide("Path"), &wide("two"));
    let mut expected = wide("PATH=two");
    expected.push(0);
    expected.push(0);
    assert_eq!(c.env_data(), Some(expected));
}

#[test]
fn env_remove_takes_the_entry_out() {
    let mut c = Command::new(&wide("p"));
    c.env(&wide("A"), &wide("1"));
    c.env(&wide("B"), &wide("2"));
    c.env_remove(&wide("a"));
    let mut expected = wide("B=2");
    expected.push(0);
    expected.push(0);
    assert_eq!(c.env_data(), Some(expected));
}

#[test]
fn env_clear_leaves_an_empty_block() {
    let mut c = Command::new(&wide("p"));
    c.env(&wide("A"), &wide("1"));
    c.env_clear();
    assert_eq!(c.env_data(), Some(vec![0u16]));
}

#[test]
fn init_env_seeds_once_with_last_entry_winning() {
    let mut c = Command::new(&wide("p"));
    c.init_env(&vec![var("a", "1"), var("A", "2")]);
    let mut expected = wide("A=2");
    expected.push(0);
    expected.push(0);
    assert_eq!(c.env_data(), Some(expected));
    // a second seeding changes nothing
    c.init_env(&vec![var("B", "3")]);
    let mut expected = wide("A=2");
    expected.push(0);
    expected.push(0);
    assert_eq!(c.env_data(), Some(expected));
}

#[test]
fn current_dir_is_recorded() {
    let mut c = Command::new(&wide("p"));
    c.current_dir(&wide("C:\\work"));
    let mut expected = wide("C:\\work");
    expected.push(0);
    assert_eq!(c.dir_data(), Some(expected));
}

#[test]
fn injected_modules_keep_their_order() {
    let mut c = Command::new(&wide("p"));
    c.inject(Module::new(&wide("one.dll")).unwrap());
    c.inject(Module::new(&wide("two.dll")).unwrap());
    let ms = c.module_slice();
    assert_eq!(ms.len(), 2);
    assert_eq!(ms[0].handle_values(), Vec::<u64>::new());
}

#[test]
fn stream_configuration_and_defaults() {
    let mut c = Command::new(&wide("p"));
    assert_eq!(c.effective_stream(StdStream::Stdin, StdioKind::Inherit), StdioKind::Inherit);
    c.stdin(Stdio::piped());
    c.stdout(Stdio::null());
    c.stderr(Stdio::from_raw(0x44));
    assert_eq!(c.effective_stream(StdStream::Stdin, StdioKind::Inherit), StdioKind::MakePipe);
    assert_eq!(c.effective_stream(StdStream::Stdout, StdioKind::Inherit), StdioKind::Null);
    assert_eq!(c.effective_stream(StdStream::Stderr, StdioKind::Inherit), StdioKind::Raw(0x44));
}

#[test]
fn only_stdin_is_read_by_the_child() {
    assert!(child_reads(StdStream::Stdin));
    assert!(!child_reads(StdStream::Stdout));
    assert!(!child_reads(StdStream::Stderr));
}
