use minject::cmdline::make_command_line;

fn wide(s: &str) -> Vec<u16> {
    s.encode_utf16().collect()
}

fn line(prog: &str, args: &[&str]) -> Vec<u16> {
    let argv: Vec<Vec<u16>> = args.iter().map(|a| wide(a)).collect();
    make_command_line(&wide(prog), &argv)
}

fn expect(s: &str) -> Vec<u16> {
    let mut v = wide(s);
    v.push(0);
    v
}

#[test]
fn quotes_a_simple_argument() {
    assert_eq!(line("C:\\a b\\x.exe", &["simple"]), expect("\"C:\\a b\\x.exe\" \"simple\""));
}

#[test]
fn escapes_an_embedded_quote() {
    assert_eq!(line("C:\\a b\\x.exe", &["a\"b"]), expect("\"C:\\a b\\x.exe\" \"a\\\"b\""));
}

#[test]
fn doubles_a_trailing_backslash() {
    assert_eq!(
        line("C:\\a b\\x.exe", &["c:\\path\\"]),
        expect("\"C:\\a b\\x.exe\" \"c:\\path\\\\\"")
    );
}

#[test]
fn doubles_backslashes_before_a_quote() {
    assert_eq!(line("p", &["a\\\\\"b"]), expect("\"p\" \"a\\\\\\\\\\\"b\""));
}

#[test]
fn quotes_an_empty_argument() {
    assert_eq!(line("p", &[""]), expect("\"p\" \"\""));
}

#[test]
fn keeps_interior_backslashes_single() {
    assert_eq!(line("p", &["c:\\dir\\f.txt"]), expect("\"p\" \"c:\\dir\\f.txt\""));
}

#[test]
fn program_alone_is_still_quoted() {
    assert_eq!(line("cmd.exe", &[]), expect("\"cmd.exe\""));
}

#[test]
fn spaces_inside_arguments_survive() {
    assert_eq!(line("p", &["one two", "three"]), expect("\"p\" \"one two\" \"three\""));
}
