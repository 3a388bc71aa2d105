use colored::Colorize;
use envs::args::{ColorMode, EscapeMode};
use envs::env::Env;
use envs::printer::Printer;

#[test]
fn escape() {
    let cases = vec![("String", "String"), ("a\nb", "a\\nb"), ("中文", "中文")];
    for case in cases {
        assert_eq!(Printer::escape(case.0), case.1);
    }
}

#[test]
fn print_escape() {
    let env = Env::from(Vec::from("LINEBREAK=\r\n\0TAB=\t\0"));

    let printer = Printer {
        color: ColorMode::Never,
        escape: EscapeMode::Yes,
        ..Default::default()
    };

    let actual = printer.print(&env).unwrap();
    assert_eq!(actual, Vec::from("LINEBREAK=\\r\\n\nTAB=\\t\n"));
}

#[test]
fn not_include_keys() {
    let env = Env::from(Vec::from("VAR1=foo\0VAR2=bar\0"));
    let printer = Printer {
        color: ColorMode::Never,
        include_keys: false,
        ..Default::default()
    };

    let actual = printer.print(&env).unwrap();
    assert_eq!(actual, Vec::from("foo\nbar\n"));
}

#[test]
fn invalid_utf8() {
    let env = Env::from(vec![
        0x56, 0x41, 0x4c, 0x3d, 0x54, 0x65, 0x73, 0x74, 0xc3, 0x28, 0x00,
    ]);

    let printer = Printer {
        color: ColorMode::Always,
        ..Default::default()
    };
    let actual = printer.print(&env).unwrap();
    assert_eq!(
        actual,
        Vec::from(format!(
            "{}{}{}{}",
            "VAL".yellow(),
            "=",
            "Test\\xc3(".red(),
            "\n"
        ))
    );
}

#[test]
fn json_mode() {
    let env = Env::from(Vec::from("VAR1=foo\0VAR2=bar\0"));
    let printer = Printer {
        json: true,
        ..Default::default()
    };
    let actual = printer.print(&env).unwrap();

    assert_eq!(actual, Vec::from(r#"{"VAR1":"foo","VAR2":"bar"}"#));
}
