use envs::args::{ArgConflict, Args, ColorMode, EscapeMode, KeyOrder};
use envs::remote_apple_sysctl::env_block_from_procargs;
use envs::remote_windows::{env_block_from_utf16, utf16le_units};
use envs::env::Env;
use envs::error::AppError;
use envs::platform_ext::{decimal_string, u8_vec_to_string};
use envs::printer::Printer;

#[test]
fn decode_escapes_every_byte_kind() {
    let bytes = vec![0xff, b'\t', b'\r', b'\n', b'\'', b'"', b'\\', b'a', 0x01, 0x7f];
    assert_eq!(
        u8_vec_to_string(&bytes),
        Err("\\xff\\t\\r\\n\\'\\\"\\\\a\\x01\\x7f".to_string())
    );
}

#[test]
fn escape_other_controls_in_unicode_form() {
    assert_eq!(Printer::escape("\u{1b}[0m"), "\\u{1b}[0m");
    assert_eq!(Printer::escape("\u{85}x\0"), "\\u{85}x\\u{0}");
    assert_eq!(Printer::escape("\"q\" \\"), "\"q\" \\");
}

#[test]
fn json_escapes_strings() {
    let env = Env::from(Vec::from("K=a\"b\\c\u{1}\t\0"));
    let printer = Printer {
        json: true,
        ..Default::default()
    };
    let actual = printer.print(&env).unwrap();
    assert_eq!(actual, Vec::from(r#"{"K":"a\"b\\c\u0001\t"}"#));
}

#[test]
fn json_of_empty_env() {
    let printer = Printer {
        json: true,
        ..Default::default()
    };
    assert_eq!(printer.print(&Env(vec![])).unwrap(), Vec::from("{}"));
}

#[test]
fn json_of_non_utf8_uses_escaped_text() {
    let env = Env::from(vec![b'V', b'=', 0xc3, 0x28, 0]);
    let printer = Printer {
        json: true,
        ..Default::default()
    };
    assert_eq!(printer.print(&env).unwrap(), Vec::from(r#"{"V":"\\xc3("}"#));
}

#[test]
fn plain_output_with_newlines() {
    let env = Env::from(Vec::from("A=1\0B=x\ny\0"));
    let printer = Printer {
        color: ColorMode::Never,
        ..Default::default()
    };
    assert_eq!(printer.print(&env).unwrap(), Vec::from("A=1\nB=x\ny\n"));
}

#[test]
fn empty_env_prints_nothing() {
    let printer = Printer {
        color: ColorMode::Never,
        ..Default::default()
    };
    assert!(printer.print(&Env(vec![])).unwrap().is_empty());
}

#[test]
fn decimal_digits() {
    assert_eq!(decimal_string(0), "0");
    assert_eq!(decimal_string(7), "7");
    assert_eq!(decimal_string(1234), "1234");
    assert_eq!(decimal_string(u32::MAX), "4294967295");
}

#[test]
fn gdb_helpers() {
    let script = envs::remote_unix::get_gdb_helper(4321);
    assert!(script.starts_with("#!/bin/sh\n"));
    assert!(script.contains("cat << EOF | gdb --pid=4321\nset pagination off\n"));
    let generic = envs::remote_debugger_helper::get_gdb_helper();
    assert!(generic.contains("gdb --pid=\"$1\""));
    assert!(generic.ends_with("rm \"$OUTPUT\"\n"));
}

fn args() -> Args {
    Args {
        null: false,
        pid: None,
        debugger_helper: None,
        color: ColorMode::Auto,
        key_order: KeyOrder::Unordered,
        escape: None,
        load: None,
        json: false,
        variables: vec![],
    }
}

#[test]
fn argument_conflicts() {
    assert_eq!(args().conflict(), None);
    let a = Args { null: true, color: ColorMode::Always, ..args() };
    assert_eq!(a.conflict(), Some(ArgConflict::NullWithRichFormat));
    let a = Args { variables: vec!["A".to_owned()], key_order: KeyOrder::Asc, ..args() };
    assert_eq!(a.conflict(), Some(ArgConflict::SortedVariables));
    let a = Args { debugger_helper: Some(envs::args::DebuggerHelper::Gdb), json: true, ..args() };
    assert_eq!(a.conflict(), Some(ArgConflict::DebuggerHelperWithOthers));
    let a = Args { pid: Some(1), load: Some("-".into()), ..args() };
    assert_eq!(a.conflict(), Some(ArgConflict::PidWithLoad));
    let a = Args { null: true, load: Some("f".into()), ..args() };
    assert_eq!(a.conflict(), Some(ArgConflict::NullWithLoad));
    let a = Args { null: true, json: true, ..args() };
    assert_eq!(a.conflict(), Some(ArgConflict::NullWithJson));
    let a = Args { json: true, escape: Some(EscapeMode::Yes), ..args() };
    assert_eq!(a.conflict(), Some(ArgConflict::JsonWithRichFormat));
    assert_eq!(ArgConflict::SortedVariables.message(), "VARIABLES cannot be sorted");
}

#[test]
fn colors_off_and_printer_from_args() {
    assert!(!args().colors_off());
    assert!(Args { null: true, ..args() }.colors_off());
    assert!(Args { color: ColorMode::Never, ..args() }.colors_off());
    let p = Printer::for_args(&Args {
        null: true,
        escape: Some(EscapeMode::Yes),
        variables: vec!["A".to_owned()],
        ..args()
    });
    assert!(p.null && !p.json && !p.include_keys);
    assert!(p.escape == EscapeMode::Yes && p.color == ColorMode::Auto);
}

#[test]
fn procargs_walk_isolates_environment() {
    let mut buffer = vec![2, 0, 0, 0];
    buffer.extend_from_slice(b"/usr/bin/prog\0\0\0\0");
    buffer.extend_from_slice(b"first\0\0");
    buffer.extend_from_slice(b"second\0\0\0");
    buffer.extend_from_slice(b"A=1\0B=2\0\0");
    let block = env_block_from_procargs(buffer).unwrap();
    assert_eq!(block, b"A=1\0B=2\0".to_vec());
}

#[test]
fn procargs_walk_without_arguments() {
    let mut buffer = vec![0, 0, 0, 0];
    buffer.extend_from_slice(b"/bin/sh\0\0X=y\0\0trailing");
    let block = env_block_from_procargs(buffer).unwrap();
    assert_eq!(block, b"X=y\0".to_vec());
}

#[test]
fn procargs_walk_rejects_truncated_buffers() {
    assert_eq!(env_block_from_procargs(vec![1, 0, 0]), Err(AppError::MalformedData));
    let mut buffer = vec![1, 0, 0, 0];
    buffer.extend_from_slice(b"/bin/sh\0\0arg");
    assert_eq!(env_block_from_procargs(buffer), Err(AppError::MalformedData));
    let mut buffer = vec![0, 1, 0, 0];
    buffer.extend_from_slice(b"/bin/sh\0a\0b\0");
    assert_eq!(env_block_from_procargs(buffer), Err(AppError::MalformedData));
    let mut buffer = vec![0, 0, 0, 0];
    buffer.extend_from_slice(b"/bin/sh\0A=1\0");
    assert_eq!(env_block_from_procargs(buffer), Err(AppError::MalformedData));
}

#[test]
fn env_vector_joined_with_nuls() {
    let strings = vec![b"A=1".to_vec(), b"B=".to_vec()];
    assert_eq!(
        envs::remote_unix_kvm::env_block_from_strings(&strings),
        b"A=1\0B=\0".to_vec()
    );
    assert!(envs::remote_unix_kvm::env_block_from_strings(&vec![]).is_empty());
}

#[test]
fn utf16_block_decoding() {
    let text = "A=\u{e9}\u{1f600}\0B=2\0\0";
    let mut raw: Vec<u8> = text.encode_utf16().flat_map(|u| u.to_le_bytes()).collect();
    assert_eq!(utf16le_units(&raw), text.encode_utf16().collect::<Vec<u16>>());
    raw.push(0x41);
    assert_eq!(env_block_from_utf16(&raw), Ok(text.as_bytes().to_vec()));
    assert_eq!(env_block_from_utf16(&[0x00, 0xd8, 0x41, 0x00]), Err(AppError::DecodeError));
}

#[test]
fn layout_of_shown_fields() {
    let fields = vec![
        ("\u{1b}[33mK\u{1b}[0m".to_owned(), "v".to_owned()),
        ("L".to_owned(), "w".to_owned()),
    ];
    let with_keys = Printer {
        null: true,
        ..Default::default()
    };
    assert_eq!(
        with_keys.layout(&fields, "="),
        Vec::from("\u{1b}[33mK\u{1b}[0m=v\0L=w\0")
    );
    let values_only = Printer {
        include_keys: false,
        ..Default::default()
    };
    assert_eq!(values_only.layout(&fields, "="), Vec::from("v\nw\n"));
}
