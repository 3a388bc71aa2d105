use envs::args::{ColorMode, KeyOrder};
use envs::env::{Env, RecordPair};
use envs::printer::Printer;

#[test]
fn parse_records_by_env_string() {
    let cases = vec![(
        b"a=b\0c=d\0",
        Env(vec![
            RecordPair(b"a".to_vec(), b"b".to_vec()),
            RecordPair(b"c".to_vec(), b"d".to_vec()),
        ]),
    )];

    for case in cases {
        let env_obj = Env::from(case.0.to_vec());
        assert_eq!(env_obj, case.1);
    }
}

#[test]
fn sort() {
    let mut env = Env::from(Vec::from("A=111\0C=333\0B=222\0"));

    let printer = Printer {
        null: true,
        color: ColorMode::Never,
        ..Default::default()
    };

    {
        let actual = printer.print(&env).unwrap();
        assert_eq!(actual, Vec::from("A=111\0C=333\0B=222\0"));
    }

    {
        env.sort_by_key(KeyOrder::Asc);
        let actual = printer.print(&env).unwrap();
        assert_eq!(actual, Vec::from("A=111\0B=222\0C=333\0"));
    }

    {
        env.sort_by_key(KeyOrder::Desc);
        let actual = printer.print(&env).unwrap();
        assert_eq!(actual, Vec::from("C=333\0B=222\0A=111\0"));
    }
}

#[test]
fn retain() {
    let mut env = Env::from(Vec::from("A=111\0C=333\0B=222\0"));
    let keys = vec!["C".to_owned()];
    env.filter_keys(&keys);
    assert_eq!(env.0.len(), 1);
    assert_eq!(env.0[0], RecordPair(Vec::from("C"), Vec::from("333")));
}
