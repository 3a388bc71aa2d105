use envs::args::{ColorMode, KeyOrder};
use envs::env::{Env, RecordPair};
use envs::printer::Printer;

fn pairs(env: &Env) -> Vec<(Vec<u8>, Vec<u8>)> {
    env.0.iter().map(|r| (r.0.clone(), r.1.clone())).collect()
}

fn pair(k: &str, v: &str) -> (Vec<u8>, Vec<u8>) {
    (k.as_bytes().to_vec(), v.as_bytes().to_vec())
}

#[test]
fn filter_keeps_only_listed_key() {
    let mut env = Env::from(Vec::from("A=1\0B=2\0C=3\0"));
    env.filter_keys(&["C".to_owned()]);
    assert_eq!(pairs(&env), vec![pair("C", "3")]);
}

#[test]
fn filter_unknown_key_gives_empty() {
    let mut env = Env::from(Vec::from("A=1\0B=2\0C=3\0"));
    env.filter_keys(&["Z".to_owned()]);
    assert!(env.0.is_empty());
}

#[test]
fn filter_keeps_order_and_duplicates() {
    let mut env = Env::from(Vec::from("B=1\0A=2\0B=3\0C=4\0"));
    env.filter_keys(&["C".to_owned(), "B".to_owned()]);
    assert_eq!(pairs(&env), vec![pair("B", "1"), pair("B", "3"), pair("C", "4")]);
}

#[test]
fn sort_ascending_and_descending() {
    let mut env = Env::from(Vec::from("A=111\0C=333\0B=222\0"));
    env.sort_by_key(KeyOrder::Asc);
    assert_eq!(pairs(&env), vec![pair("A", "111"), pair("B", "222"), pair("C", "333")]);
    env.sort_by_key(KeyOrder::Desc);
    assert_eq!(pairs(&env), vec![pair("C", "333"), pair("B", "222"), pair("A", "111")]);
}

#[test]
fn sort_is_stable_for_equal_keys() {
    let mut env = Env::from(Vec::from("B=1\0A=x\0B=2\0"));
    env.sort_by_key(KeyOrder::Asc);
    assert_eq!(pairs(&env), vec![pair("A", "x"), pair("B", "1"), pair("B", "2")]);
    let mut env = Env::from(Vec::from("B=1\0A=x\0B=2\0"));
    env.sort_by_key(KeyOrder::Desc);
    assert_eq!(pairs(&env), vec![pair("B", "1"), pair("B", "2"), pair("A", "x")]);
}

#[test]
fn sort_compares_bytes_lexicographically() {
    let mut env = Env::from(Vec::from("ab=1\0a=2\0B=3\0\x7f=4\0"));
    env.sort_by_key(KeyOrder::Asc);
    assert_eq!(
        pairs(&env),
        vec![pair("B", "3"), pair("a", "2"), pair("ab", "1"), pair("\x7f", "4")]
    );
}

#[test]
fn sort_unordered_keeps_order() {
    let mut env = Env::from(Vec::from("C=1\0A=2\0B=3\0"));
    env.sort_by_key(KeyOrder::Unordered);
    assert_eq!(pairs(&env), vec![pair("C", "1"), pair("A", "2"), pair("B", "3")]);
}

#[test]
fn sorting_sorted_env_changes_nothing() {
    let mut env = Env::from(Vec::from("C=1\0A=2\0B=3\0A=0\0"));
    env.sort_by_key(KeyOrder::Desc);
    let once = pairs(&env);
    env.sort_by_key(KeyOrder::Desc);
    assert_eq!(pairs(&env), once);
}

#[test]
fn arrange_filters_then_sorts() {
    let mut env = Env::from(Vec::from("C=1\0A=2\0B=3\0"));
    env.arrange(&["C".to_owned(), "A".to_owned()], KeyOrder::Asc);
    assert_eq!(pairs(&env), vec![pair("A", "2"), pair("C", "1")]);
    let mut env = Env::from(Vec::from("C=1\0A=2\0"));
    env.arrange(&[], KeyOrder::Asc);
    assert_eq!(pairs(&env), vec![pair("A", "2"), pair("C", "1")]);
}

#[test]
fn parse_two_records() {
    let env = Env::parse(b"a=b\0c=d\0");
    assert_eq!(pairs(&env), vec![pair("a", "b"), pair("c", "d")]);
}

#[test]
fn parse_drops_record_without_equals() {
    let env = Env::parse(b"a=b\0garbage\0");
    assert_eq!(pairs(&env), vec![pair("a", "b")]);
}

#[test]
fn parse_splits_at_first_equals() {
    let env = Env::parse(b"k=v=w\0=x\0\0\0y=\0last=1");
    assert_eq!(
        pairs(&env),
        vec![pair("k", "v=w"), pair("", "x"), pair("y", ""), pair("last", "1")]
    );
}

#[test]
fn parse_empty_block() {
    assert!(Env::parse(b"").0.is_empty());
    assert!(Env::parse(b"\0\0").0.is_empty());
}

#[test]
fn parse_keeps_non_utf8_bytes() {
    let env = Env::parse(&[0xff, b'=', 0xc3, 0x28, 0]);
    assert_eq!(pairs(&env), vec![(vec![0xff], vec![0xc3, 0x28])]);
}

#[test]
fn block_round_trip() {
    let records = vec![pair("HOME", "/root"), pair("PATH", "/bin:/usr/bin"), pair("E", "")];
    let env = Env(records.iter().map(|(k, v)| RecordPair(k.clone(), v.clone())).collect());
    let printer = Printer {
        null: true,
        color: ColorMode::Never,
        ..Default::default()
    };
    let block = printer.print(&env).unwrap();
    assert_eq!(block, Vec::from("HOME=/root\0PATH=/bin:/usr/bin\0E=\0"));
    assert_eq!(pairs(&Env::from(block)), records);
}

#[test]
fn records_compare_by_key_only() {
    let a = RecordPair(b"K".to_vec(), b"1".to_vec());
    let b = RecordPair(b"K".to_vec(), b"2".to_vec());
    let c = RecordPair(b"L".to_vec(), b"1".to_vec());
    assert_eq!(a, b);
    assert_ne!(a, c);
    assert_eq!(a.partial_cmp(&c), Some(std::cmp::Ordering::Less));
    assert_eq!(c.partial_cmp(&b), Some(std::cmp::Ordering::Greater));
}

#[test]
fn iter_walks_records_in_order() {
    let env = Env::parse(b"a=1\0b=2\0");
    let keys: Vec<Vec<u8>> = env.iter().map(|r| r.0.clone()).collect();
    assert_eq!(keys, vec![b"a".to_vec(), b"b".to_vec()]);
}
