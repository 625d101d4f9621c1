//! Argument and environment blob parsing.

use libtinyos::os::{EnvErr, EnvVars, ProcessArgs, RuntimeData};

#[test]
fn args_split_on_spaces() {
    let args = ProcessArgs::new(b"prog -v file".to_vec());
    let pieces = args.as_split_bytes();
    assert_eq!(pieces.len(), 3);
    assert_eq!(pieces[0], b"prog".to_vec());
    assert_eq!(pieces[1], b"-v".to_vec());
    assert_eq!(pieces[2], b"file".to_vec());
}

#[test]
fn empty_args_are_one_empty_piece() {
    let args = ProcessArgs::new(Vec::new());
    let pieces = args.as_split_bytes();
    assert_eq!(pieces.len(), 1);
    assert!(pieces[0].is_empty());
}

#[test]
fn consecutive_spaces_make_empty_pieces() {
    let args = ProcessArgs::new(b"a  b".to_vec());
    let pieces = args.as_split_bytes();
    assert_eq!(pieces.len(), 3);
    assert_eq!(pieces[1], Vec::<u8>::new());
}

#[test]
fn nth_indexes_the_pieces() {
    let args = ProcessArgs::new(b"prog -v file".to_vec());
    assert_eq!(args.nth(0), Some(b"prog".to_vec()));
    assert_eq!(args.nth(2), Some(b"file".to_vec()));
    assert_eq!(args.nth(3), None);
}

#[test]
fn named_finds_an_exact_argument() {
    let args = ProcessArgs::new(b"prog -v file".to_vec());
    assert_eq!(args.named(&b"-v".to_vec()), Some(b"-v".to_vec()));
    assert_eq!(args.named(&b"-x".to_vec()), None);
    // substrings are not arguments
    assert_eq!(args.named(&b"fil".to_vec()), None);
}

#[test]
fn env_entries_split_into_key_and_value() {
    let env = EnvVars::new(b"PATH=/bin;/usr/bin\0HOME=/root\0MARKER".to_vec());
    let entries = env.as_split_bytes();
    assert_eq!(entries.len(), 3);
    assert_eq!(entries[0].0, b"PATH".to_vec());
    assert_eq!(entries[0].1, b"/bin;/usr/bin".to_vec());
    assert_eq!(entries[1].0, b"HOME".to_vec());
    assert_eq!(entries[1].1, b"/root".to_vec());
    // an entry without `=` is all key, with an empty value
    assert_eq!(entries[2].0, b"MARKER".to_vec());
    assert_eq!(entries[2].1, Vec::<u8>::new());
}

#[test]
fn only_the_first_equals_sign_splits() {
    let env = EnvVars::new(b"EXPR=a=b".to_vec());
    let entries = env.as_split_bytes();
    assert_eq!(entries[0].0, b"EXPR".to_vec());
    assert_eq!(entries[0].1, b"a=b".to_vec());
}

#[test]
fn get_returns_the_first_match() {
    let env = EnvVars::new(b"A=1\0B=2\0A=3".to_vec());
    assert_eq!(env.get(&b"A".to_vec()), Some(b"1".to_vec()));
    assert_eq!(env.get(&b"B".to_vec()), Some(b"2".to_vec()));
    assert_eq!(env.get(&b"C".to_vec()), None);
}

#[test]
fn values_separate_into_lists() {
    let env = EnvVars::new(b"PATH=/bin;/usr/bin\0HOME=/root".to_vec());
    let separated = EnvVars::separate_byte_entries(env.as_split_bytes());
    assert_eq!(separated.len(), 2);
    assert_eq!(separated[0].0, b"PATH".to_vec());
    assert_eq!(separated[0].1, vec![b"/bin".to_vec(), b"/usr/bin".to_vec()]);
    assert_eq!(separated[1].1, vec![b"/root".to_vec()]);
}

#[test]
fn runtime_data_hands_back_what_it_was_given() {
    let rt = RuntimeData::new(
        Some(ProcessArgs::new(b"prog".to_vec())),
        None,
    );
    assert!(rt.args().is_some());
    assert!(rt.env().is_none());
    assert_eq!(rt.args().unwrap().as_bytes(), &b"prog".to_vec());
}

#[test]
fn env_err_variants_are_distinct() {
    assert_ne!(EnvErr::Utf8, EnvErr::InvalidPtr);
}
