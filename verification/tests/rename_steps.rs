use bulk_rename::rename::{
    add_step, case_step, name_step, number_text_exec, numbering_step, remove_step, replace_step,
    split_file_name, split_name, CaseMode, NamingMode, NumberingMode,
};
use bulk_rename::text::{byte_len_u32, char_index_at_byte, chars_of, to_lowercase, to_uppercase};

fn cs(s: &str) -> Vec<char> {
    chars_of(s)
}

fn st(v: &Vec<char>) -> String {
    v.iter().collect()
}

#[test]
fn name_keep_remove_reverse() {
    let s = cs("a(b)<c>");
    assert_eq!(st(&name_step(&s, NamingMode::Keep, &cs("x"))), "a(b)<c>");
    assert_eq!(st(&name_step(&s, NamingMode::Remove, &cs("new"))), "new");
    assert_eq!(st(&name_step(&s, NamingMode::Reverse, &cs("x"))), "<c>(b)a");
    assert_eq!(st(&name_step(&cs("a/b\\c[d]{e}"), NamingMode::Reverse, &cs(""))), "{e}[d]c/b\\a");
}

#[test]
fn name_reverse_twice_is_identity() {
    let s = cs("My (best) [photo] {1}/2\\3 <x>");
    let once = name_step(&s, NamingMode::Reverse, &cs(""));
    let twice = name_step(&once, NamingMode::Reverse, &cs(""));
    assert_eq!(st(&twice), "My (best) [photo] {1}/2\\3 <x>");
}

#[test]
fn case_whole_name() {
    assert_eq!(st(&case_step(&cs("Hello World"), CaseMode::Lower, 0, 0).unwrap()), "hello world");
    assert_eq!(st(&case_step(&cs("Hello World"), CaseMode::Upper, 5, 0).unwrap()), "HELLO WORLD");
    assert_eq!(st(&case_step(&cs("Hello"), CaseMode::Same, 1, 3).unwrap()), "Hello");
    assert_eq!(st(&case_step(&cs(""), CaseMode::Lower, 0, 0).unwrap()), "");
}

#[test]
fn case_keeps_a_range() {
    assert_eq!(st(&case_step(&cs("ABCDEF"), CaseMode::Lower, 1, 3).unwrap()), "aBCdef");
    assert_eq!(st(&case_step(&cs("abcdef"), CaseMode::Upper, 0, 2).unwrap()), "abCDEF");
    // the range is clamped to the name
    assert_eq!(st(&case_step(&cs("abc"), CaseMode::Upper, 1, 99).unwrap()), "Abc");
    assert_eq!(st(&case_step(&cs("abc"), CaseMode::Upper, 9, 99).unwrap()), "ABC");
    // `to` below `from` is raised to `from`
    assert_eq!(st(&case_step(&cs("abcd"), CaseMode::Upper, 2, 1).unwrap()), "ABCD");
}

#[test]
fn case_cannot_cut_inside_a_character_or_an_empty_stem() {
    assert!(case_step(&cs("éA"), CaseMode::Lower, 1, 2).is_none());
    assert!(case_step(&cs(""), CaseMode::Upper, 0, 1).is_none());
    assert_eq!(st(&case_step(&cs("éA"), CaseMode::Lower, 2, 3).unwrap()), "éA");
}

#[test]
fn replace_first_and_all() {
    let s = cs("aaa");
    assert_eq!(st(&replace_step(&s, &cs("a"), &cs("b"), true)), "baa");
    assert_eq!(st(&replace_step(&s, &cs("a"), &cs("b"), false)), "bbb");
    assert_eq!(st(&replace_step(&s, &cs("aa"), &cs("x"), false)), "xa");
    assert_eq!(st(&replace_step(&cs("ab"), &cs(""), &cs("-"), false)), "-a-b-");
    assert_eq!(st(&replace_step(&cs("ab"), &cs(""), &cs("-"), true)), "-ab");
    assert_eq!(st(&replace_step(&cs("hello"), &cs("z"), &cs("y"), true)), "hello");
    assert_eq!(st(&replace_step(&cs("hello"), &cs("z"), &cs("y"), false)), "hello");
    assert_eq!(st(&replace_step(&cs("one two two"), &cs("two"), &cs("2"), true)), "one 2 two");
}

#[test]
fn remove_counts() {
    assert_eq!(st(&remove_step(&cs("abcdef"), 1, 1, 0, 0).unwrap()), "bcde");
    assert_eq!(st(&remove_step(&cs("abcdef"), 1, 1, 1, 3).unwrap()), "be");
    assert_eq!(st(&remove_step(&cs("abcdef"), 0, 0, 0, 0).unwrap()), "abcdef");
    assert_eq!(st(&remove_step(&cs("abc"), 10, 0, 0, 0).unwrap()), "");
    assert_eq!(st(&remove_step(&cs("abc"), 0, 10, 0, 0).unwrap()), "");
    assert_eq!(st(&remove_step(&cs("abcdef"), 0, 0, 4, 2).unwrap()), "abcdef");
    assert_eq!(st(&remove_step(&cs("abcdef"), 0, 0, 2, 100).unwrap()), "ab");
}

#[test]
fn remove_beyond_the_characters() {
    // two bytes but one character: the last count clamps to 2 bytes
    assert!(remove_step(&cs("é"), 0, 2, 0, 0).is_none());
    assert_eq!(st(&remove_step(&cs("é"), 0, 1, 0, 0).unwrap()), "");
    assert!(remove_step(&cs("éa"), 0, 0, 0, 3).is_none());
}

#[test]
fn add_prefix_insert_suffix() {
    assert_eq!(st(&add_step(&cs("ab"), &cs("x"), &cs("-"), 1, &cs("y")).unwrap()), "x-aby");
    assert_eq!(st(&add_step(&cs("ab"), &cs(""), &cs("-"), 99, &cs("")).unwrap()), "ab-");
    assert_eq!(st(&add_step(&cs("ab"), &cs(""), &cs(""), 1, &cs("")).unwrap()), "ab");
    assert!(add_step(&cs("éb"), &cs(""), &cs("-"), 1, &cs("")).is_none());
}

#[test]
fn numbering_text_and_position() {
    assert_eq!(st(&number_text_exec(7, 3)), "007");
    assert_eq!(st(&number_text_exec(123, 2)), "123");
    assert_eq!(st(&number_text_exec(0, 0)), "0");
    assert_eq!(st(&number_text_exec(4294967295, 12)), "004294967295");
    let n = cs("07");
    assert_eq!(st(&numbering_step(&cs("ab"), NumberingMode::Prefix, 0, &n).unwrap()), "07ab");
    assert_eq!(st(&numbering_step(&cs("ab"), NumberingMode::Suffix, 0, &n).unwrap()), "ab07");
    assert_eq!(st(&numbering_step(&cs("ab"), NumberingMode::PrefixAndSuffix, 0, &n).unwrap()), "07ab07");
    assert_eq!(st(&numbering_step(&cs("ab"), NumberingMode::Insert, 1, &n).unwrap()), "a07b");
    assert_eq!(st(&numbering_step(&cs("ab"), NumberingMode::Off, 1, &n).unwrap()), "ab");
    assert!(numbering_step(&cs("éb"), NumberingMode::Insert, 1, &n).is_none());
}

#[test]
fn split_at_the_extension() {
    let check = |name: &str, stem: &str, ext: &str| {
        let (s, x) = split_file_name(name).unwrap();
        assert_eq!(st(&s), stem);
        assert_eq!(st(&x), ext);
    };
    check("photo.jpg", "photo", ".jpg");
    check(".bashrc", ".bashrc", "");
    check("archive.tar.gz", "archive.tar", ".gz");
    check("README", "README", "");
    check("trailing.", "trailing.", "");
    check(".hidden.txt", ".hidden", ".txt");
    check("ünïcödé.tëxt", "ünïcödé", ".tëxt");
}

#[test]
fn split_with_a_given_extension() {
    let (s, x) = split_name(&cs("a.b.c"), &Some("c".to_string())).unwrap();
    assert_eq!((st(&s), st(&x)), ("a.b".to_string(), ".c".to_string()));
    let (s, x) = split_name(&cs("x."), &Some("".to_string())).unwrap();
    assert_eq!((st(&s), st(&x)), ("x.".to_string(), "".to_string()));
    let (s, x) = split_name(&cs("x"), &None).unwrap();
    assert_eq!((st(&s), st(&x)), ("x".to_string(), "".to_string()));
    // an extension longer than the name cannot be cut off
    assert!(split_name(&cs("ab"), &Some("abc".to_string())).is_none());
    // nor one whose dot would fall inside a character
    assert!(split_name(&cs("éb"), &Some("b".to_string())).is_none());
}

#[test]
fn case_mappings() {
    assert_eq!(st(&to_lowercase(&cs("ÀBC dEf"))), "àbc def");
    assert_eq!(st(&to_uppercase(&cs("straße"))), "STRASSE");
}

#[test]
fn byte_offsets() {
    let s = cs("aé€😀");
    assert_eq!(byte_len_u32(&s), 1 + 2 + 3 + 4);
    assert_eq!(char_index_at_byte(&s, 0), Some(0));
    assert_eq!(char_index_at_byte(&s, 1), Some(1));
    assert_eq!(char_index_at_byte(&s, 2), None);
    assert_eq!(char_index_at_byte(&s, 3), Some(2));
    assert_eq!(char_index_at_byte(&s, 6), Some(3));
    assert_eq!(char_index_at_byte(&s, 10), Some(4));
    assert_eq!(char_index_at_byte(&s, 11), None);
}
