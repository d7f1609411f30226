use eddie::digest::{compute_conversation_id, compute_thread_id, hex_of_digest_prefix, short_digest, to_hex_lower};
use eddie::sorted_set::{chars_lt, difference, insert_all, insert_sorted, sort_strings, sorted_strings, vec_contains};

fn chars(s: &str) -> Vec<char> {
    s.chars().collect()
}

#[test]
fn identifiers_are_sixteen_hex_digits_of_sha256() {
    assert_eq!(short_digest(""), "e3b0c44298fc1c14");
    assert_eq!(short_digest("abc"), "ba7816bf8f01cfea");
    assert_eq!(compute_conversation_id("abc"), "ba7816bf8f01cfea");
    assert_eq!(compute_thread_id("abc"), "ba7816bf8f01cfea");
    assert_eq!(hex_of_digest_prefix("abc", 4), "ba7816bf");
    assert_eq!(hex_of_digest_prefix("abc", 0), "");
    assert_eq!(to_hex_lower(&[0x00, 0x0f, 0xa0, 0xff]).into_iter().collect::<String>(), "000fa0ff");
}

#[test]
fn strings_sort_by_code_points() {
    let v = vec!["b".to_string(), "B".to_string(), "a".to_string(), "b".to_string()];
    assert_eq!(sort_strings(&v), vec!["B".to_string(), "a".to_string(), "b".to_string(), "b".to_string()]);
    assert_eq!(sorted_strings(&v), vec!["B".to_string(), "a".to_string(), "b".to_string(), "b".to_string()]);
    assert!(chars_lt(&chars("ab"), &chars("b")));
    assert!(chars_lt(&chars("a"), &chars("ab")));
    assert!(!chars_lt(&chars("ab"), &chars("ab")));
}

#[test]
fn sorted_sets_insert_once_and_subtract() {
    let mut set: Vec<Vec<char>> = Vec::new();
    insert_sorted(&mut set, &chars("m"));
    insert_sorted(&mut set, &chars("c"));
    insert_sorted(&mut set, &chars("m"));
    assert_eq!(set, vec![chars("c"), chars("m")]);
    insert_all(&mut set, &vec![chars("z"), chars("a"), chars("c")]);
    assert_eq!(set, vec![chars("a"), chars("c"), chars("m"), chars("z")]);
    assert!(vec_contains(&set, &chars("m")));
    assert!(!vec_contains(&set, &chars("q")));
    let d = difference(&set, &vec![chars("c"), chars("z"), chars("q")]);
    assert_eq!(d, vec![chars("a"), chars("m")]);
}
