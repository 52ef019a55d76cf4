use pprof_converter::text::{chars_of, find_string, string_of};

#[test]
fn chars_of_a_string() {
    assert_eq!(chars_of(""), Vec::<char>::new());
    assert_eq!(chars_of("a;b"), vec!['a', ';', 'b']);
    assert_eq!(chars_of("größe"), vec!['g', 'r', 'ö', 'ß', 'e']);
}

#[test]
fn string_of_a_range() {
    let chars = chars_of("lib.c:größe");
    assert_eq!(string_of(&chars, 0, 5), "lib.c");
    assert_eq!(string_of(&chars, 6, chars.len()), "größe");
    assert_eq!(string_of(&chars, 3, 3), "");
    assert_eq!(string_of(&chars, 0, chars.len()), "lib.c:größe");
}

#[test]
fn find_string_gives_the_first_index() {
    let strings: Vec<String> = ["", "a", "b", "a"].iter().map(|s| s.to_string()).collect();
    assert_eq!(find_string(&strings, &"a".to_string()), Some(1));
    assert_eq!(find_string(&strings, &"b".to_string()), Some(2));
    assert_eq!(find_string(&strings, &String::new()), Some(0));
    assert_eq!(find_string(&strings, &"c".to_string()), None);
    assert_eq!(find_string(&Vec::new(), &"a".to_string()), None);
}
