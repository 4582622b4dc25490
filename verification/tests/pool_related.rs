use sui_hooks::pool_related::{
    pool_related_ids_path, pool_related_object_ids, watched_address, PoolRelatedIds,
};
use sui_hooks::text::{is_white_space, trimmed_lines};

fn id(n: u8) -> [u8; 32] {
    let mut id = [0u8; 32];
    id[31] = n;
    id
}

fn parse(text: &str) -> Option<[u8; 32]> {
    text.parse::<u8>().ok().map(id)
}

#[test]
fn white_space_is_what_unicode_says() {
    for code in 0..=0x10ffffu32 {
        if let Some(c) = char::from_u32(code) {
            assert_eq!(is_white_space(c), c.is_whitespace(), "{:x}", code);
        }
    }
}

#[test]
fn lines_are_those_of_the_trimmed_text() {
    for text in [
        "",
        " \n\t ",
        "a",
        "a\n",
        "a\nb",
        "a\r\nb\r\n",
        "\n\na\n\nb\n\n",
        "a\rb\nc",
        "a \n b ",
        "a\r\r\nb",
        "\r\na\n\r\nb",
        "\u{3000}x\u{2028}y\n\u{e9}z\u{a0}",
        "x\u{200b}\n",
    ] {
        let expected: Vec<String> = text.trim().lines().map(|line| line.to_string()).collect();
        assert_eq!(trimmed_lines(text), expected, "{:?}", text);
    }
    assert_eq!(trimmed_lines("a\r\n\nb\n"), vec!["a", "", "b"]);
}

#[test]
fn ids_are_read_line_by_line() {
    let ids = pool_related_object_ids(Some("\n1\r\n2\n\n7\n"), parse);
    assert!(ids.contains(&id(1)));
    assert!(ids.contains(&id(2)));
    assert!(ids.contains(&id(7)));
    assert!(!ids.contains(&id(3)));
}

#[test]
fn lines_that_do_not_parse_are_passed_over() {
    let ids = pool_related_object_ids(Some("1\nnonsense\n 2\n3"), parse);
    assert!(ids.contains(&id(1)));
    assert!(!ids.contains(&id(2)));
    assert!(ids.contains(&id(3)));
}

#[test]
fn without_a_file_there_are_no_ids() {
    let ids = pool_related_object_ids(None, parse);
    for n in 0..=255 {
        assert!(!ids.contains(&id(n)));
    }
}

#[test]
fn order_and_repetition_of_lines_do_not_matter() {
    let one = pool_related_object_ids(Some("1\n2\n1"), parse);
    let other = pool_related_object_ids(Some("2\n1"), parse);
    for n in 0..=255 {
        assert_eq!(one.contains(&id(n)), other.contains(&id(n)));
    }
}

#[test]
fn lines_are_read_back_but_for_outer_empty_ones() {
    assert_eq!(trimmed_lines("\n\n1\n\n2\n\n \t"), vec!["1", "", "2"]);
}

#[test]
fn a_rewritten_file_lists_the_same() {
    let one = pool_related_object_ids(Some("1\n2\n3"), parse);
    let other = pool_related_object_ids(Some("\n3\nnonsense\n1\n\n2\n3\n# end\n\n"), parse);
    for n in 0..=255 {
        assert_eq!(one.contains(&id(n)), other.contains(&id(n)));
    }
}

#[test]
fn an_id_is_added_once() {
    let mut ids = PoolRelatedIds::new();
    assert!(!ids.contains(&id(4)));
    assert!(ids.insert(id(4)));
    assert!(!ids.insert(id(4)));
    assert!(ids.contains(&id(4)));
    assert!(!ids.contains(&id(5)));
}

#[test]
fn the_environment_may_name_the_file() {
    assert_eq!(pool_related_ids_path(None), "/var/lib/sui/pool_related_ids.txt");
    assert_eq!(pool_related_ids_path(Some("/etc/ids".to_string())), "/etc/ids");
}

#[test]
fn the_watched_address_is_the_one_that_parses() {
    assert_eq!(watched_address(Some("9"), parse), Some(id(9)));
    assert_eq!(watched_address(Some("x"), parse), None);
    assert_eq!(watched_address(None, parse), None);
}
