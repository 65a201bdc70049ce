use illiad::models::audiobook::compute_hash;
use illiad::models::hex::{to_hex_pairs, to_lower_hex};

fn id(title: &str, author: &str) -> String {
    compute_hash(title.to_string(), author.to_string())
}

#[test]
fn identifier_is_the_checksum_in_lowercase_hex() {
    assert_eq!(id("123456789", ""), "cbf43926");
    assert_eq!(id("hello", ""), "3610a686");
    assert_eq!(id("abc", ""), "352441c2");
}

#[test]
fn identifier_drops_leading_zeros() {
    assert_eq!(id("hello ", "world"), "d4a1185");
}

#[test]
fn identifier_of_nothing_is_zero() {
    assert_eq!(id("", ""), "0");
}

#[test]
fn identifier_is_the_same_for_the_same_input() {
    let first = id("The Hobbit", "J. R. R. Tolkien");
    let second = id("The Hobbit", "J. R. R. Tolkien");
    assert_eq!(first, second);
    assert_eq!(first, format!("{:x}", crc32fast::hash("The HobbitJ. R. R. Tolkien".as_bytes())));
}

#[test]
fn identifier_has_no_separator_between_title_and_author() {
    assert_eq!(id("ab", "c"), id("a", "bc"));
    assert_eq!(id("ab", "c"), id("abc", ""));
    assert_eq!(id("ab", "c"), "352441c2");
}

#[test]
fn identifier_tells_different_books_apart() {
    assert_ne!(id("Dune", "Frank Herbert"), id("Emma", "Jane Austen"));
}

#[test]
fn identifier_takes_the_bytes_of_utf8() {
    let expected = format!("{:x}", crc32fast::hash("Les Misérables Victor Hugo".as_bytes()));
    assert_eq!(id("Les Misérables ", "Victor Hugo"), expected);
}

#[test]
fn lower_hex_of_small_and_large_numbers() {
    assert_eq!(to_lower_hex(0), "0");
    assert_eq!(to_lower_hex(9), "9");
    assert_eq!(to_lower_hex(10), "a");
    assert_eq!(to_lower_hex(15), "f");
    assert_eq!(to_lower_hex(16), "10");
    assert_eq!(to_lower_hex(255), "ff");
    assert_eq!(to_lower_hex(0x0d4a1185), "d4a1185");
    assert_eq!(to_lower_hex(0xdeadbeef), "deadbeef");
    assert_eq!(to_lower_hex(u32::MAX), "ffffffff");
}

#[test]
fn lower_hex_agrees_with_the_standard_formatter() {
    let mut n: u32 = 1;
    for _ in 0..40 {
        assert_eq!(to_lower_hex(n), format!("{:x}", n));
        n = n.wrapping_mul(2654435761).wrapping_add(12345);
    }
}

#[test]
fn hex_pairs_keep_leading_zeros_of_every_byte() {
    assert_eq!(to_hex_pairs(&vec![]), "");
    assert_eq!(to_hex_pairs(&vec![0]), "00");
    assert_eq!(to_hex_pairs(&vec![0, 1, 255, 16, 0xab]), "0001ff10ab");
}
