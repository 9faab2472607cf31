use std::cmp::Ordering;
use taggenator::file_server::{comic_pages, get_leading_number, is_image};
use taggenator::page_order::chain_ordering;

#[test]
fn test_get_leading_number() {
    assert_eq!(4, get_leading_number("4and then something else"));
    assert_eq!(42, get_leading_number("42and then something else"));
    assert_eq!(0, get_leading_number("something else then 4"));
    assert_eq!(0, get_leading_number("something else 4 then more"));
}

#[test]
fn leading_number_too_large_is_zero() {
    assert_eq!(0, get_leading_number("99999999999999999999999999.png"));
    assert_eq!(7, get_leading_number("007.png"));
    assert_eq!(0, get_leading_number(""));
}

#[test]
fn images_by_extension() {
    assert!(is_image("page.jpg"));
    assert!(is_image("dir/page.jpeg"));
    assert!(is_image("a.svg"));
    assert!(!is_image("page.JPG"));
    assert!(!is_image("notes.txt"));
    assert!(is_image("png"));
}

#[test]
fn chain_ordering_breaks_ties() {
    assert_eq!(chain_ordering(Ordering::Equal, Ordering::Less), Ordering::Less);
    assert_eq!(chain_ordering(Ordering::Greater, Ordering::Less), Ordering::Greater);
    assert_eq!(chain_ordering(Ordering::Less, Ordering::Greater), Ordering::Less);
}

#[test]
fn chain_ordering_compares_pairs() {
    let pairs = [(1, "b"), (2, "a"), (2, "b"), (2, "b")];
    for x in pairs.iter() {
        for y in pairs.iter() {
            assert_eq!(chain_ordering(x.0.cmp(&y.0), x.1.cmp(y.1)), x.cmp(y));
        }
    }
    for o in [Ordering::Less, Ordering::Equal, Ordering::Greater] {
        assert_eq!(chain_ordering(Ordering::Equal, o), o);
        assert_eq!(chain_ordering(o, Ordering::Equal), o);
    }
}

#[test]
fn pages_in_reading_order() {
    let files = vec![
        ("10.png".to_string(), true),
        ("2.png".to_string(), true),
        ("cover.jpg".to_string(), true),
        ("dir/".to_string(), false),
        ("notes.txt".to_string(), true),
        ("2.png".to_string(), true),
        ("1b.png".to_string(), true),
        ("1a.png".to_string(), true),
    ];
    let pages = comic_pages(&files);
    assert_eq!(pages, vec![2, 7, 6, 1, 5, 0]);
}
