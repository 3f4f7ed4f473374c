use vinyl::url::{chars_of, find, matches_at, same_chars, slice, split_after, split_before};
use vinyl::cache::cache_name;
use vinyl::router::{CREATED, OK};
use vinyl::util::{decimal_chars, ApiError, DatabaseError, ParseError, Resource};

fn text(s: &str) -> Vec<char> {
    s.chars().collect()
}

#[test]
fn decimal_of_small_and_large_numbers() {
    assert_eq!(decimal_chars(0), text("0"));
    assert_eq!(decimal_chars(7), text("7"));
    assert_eq!(decimal_chars(10), text("10"));
    assert_eq!(decimal_chars(1234567890), text("1234567890"));
    assert_eq!(decimal_chars(u64::MAX), text("18446744073709551615"));
}

#[test]
fn errors_carry_their_status() {
    assert_eq!(ApiError::NotFound(Resource::Room).status_code(), 404);
    assert_eq!(ApiError::NotFound(Resource::Queue).status_code(), 404);
    assert_eq!(ApiError::Parse(ParseError::Unrecognized).status_code(), 400);
    assert_eq!(ApiError::Parse(ParseError::Unresolvable).status_code(), 400);
    assert_eq!(
        ApiError::Database(DatabaseError {
            message: "down".to_string()
        })
        .status_code(),
        500
    );
    assert_eq!(ApiError::Exhausted.status_code(), 500);
    assert_eq!((OK, CREATED), (200, 201));
}

#[test]
fn cache_names_keep_plain_characters_and_escape_the_others() {
    assert_eq!(cache_name(""), "");
    assert_eq!(cache_name("song42"), "song42");
    assert_eq!(cache_name("Song 1"), "_AAAAFDong_AAAACA1");
    assert_eq!(cache_name("_"), "_AAAAFP");
    assert_eq!(cache_name("é"), "_AAAAOJ");
    assert_eq!(cache_name("😀"), "_ABPGAA");
    assert_eq!(cache_name("\u{10FFFF}"), "_BAPPPP");
    assert_eq!(cache_name("a/b.c"), "a_AAAACPb_AAAACOc");
}

#[test]
fn cache_names_keep_fingerprints_apart() {
    let fingerprints = [
        "a b", "a_b", "a-b", "a.b", "ab", "A B", "a  b", "a b ", "aAb", "aab", "a_AAAACAb", "",
        " ", "_", "A", "a",
    ];
    for (i, one) in fingerprints.iter().enumerate() {
        for other in &fingerprints[i + 1..] {
            assert_ne!(cache_name(one), cache_name(other));
            assert_ne!(
                cache_name(one).to_lowercase(),
                cache_name(other).to_lowercase()
            );
        }
    }
}

#[test]
fn chars_of_keeps_every_character() {
    assert_eq!(chars_of(""), text(""));
    assert_eq!(chars_of("a/b"), vec!['a', '/', 'b']);
    assert_eq!(chars_of("héllo"), vec!['h', 'é', 'l', 'l', 'o']);
}

#[test]
fn find_gives_the_first_occurrence() {
    assert_eq!(find(&text("a://b://c"), &text("://")), Some(1));
    assert_eq!(find(&text("abc"), &text("abc")), Some(0));
    assert_eq!(find(&text("abc"), &text("")), Some(0));
    assert_eq!(find(&text(""), &text("")), Some(0));
    assert_eq!(find(&text("ab"), &text("abc")), None);
    assert_eq!(find(&text("aab"), &text("ab")), Some(1));
    assert_eq!(find(&text("abc"), &text("d")), None);
}

#[test]
fn matching_at_an_index() {
    assert!(matches_at(&text("hello"), &text("ll"), 2));
    assert!(!matches_at(&text("hello"), &text("ll"), 3));
    assert!(!matches_at(&text("hello"), &text("lo"), 4));
    assert!(matches_at(&text("hello"), &text(""), 5));
    assert!(!matches_at(&text("hello"), &text(""), 6));
    assert!(!matches_at(&text("hello"), &text("x"), usize::MAX));
}

#[test]
fn splitting_at_the_first_occurrence() {
    assert_eq!(split_before(&text("a/b/c"), &text("/")), text("a"));
    assert_eq!(split_after(&text("a/b/c"), &text("/")), text("b/c"));
    assert_eq!(split_before(&text("abc"), &text("/")), text("abc"));
    assert_eq!(split_after(&text("abc"), &text("/")), text("abc"));
    assert_eq!(split_after(&text("abc/"), &text("/")), text(""));
    assert_eq!(slice(&text("hello"), 1, 3), text("el"));
    assert!(same_chars(&text("abc"), &text("abc")));
    assert!(!same_chars(&text("abc"), &text("abd")));
    assert!(!same_chars(&text("abc"), &text("ab")));
}
