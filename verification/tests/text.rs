use eztd_core::{Kind, String, CAPACITY};
use std::cmp::Ordering::{Equal, Greater, Less};
use std::ops::{Bound, RangeBounds};

fn bounds(range: impl RangeBounds<usize>) -> (Bound<usize>, Bound<usize>) {
    (range.start_bound().cloned(), range.end_bound().cloned())
}

fn sample(len: usize) -> std::string::String {
    "abcdefghijklmnopqrstuvwxyz0123456789".chars().cycle().take(len).collect()
}

#[test]
fn capacity_is_documented_value() {
    assert_eq!(CAPACITY, 31);
}

#[test]
fn new_is_empty() {
    let text = String::new();
    assert_eq!(text.kind(), Kind::Empty);
    assert_eq!(text.as_str(), "");
    assert_eq!(text.byte_len(), 0);
    assert_eq!(text.len(), 0);
    assert_eq!(text.char_len(), 0);
    assert!(text.is_empty());
    assert_eq!(String::default().kind(), Kind::Empty);
}

#[test]
fn round_trip_around_capacity() {
    for len in [0, 1, 2, CAPACITY - 1, CAPACITY, CAPACITY + 1, CAPACITY + 2, 100, 5000] {
        let source = sample(len);
        let text = String::from(source.as_str());
        assert_eq!(text.as_str(), source);
        assert_eq!(text.byte_len(), len);
        assert_eq!(text.is_empty(), len == 0);
    }
}

#[test]
fn round_trip_of_multibyte_text() {
    for source in ["é", "日本語", "a\u{10FFFF}z", "\u{0}", "naïve café — ünïcödé text that is long enough to be shared"] {
        let text = String::from(source);
        assert_eq!(text.as_str(), source);
        assert_eq!(text.byte_len(), source.len());
        assert_eq!(text.char_len(), source.chars().count());
    }
}

#[test]
fn representation_goes_by_byte_length() {
    assert_eq!(String::from("").kind(), Kind::Empty);
    assert_eq!(String::from("a").kind(), Kind::Inline);
    assert_eq!(String::from(sample(CAPACITY - 1).as_str()).kind(), Kind::Inline);
    assert_eq!(String::from(sample(CAPACITY).as_str()).kind(), Kind::Inline);
    assert_eq!(String::from(sample(CAPACITY + 1).as_str()).kind(), Kind::Shared);
    assert_eq!(String::from(sample(1000).as_str()).kind(), Kind::Shared);
}

#[test]
fn representation_counts_bytes_not_characters() {
    // 16 characters of two bytes each: 32 bytes, one more than fits inline.
    let wide: std::string::String = "é".repeat(16);
    assert_eq!(wide.len(), CAPACITY + 1);
    let text = String::from(wide.as_str());
    assert_eq!(text.kind(), Kind::Shared);
    assert_eq!(text.char_len(), 16);
    assert_eq!(text.byte_len(), 32);
}

#[test]
fn get_tail_of_hello() {
    let text = String::from("Hello");
    let tail = text.get(bounds(3..)).unwrap();
    assert_eq!(tail.as_str(), "lo");
    assert_eq!(tail.kind(), Kind::Inline);
}

#[test]
fn get_empty_range_of_hello_is_empty_text() {
    let text = String::from("Hello");
    let none = text.get(bounds(..0));
    assert!(none.is_some());
    let none = none.unwrap();
    assert_eq!(none.as_str(), "");
    assert_eq!(none.kind(), Kind::Empty);
}

#[test]
fn get_degenerate_requests() {
    let text = String::from("Hello");
    assert_eq!(text.get(bounds(10..)).unwrap().as_str(), "");
    assert_eq!(text.get(bounds(4..2)).unwrap().as_str(), "");
    assert_eq!(text.get(bounds(3..3)).unwrap().as_str(), "");
    assert_eq!(text.get(bounds(..)).unwrap().as_str(), "Hello");
    assert_eq!(text.get(bounds(..100)).unwrap().as_str(), "Hello");
    assert_eq!(text.get(bounds(1..=3)).unwrap().as_str(), "ell");
    assert_eq!(text.get(bounds(0..4)).unwrap().as_str(), "Hell");
    assert_eq!(
        text.get((Bound::Excluded(0), Bound::Included(usize::MAX))).unwrap().as_str(),
        "ello"
    );
}

#[test]
fn get_of_empty_text_is_none() {
    let text = String::new();
    assert!(text.get(bounds(..)).is_none());
    assert!(text.get(bounds(0..)).is_none());
    assert!(text.get(bounds(..0)).is_none());
    assert!(text.get(bounds(3..7)).is_none());
    assert!(String::from("").get(bounds(0..=0)).is_none());
}

#[test]
fn get_inside_a_character_is_none() {
    let text = String::from("héllo");
    assert!(text.get(bounds(2..)).is_none());
    assert!(text.get(bounds(..2)).is_none());
    assert!(text.get(bounds(1..=1)).is_none());
    assert_eq!(text.get(bounds(1..3)).unwrap().as_str(), "é");
    assert_eq!(text.get(bounds(3..)).unwrap().as_str(), "llo");
    assert_eq!(text.get(bounds(..1)).unwrap().as_str(), "h");
}

#[test]
fn index_never_fails_on_ranges_outside() {
    let text = String::from("Hello");
    assert_eq!(text.index(bounds(3..)), "lo");
    assert_eq!(text.index(bounds(..0)), "");
    assert_eq!(text.index(bounds(10..20)), "");
    assert_eq!(text.index(bounds(4..1)), "");
    assert_eq!(text.index(bounds(..)), "Hello");
    assert_eq!(text.index(bounds(1..=100)), "ello");
    assert_eq!(String::new().index(bounds(..)), "");
}

#[test]
fn split_at_per_martin() {
    let text = String::from("Per Martin");
    let (first, last) = text.split_at(3);
    assert_eq!(first.as_str(), "Per");
    assert_eq!(last.as_str(), " Martin");
    assert!("Per" == first);
    assert!(" Martin" == last);
}

#[test]
fn split_at_the_ends() {
    let text = String::from("Per Martin");
    let (first, last) = text.split_at(0);
    assert_eq!(first.kind(), Kind::Empty);
    assert_eq!(last.as_str(), "Per Martin");
    let (first, last) = text.split_at(10);
    assert_eq!(first.as_str(), "Per Martin");
    assert_eq!(last.kind(), Kind::Empty);
    let (first, last) = String::new().split_at(0);
    assert!(first.is_empty() && last.is_empty());
}

#[test]
fn split_at_of_shared_text() {
    let source = sample(80);
    let text = String::from(source.as_str());
    for mid in [1, 40, 79] {
        let (first, last) = text.split_at(mid);
        assert_eq!(first.as_str(), &source[..mid]);
        assert_eq!(last.as_str(), &source[mid..]);
        assert_eq!(first.kind(), Kind::Shared);
        assert_eq!(last.kind(), Kind::Shared);
        assert!(first.shares_buffer(&text));
        assert!(last.shares_buffer(&first));
    }
}

#[test]
fn own_str_takes_the_part_between_offsets() {
    let text = String::from("héllo wörld");
    assert_eq!(text.own_str(0, 3).as_str(), "hé");
    assert_eq!(text.own_str(3, 3).kind(), Kind::Empty);
    assert_eq!(text.own_str(7, 13).as_str(), "wörld");
    let long = String::from(sample(64).as_str());
    let part = long.own_str(10, 20);
    assert_eq!(part.as_str(), &sample(64)[10..20]);
    assert_eq!(part.own_str(2, 5).as_str(), &sample(64)[12..15]);
    assert_eq!(part.own_str(0, 0).kind(), Kind::Empty);
    assert_eq!(String::new().own_str(0, 0).kind(), Kind::Empty);
}

#[test]
fn sub_slices_of_shared_text_share_its_buffer() {
    let source = sample(200);
    let text = String::from(source.as_str());
    let a = text.get(bounds(10..150)).unwrap();
    let b = text.get(bounds(100..)).unwrap();
    let c = a.get(bounds(5..=5)).unwrap();
    assert_eq!(a.as_str(), &source[10..150]);
    assert_eq!(b.as_str(), &source[100..]);
    assert_eq!(c.as_str(), &source[15..16]);
    for part in [&a, &b, &c] {
        assert_eq!(part.kind(), Kind::Shared);
        assert!(part.shares_buffer(&text));
        assert!(text.shares_buffer(part));
    }
    assert!(a.shares_buffer(&b));
    assert!(c.shares_buffer(&b));
    drop(text);
    assert!(a.shares_buffer(&b));
    assert_eq!(c.as_str(), &source[15..16]);
}

#[test]
fn separate_texts_share_no_buffer() {
    let source = sample(200);
    let a = String::from(source.as_str());
    let b = String::from(source.as_str());
    assert!(!a.shares_buffer(&b));
    assert!(a == b);
    let short = String::from("short");
    assert!(!short.shares_buffer(&short));
    assert!(!String::new().shares_buffer(&a));
    assert!(a.shares_buffer(&a));
}

#[test]
fn clone_keeps_text_and_buffer() {
    let source = sample(90);
    let text = String::from(source.as_str());
    let copy = text.clone();
    assert_eq!(copy.as_str(), source);
    assert_eq!(copy.kind(), Kind::Shared);
    assert!(copy.shares_buffer(&text));
    let short = String::from("short").clone();
    assert_eq!(short.as_str(), "short");
    assert_eq!(short.kind(), Kind::Inline);
    assert_eq!(String::new().clone().kind(), Kind::Empty);
}

#[test]
fn shrink_to_fit_lets_go_of_the_buffer() {
    let source = sample(200);
    let text = String::from(source.as_str());
    let small = text.get(bounds(..4)).unwrap();
    assert_eq!(small.kind(), Kind::Shared);
    let fitted = small.shrink_to_fit();
    assert_eq!(fitted.as_str(), "abcd");
    assert_eq!(fitted.kind(), Kind::Inline);
    let large = text.get(bounds(..150)).unwrap();
    let fitted = large.shrink_to_fit();
    assert_eq!(fitted.as_str(), &source[..150]);
    assert_eq!(fitted.kind(), Kind::Shared);
    assert!(!fitted.shares_buffer(&text));
    assert_eq!(String::new().shrink_to_fit().kind(), Kind::Empty);
    assert_eq!(String::from("foo").shrink_to_fit().as_str(), "foo");
}

#[test]
fn join_str_foo_bar_baz() {
    let s = String::from("foo");
    let s = s.join_str("bar");
    assert!("foobar" == s);
    let baz = String::from("baz");
    let s = s.join_str(baz.as_str());
    assert_eq!(s.as_str(), "foobarbaz");
    assert_eq!(s.kind(), Kind::Inline);
    assert_eq!(baz.as_str(), "baz");
}

#[test]
fn join_str_across_capacity() {
    let left = String::from(sample(CAPACITY).as_str());
    assert_eq!(left.join_str("").kind(), Kind::Inline);
    let joined = left.join_str("!");
    assert_eq!(joined.kind(), Kind::Shared);
    assert_eq!(joined.as_str(), format!("{}!", sample(CAPACITY)));
    assert_eq!(left.as_str(), sample(CAPACITY));
    assert_eq!(String::new().join_str("").kind(), Kind::Empty);
    assert_eq!(String::new().join_str("x").as_str(), "x");
}

#[test]
fn join_str_never_shares_the_operand_buffer() {
    let left = String::from(sample(100).as_str());
    let joined = left.join_str("tail");
    assert!(!joined.shares_buffer(&left));
    assert_eq!(joined.byte_len(), 104);
    let same = left.join_str("");
    assert!(!same.shares_buffer(&left));
    assert!(same == left);
}

#[test]
fn join_char_abc123() {
    let s = String::from("abc");
    let s = s.join_char('1').join_char('2').join_char('3');
    assert_eq!(s.as_str(), "abc123");
    assert_eq!(String::new().join_char('é').as_str(), "é");
    assert_eq!(String::from("a").join_char('\u{10FFFF}').byte_len(), 5);
    assert_eq!(String::from("日本").join_char('語').as_str(), "日本語");
}

#[test]
fn many_single_character_appends() {
    let mut text = String::new();
    let mut expected = std::string::String::new();
    for i in 0..2000u32 {
        let ch = char::from(b'a' + (i % 26) as u8);
        text = text.join_char(ch);
        expected.push(ch);
    }
    assert_eq!(text.byte_len(), 2000);
    assert_eq!(text.char_len(), 2000);
    assert_eq!(text.as_str(), expected);
    assert_eq!(text.kind(), Kind::Shared);
}

#[test]
fn plus_appends() {
    let a = String::from("hello");
    let b = String::from(" world");
    let c = &a + b.as_str() + "foo";
    assert_eq!(c.as_str(), "hello worldfoo");
    assert_eq!(a.as_str(), "hello");
    let d = a + "!";
    assert_eq!(d.as_str(), "hello!");
}

#[test]
fn trim_start_removes_leading_white_space() {
    let s = String::from(" Hello\tworld\t");
    assert_eq!(s.trim_start().as_str(), "Hello\tworld\t");
    assert_eq!(s.lstrip().as_str(), "Hello\tworld\t");
    assert_eq!(String::from("Hello ").trim_start().as_str(), "Hello ");
    assert_eq!(String::from(" \t\r\n").trim_start().kind(), Kind::Empty);
    assert_eq!(String::new().trim_start().kind(), Kind::Empty);
    assert_eq!(
        String::from("\u{00A0}\u{3000}\u{2003}\u{85}x y").trim_start().as_str(),
        "x y"
    );
    assert_eq!(
        String::from("\u{200B} x").trim_start().as_str(),
        "\u{200B} x"
    );
}

#[test]
fn trim_start_of_shared_text_copies_nothing() {
    let source = format!("   \u{2028}{}", sample(100));
    let text = String::from(source.as_str());
    let trimmed = text.trim_start();
    assert_eq!(trimmed.as_str(), sample(100));
    assert_eq!(trimmed.kind(), Kind::Shared);
    assert!(trimmed.shares_buffer(&text));
    let short = text.get(bounds(2..9)).unwrap().trim_start();
    assert_eq!(short.as_str(), "abc");
    assert_eq!(short.kind(), Kind::Shared);
    assert!(short.shares_buffer(&text));
}

#[test]
fn white_space_is_the_unicode_property() {
    let listed = |c: char| {
        matches!(
            c as u32,
            0x0009..=0x000D
                | 0x0020
                | 0x0085
                | 0x00A0
                | 0x1680
                | 0x2000..=0x200A
                | 0x2028
                | 0x2029
                | 0x202F
                | 0x205F
                | 0x3000
        )
    };
    let mut buffer = [0u8; 4];
    for code in 0..=0x10FFFFu32 {
        if let Some(c) = char::from_u32(code) {
            let text = String::from(&*c.encode_utf8(&mut buffer));
            assert_eq!(text.trim_start().is_empty(), listed(c), "U+{:04X}", code);
        }
    }
}

#[test]
fn char_len_counts_characters() {
    assert_eq!(String::from("foo").char_len(), 3);
    assert_eq!(String::from("foo").byte_len(), 3);
    assert_eq!(String::from("日本語").char_len(), 3);
    assert_eq!(String::from("日本語").byte_len(), 9);
    assert_eq!(String::from("日本語").len(), 9);
    let long = String::from("é".repeat(40).as_str());
    assert_eq!(long.char_len(), 40);
    assert_eq!(long.get(bounds(2..6)).unwrap().char_len(), 2);
}

#[test]
fn bytes_steps_through_bors() {
    let mut bytes = String::from("bors").bytes();
    assert_eq!(bytes.len(), 4);
    assert_eq!(bytes.size_hint(), (4, Some(4)));
    assert_eq!(Some(b'b'), bytes.next());
    assert_eq!(Some(b'o'), bytes.next());
    assert_eq!(Some(b'r'), bytes.next());
    assert_eq!(Some(b's'), bytes.next());
    assert_eq!(None, bytes.next());
    assert_eq!(None, bytes.next());
    assert_eq!(bytes.len(), 4);
    assert_eq!(bytes.size_hint(), (4, Some(4)));
}

#[test]
fn bytes_of_any_representation() {
    let mut none = String::new().bytes();
    assert_eq!(none.next(), None);
    assert_eq!(none.len(), 0);
    let source = sample(70);
    let text = String::from(source.as_str());
    let part = text.get(bounds(5..50)).unwrap();
    let mut bytes = part.bytes();
    drop(part);
    drop(text);
    let mut seen = Vec::new();
    while let Some(byte) = bytes.next() {
        seen.push(byte);
    }
    assert_eq!(seen, source.as_bytes()[5..50]);
    let mut wide = String::from("é").bytes();
    assert_eq!(wide.next(), Some(0xC3));
    assert_eq!(wide.next(), Some(0xA9));
    assert_eq!(wide.next(), None);
}

#[test]
fn equality_goes_by_text_alone() {
    let source = sample(200);
    let shared = String::from(source.as_str()).get(bounds(..5)).unwrap();
    let inline = String::from("abcde");
    assert_eq!(shared.kind(), Kind::Shared);
    assert_eq!(inline.kind(), Kind::Inline);
    assert!(shared == inline);
    assert!(inline == shared);
    assert!(!(shared != inline));
    assert!(shared != String::from("abcdf"));
    assert!(shared != String::from("abcd"));
    assert!(String::new() == String::from(""));
    assert!(String::new() != inline);
    assert!(shared.cmp(&inline) == Equal);
    assert_eq!(shared.partial_cmp(&inline), Some(Equal));
}

#[test]
fn equality_with_std_texts() {
    let text = String::from("foobar");
    let owned = std::string::String::from("foobar");
    assert!(text == "foobar");
    assert!("foobar" == text);
    assert!(text == *"foobar");
    assert!(*"foobar" == text);
    assert!(text == owned);
    assert!(owned == text);
    assert!(text == &owned);
    assert!(&owned == text);
    assert!(text != "foobaz");
    assert!("fooba" != text);
    assert!(text != std::string::String::from("foo"));
}

#[test]
fn order_is_lexicographic_by_bytes() {
    let cases = [
        ("", "", Equal),
        ("", "a", Less),
        ("a", "", Greater),
        ("a", "b", Less),
        ("b", "a", Greater),
        ("ab", "abc", Less),
        ("abc", "ab", Greater),
        ("abc", "abd", Less),
        ("Z", "a", Less),
        ("z", "é", Less),
        ("é", "日", Less),
        ("\u{FFFF}", "\u{10000}", Less),
        ("same", "same", Equal),
    ];
    for (a, b, expected) in cases {
        let left = String::from(a);
        let right = String::from(b);
        assert_eq!(left.cmp(&right), expected, "{:?} {:?}", a, b);
        assert_eq!(left.partial_cmp(&right), Some(expected));
        assert_eq!(a.cmp(b), expected);
        assert_eq!(left < right, expected == Less);
        assert_eq!(left <= right, expected != Greater);
        assert_eq!(left > right, expected == Greater);
        assert_eq!(left >= right, expected != Less);
    }
}

#[test]
fn order_agrees_with_std_on_many_texts() {
    let texts = [
        "", "a", "aa", "ab", "b", "ba", "é", "éa", "日本", "日本語", "z", "\u{10FFFF}", "\u{7F}", "\u{80}",
    ];
    let long = sample(100);
    for a in texts.iter().copied().chain([long.as_str()]) {
        for b in texts.iter().copied().chain([&long[..50]]) {
            assert_eq!(String::from(a).cmp(&String::from(b)), a.cmp(b));
            assert_eq!(String::from(a) == String::from(b), a == b);
        }
    }
}

#[test]
fn conversions() {
    assert_eq!(String::from('x').as_str(), "x");
    assert_eq!(String::from('語').as_str(), "語");
    assert_eq!(String::from('語').kind(), Kind::Inline);
    assert_eq!(String::from(std::string::String::from("owned")).as_str(), "owned");
    assert_eq!(String::from(&std::string::String::from("borrowed")).as_str(), "borrowed");
    let parsed: String = "parsed".parse().unwrap();
    assert_eq!(parsed.as_str(), "parsed");
    let long: String = sample(40).parse().unwrap();
    assert_eq!(long.kind(), Kind::Shared);
}
