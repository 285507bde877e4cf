use eztd_core::String;
use std::ops::Bound::{Excluded, Included, Unbounded};
use std::ops::{Bound, RangeBounds, RangeInclusive};

fn coerce_range(text: &String, range: impl RangeBounds<usize>) -> Option<RangeInclusive<usize>> {
    text.coerce_range((range.start_bound().cloned(), range.end_bound().cloned()))
}

#[test]
fn empty() {
    let fixture = "";
    let outside = 10;
    assert_eq!(coerce_range(&String::from(fixture), ..), None);
    assert_eq!(coerce_range(&String::from(fixture), 0..), None);
    assert_eq!(coerce_range(&String::from(fixture), outside..), None);
    assert_eq!(coerce_range(&String::from(fixture), ..outside), None);
    assert_eq!(coerce_range(&String::from(fixture), ..0), None);
    assert_eq!(coerce_range(&String::from(fixture), 0..0), None);
    assert_eq!(coerce_range(&String::from(fixture), 0..outside), None);
    assert_eq!(coerce_range(&String::from(fixture), outside..0), None);
    assert_eq!(coerce_range(&String::from(fixture), 0..=0), None);
    assert_eq!(coerce_range(&String::from(fixture), 0..=outside), None);
    assert_eq!(coerce_range(&String::from(fixture), outside..=0), None);
}

#[test]
fn non_empty() {
    let fixture = "Hello";
    let inside = 3;
    assert!(inside < fixture.len());
    let outside = 10;
    assert!(fixture.len() < outside);

    assert_eq!(coerce_range(&String::from(fixture), ..), Some(0..=4));
    assert_eq!(coerce_range(&String::from(fixture), 0..), Some(0..=4));
    assert_eq!(coerce_range(&String::from(fixture), inside..), Some(3..=4));
    assert_eq!(coerce_range(&String::from(fixture), outside..), None);
    assert_eq!(coerce_range(&String::from(fixture), ..inside), Some(0..=2));
    assert_eq!(coerce_range(&String::from(fixture), ..outside), Some(0..=4));
    assert_eq!(coerce_range(&String::from(fixture), ..0), None);
    assert_eq!(coerce_range(&String::from(fixture), 0..0), None);
    assert_eq!(coerce_range(&String::from(fixture), 0..inside), Some(0..=2));
    assert_eq!(coerce_range(&String::from(fixture), 0..outside), Some(0..=4));
    assert_eq!(
        coerce_range(&String::from(fixture), inside..outside),
        Some(3..=4)
    );
    assert_eq!(coerce_range(&String::from(fixture), inside..0), None);
    assert_eq!(coerce_range(&String::from(fixture), outside..0), None);
    assert_eq!(coerce_range(&String::from(fixture), outside..inside), None);
    assert_eq!(coerce_range(&String::from(fixture), 0..=0), Some(0..=0));
    assert_eq!(coerce_range(&String::from(fixture), 0..=inside), Some(0..=3));
    assert_eq!(coerce_range(&String::from(fixture), 0..=outside), Some(0..=4));
    assert_eq!(
        coerce_range(&String::from(fixture), inside..=outside),
        Some(3..=4)
    );
    assert_eq!(coerce_range(&String::from(fixture), inside..=0), None);
    assert_eq!(coerce_range(&String::from(fixture), outside..=0), None);
    assert_eq!(coerce_range(&String::from(fixture), outside..=inside), None);
}

#[test]
fn single_byte() {
    let text = String::from("x");
    assert_eq!(coerce_range(&text, ..), Some(0..=0));
    assert_eq!(coerce_range(&text, 0..1), Some(0..=0));
    assert_eq!(coerce_range(&text, 0..=0), Some(0..=0));
    assert_eq!(coerce_range(&text, 0..=usize::MAX), Some(0..=0));
    assert_eq!(coerce_range(&text, 1..), None);
    assert_eq!(coerce_range(&text, 1..=1), None);
    assert_eq!(coerce_range(&text, ..0), None);
    assert_eq!(coerce_range(&text, 0..0), None);
}

#[test]
fn touching_extremes() {
    let max = usize::MAX;
    for fixture in ["", "x", "Hello"] {
        let text = String::from(fixture);
        let last = fixture.len().wrapping_sub(1);
        let whole = if fixture.is_empty() { None } else { Some(0..=last) };
        assert_eq!(text.coerce_range((Unbounded, Included(max))), whole);
        assert_eq!(text.coerce_range((Unbounded, Excluded(max))), whole);
        assert_eq!(text.coerce_range((Included(0), Included(max))), whole);
        assert_eq!(text.coerce_range((Included(max), Unbounded)), None);
        assert_eq!(text.coerce_range((Included(max), Included(max))), None);
        assert_eq!(text.coerce_range((Excluded(max), Unbounded)), None);
        assert_eq!(text.coerce_range((Excluded(max), Included(max))), None);
        assert_eq!(text.coerce_range((Excluded(max), Excluded(0))), None);
        assert_eq!(text.coerce_range((Unbounded, Excluded(0))), None);
        assert_eq!(text.coerce_range((Included(max), Excluded(0))), None);
    }
}

#[test]
fn exclusive_start() {
    let text = String::from("Hello");
    assert_eq!(text.coerce_range((Excluded(0), Unbounded)), Some(1..=4));
    assert_eq!(text.coerce_range((Excluded(3), Included(4))), Some(4..=4));
    assert_eq!(text.coerce_range((Excluded(3), Excluded(4))), None);
    assert_eq!(text.coerce_range((Excluded(4), Unbounded)), None);
    assert_eq!(text.coerce_range((Excluded(2), Excluded(100))), Some(3..=4));
}

#[test]
fn coerced_range_is_the_common_part() {
    let requests: [(std::ops::Bound<usize>, std::ops::Bound<usize>); 9] = {
            [
            (Unbounded, Unbounded),
            (Included(2), Unbounded),
            (Excluded(2), Excluded(6)),
            (Included(4), Included(1)),
            (Included(7), Included(9)),
            (Unbounded, Excluded(0)),
            (Excluded(usize::MAX), Unbounded),
            (Included(0), Included(usize::MAX)),
            (Included(3), Excluded(3)),
        ]
    };
    for len in 0..8usize {
        let text = String::from("abcdefgh"[..len].to_string());
        for request in requests {
            let held: Vec<usize> = (0..len).filter(|i| request.contains(i)).collect();
            let expected = match (held.first(), held.last()) {
                (Some(first), Some(last)) => Some(*first..=*last),
                _ => None,
            };
            assert_eq!(text.coerce_range(request), expected);
            assert_eq!(eztd_core::range::coerce(len, request), expected.map(|r| r.into_inner()));
        }
    }
}
