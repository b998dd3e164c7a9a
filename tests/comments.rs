use track::comments::{analyze_comments, split_span, ClockTime};

fn clock(hour: u32, minute: u32) -> ClockTime {
    ClockTime { hour, minute }
}

#[test]
fn span_in_a_comment() {
    assert_eq!(
        analyze_comments("worked 9:00 - 10:30 on reviews"),
        Some((clock(9, 0), clock(10, 30)))
    );
    assert_eq!(analyze_comments("8:15-9:45"), Some((clock(8, 15), clock(9, 45))));
    assert_eq!(
        analyze_comments("from 13:05 -\t17:50, then lunch 18:00-19:00"),
        Some((clock(13, 5), clock(17, 50)))
    );
}

#[test]
fn comment_without_span() {
    assert_eq!(analyze_comments("fixed the build"), None);
    assert_eq!(analyze_comments("9:00 until late"), None);
    assert_eq!(analyze_comments(""), None);
}

#[test]
fn span_with_impossible_times() {
    assert_eq!(analyze_comments("24:00 - 25:30"), None);
    assert_eq!(analyze_comments("9:00 - 10:75"), None);
}

#[test]
fn splitting_a_span() {
    let chars: Vec<char> = "9:00-10:30".chars().collect();
    assert_eq!(
        split_span(chars),
        Some(("9:00".chars().collect(), "10:30".chars().collect()))
    );
    let twice: Vec<char> = "1-2-3".chars().collect();
    assert_eq!(split_span(twice), Some((vec!['1'], vec!['2'])));
    let none: Vec<char> = "9:00".chars().collect();
    assert_eq!(split_span(none), None);
}
