use head_select::options::SignedUsize;
use head_select::selector::{select, Selector};

fn all_ok(items: &[u8]) -> Vec<Result<u8, String>> {
    let mut elements = Vec::new();
    for item in items {
        elements.push(Ok(*item));
    }
    elements
}

fn failure() -> Result<u8, String> {
    Err("read failed".to_string())
}

#[test]
fn positive_keeps_the_first_elements() {
    let kept = select(SignedUsize::Positive(2), all_ok(&[1, 2, 3, 4]));
    assert_eq!(kept, vec![1, 2]);
}

#[test]
fn positive_beyond_the_length_keeps_everything() {
    let kept = select(SignedUsize::Positive(10), all_ok(&[1, 2, 3]));
    assert_eq!(kept, vec![1, 2, 3]);
    let exact = select(SignedUsize::Positive(3), all_ok(&[1, 2, 3]));
    assert_eq!(exact, vec![1, 2, 3]);
}

#[test]
fn negative_drops_the_last_elements() {
    let kept = select(SignedUsize::Negative(1), all_ok(&[1, 2, 3, 4]));
    assert_eq!(kept, vec![1, 2, 3]);
    let fewer = select(SignedUsize::Negative(3), all_ok(&[1, 2, 3, 4]));
    assert_eq!(fewer, vec![1]);
}

#[test]
fn negative_beyond_the_length_keeps_nothing() {
    let exact = select(SignedUsize::Negative(4), all_ok(&[1, 2, 3, 4]));
    assert_eq!(exact, Vec::<u8>::new());
    let beyond = select(SignedUsize::Negative(9), all_ok(&[1, 2, 3, 4]));
    assert_eq!(beyond, Vec::<u8>::new());
}

#[test]
fn empty_sequence_gives_nothing() {
    assert_eq!(select(SignedUsize::Positive(3), all_ok(&[])), Vec::<u8>::new());
    assert_eq!(select(SignedUsize::Negative(3), all_ok(&[])), Vec::<u8>::new());
}

#[test]
fn failed_elements_are_passed_over() {
    let elements = vec![Ok(1), failure(), Ok(2), failure(), Ok(3), Ok(4)];
    assert_eq!(select(SignedUsize::Positive(3), elements), vec![1, 2, 3]);
    let elements = vec![failure(), Ok(1), Ok(2), failure(), Ok(3), failure()];
    assert_eq!(select(SignedUsize::Negative(1), elements), vec![1, 2]);
}

#[test]
fn failed_elements_do_not_count() {
    let elements = vec![failure(), failure(), Ok(7), Ok(8)];
    assert_eq!(select(SignedUsize::Positive(1), elements), vec![7]);
    let only_failures = vec![failure(), failure()];
    assert_eq!(select(SignedUsize::Positive(1), only_failures), Vec::<u8>::new());
}

#[test]
fn elements_keep_their_order_and_value() {
    let lines = vec![
        Ok::<String, String>("b\n".to_string()),
        Ok("a\r\n".to_string()),
        Ok("c".to_string()),
    ];
    let kept = select(SignedUsize::Positive(2), lines);
    assert_eq!(kept, vec!["b\n".to_string(), "a\r\n".to_string()]);
}

#[test]
fn selecting_again_changes_nothing() {
    let once = select(SignedUsize::Positive(3), all_ok(&[5, 6, 7, 8, 9]));
    let twice = select(SignedUsize::Positive(3), all_ok(&once));
    assert_eq!(once, twice);
    let wider = select(SignedUsize::Positive(8), all_ok(&once));
    assert_eq!(once, wider);
}

#[test]
fn selector_says_when_it_has_enough() {
    let mut selector: Selector<u8> = Selector::new(SignedUsize::Positive(2));
    assert!(selector.wants_more());
    assert!(selector.offer(Ok::<u8, String>(1)));
    assert!(selector.offer(failure()));
    assert!(!selector.offer(Ok::<u8, String>(2)));
    assert!(!selector.wants_more());
    assert!(!selector.offer(Ok::<u8, String>(3)));
    assert_eq!(selector.finish(), vec![1, 2]);
}

#[test]
fn selector_under_a_negative_count_always_wants_more() {
    let mut selector: Selector<u8> = Selector::new(SignedUsize::Negative(2));
    assert!(selector.offer(Ok::<u8, String>(1)));
    assert!(selector.offer(Ok::<u8, String>(2)));
    assert!(selector.offer(failure()));
    assert!(selector.offer(Ok::<u8, String>(3)));
    assert!(selector.wants_more());
    assert_eq!(selector.finish(), vec![1]);
}

#[test]
fn selector_agrees_with_select() {
    let elements = vec![Ok(1), failure(), Ok(2), Ok(3), failure(), Ok(4), Ok(5)];
    for count in [
        SignedUsize::Positive(1),
        SignedUsize::Positive(4),
        SignedUsize::Positive(9),
        SignedUsize::Negative(1),
        SignedUsize::Negative(5),
        SignedUsize::Negative(9),
    ] {
        let mut selector: Selector<u8> = Selector::new(count);
        for element in elements.clone() {
            selector.offer(element);
        }
        assert_eq!(selector.finish(), select(count, elements.clone()));
    }
}

#[test]
fn stopping_early_selects_the_same() {
    let elements = vec![Ok(1), failure(), Ok(2), Ok(3), failure(), Ok(4), Ok(5)];
    for count in [SignedUsize::Positive(2), SignedUsize::Positive(7), SignedUsize::Negative(2)] {
        let mut selector: Selector<u8> = Selector::new(count);
        for element in elements.clone() {
            if !selector.offer(element) {
                break;
            }
        }
        let drained: Vec<Result<u8, String>> = selector.into_elements();
        assert_eq!(select(count, drained), select(count, elements.clone()));
    }
}

#[test]
fn drained_elements_are_those_held() {
    let mut selector: Selector<u8> = Selector::new(SignedUsize::Positive(2));
    selector.offer(failure());
    selector.offer(Ok::<u8, String>(4));
    selector.offer(Ok::<u8, String>(5));
    selector.offer(Ok::<u8, String>(6));
    let drained: Vec<Result<u8, String>> = selector.into_elements();
    assert_eq!(drained, vec![Ok(4), Ok(5)]);
}
