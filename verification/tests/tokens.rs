use gocortex::agents::globals::TOKEN_MODEL;
use gocortex::agents::helpers::{count_tokens, total_token_count};

#[test]
fn token_counts_add_up() {
    assert_eq!(total_token_count(&[]), Some(0));
    assert_eq!(total_token_count(&[Some(1), Some(2), Some(39)]), Some(42));
    assert_eq!(total_token_count(&[Some(0)]), Some(0));
}

#[test]
fn missing_count_gives_no_total() {
    assert_eq!(total_token_count(&[None]), None);
    assert_eq!(total_token_count(&[Some(1), None, Some(2)]), None);
    assert_eq!(total_token_count(&[Some(usize::MAX), None]), None);
}

#[test]
fn total_beyond_the_machine_gives_no_total() {
    assert_eq!(total_token_count(&[Some(usize::MAX), Some(0)]), Some(usize::MAX));
    assert_eq!(total_token_count(&[Some(usize::MAX), Some(1)]), None);
    assert_eq!(total_token_count(&[Some(usize::MAX - 1), Some(1), Some(1)]), None);
}

#[test]
fn tokens_of_messages_are_counted() {
    assert_eq!(TOKEN_MODEL, "gpt-4.1-nano");
    assert_eq!(count_tokens(&[]), Some(0));
    assert_eq!(count_tokens(&[None]), Some(0));
    assert_eq!(count_tokens(&[Some(String::new())]), Some(0));
    assert_eq!(count_tokens(&[Some("hello world".to_string())]), Some(2));
    assert_eq!(
        count_tokens(&[Some("hello world".to_string()), None, Some("hello world".to_string())]),
        Some(4)
    );
    assert_eq!(count_tokens(&[Some("<|endoftext|>".to_string())]), Some(1));
}
