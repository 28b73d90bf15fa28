use sonilivetext::blocks::{commit_text, BlockPolicy};
use sonilivetext::subtitle::AudioSubtitle;
use sonilivetext::text::{chars_of, first_break, last_ws, starts_with, string_of};

fn policy(max_lines: usize) -> BlockPolicy {
    BlockPolicy { max_lines, block_ceiling: 200, split_on_speaker_change: false }
}

fn texts(blocks: &Vec<AudioSubtitle>) -> Vec<String> {
    blocks.iter().map(|b| b.text()).collect()
}

fn commit(blocks: &mut Vec<AudioSubtitle>, p: &BlockPolicy, text: &str) -> usize {
    commit_text(blocks, p, &None, chars_of(text), 0)
}

#[test]
fn merge_inserts_single_space() {
    let p = policy(10);
    let mut b = Vec::new();
    assert_eq!(commit(&mut b, &p, "hello"), 1);
    assert_eq!(commit(&mut b, &p, "world"), 0);
    assert_eq!(texts(&b), vec!["hello world".to_string()]);
    assert_eq!(commit(&mut b, &p, " again"), 0);
    assert_eq!(texts(&b), vec!["hello world again".to_string()]);
}

#[test]
fn short_fragment_is_glued() {
    let p = policy(10);
    let mut b = Vec::new();
    commit(&mut b, &p, "The vis");
    commit(&mut b, &p, "on");
    commit(&mut b, &p, ".");
    assert_eq!(texts(&b), vec!["The vison.".to_string()]);
}

#[test]
fn finished_sentence_starts_new_block() {
    let p = policy(10);
    let mut b = Vec::new();
    commit(&mut b, &p, "Done.");
    assert_eq!(commit(&mut b, &p, "next"), 1);
    assert_eq!(texts(&b), vec!["Done.".to_string(), "next".to_string()]);
    assert_eq!(commit(&mut b, &p, "Yes! "), 1);
    assert_eq!(commit(&mut b, &p, "more"), 0);
    assert_eq!(texts(&b), vec!["Done.".to_string(), "next Yes!".to_string(), " more".to_string()]);
}

#[test]
fn ceiling_closes_block_between_words() {
    let p = BlockPolicy { max_lines: 10, block_ceiling: 5, split_on_speaker_change: false };
    let mut b = Vec::new();
    commit(&mut b, &p, "abcdefg");
    assert_eq!(commit(&mut b, &p, "hij"), 0);
    assert_eq!(texts(&b), vec!["abcdefg hij".to_string()]);
    assert_eq!(commit(&mut b, &p, " klm"), 1);
    assert_eq!(texts(&b), vec!["abcdefg hij".to_string(), " klm".to_string()]);
}

#[test]
fn oldest_block_is_evicted() {
    let p = policy(3);
    let mut b = Vec::new();
    assert_eq!(commit(&mut b, &p, "A. B. C. D."), 4);
    assert_eq!(texts(&b), vec![" C.".to_string(), " D.".to_string()]);
}

#[test]
fn single_line_budget_keeps_no_block() {
    let p = policy(1);
    let mut b = Vec::new();
    assert_eq!(commit(&mut b, &p, "Hi."), 1);
    assert!(b.is_empty());
}

#[test]
fn empty_text_commits_nothing() {
    let p = policy(3);
    let mut b = Vec::new();
    assert_eq!(commit(&mut b, &p, ""), 0);
    assert!(b.is_empty());
}

#[test]
fn text_helpers() {
    let s = chars_of("Hi! there.");
    assert_eq!(first_break(&s, 10), Some(2));
    assert_eq!(first_break(&s, 2), None);
    assert_eq!(last_ws(&s), Some(3));
    assert!(starts_with(&s, &chars_of("Hi!")));
    assert!(!starts_with(&s, &chars_of("Ho")));
    assert_eq!(string_of(&chars_of("naïve 日本")), "naïve 日本");
    assert_eq!(chars_of("naïve").len(), 5);
}
