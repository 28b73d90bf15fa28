use sonilivetext::subtitle::AudioSubtitle;

#[test]
fn new_block_reveals_nothing() {
    let b = AudioSubtitle::new(Some("A".to_string()), "abc".to_string(), 7);
    assert_eq!(b.text(), "abc");
    assert_eq!(b.displayed_text(), "");
    assert_eq!(b.speaker(), Some("A".to_string()));
    assert_eq!(b.last_update_ms, 7);
    assert!(b.is_pending());
}

#[test]
fn complete_block_reveals_everything() {
    let b = AudioSubtitle::new_complete(None, "héllo".to_string(), 0);
    assert_eq!(b.displayed_text(), "héllo");
    assert_eq!(b.revealed, 5);
    assert!(!b.is_pending());
}

#[test]
fn reveal_follows_timer() {
    let mut b = AudioSubtitle::new(None, "ab".to_string(), 100);
    assert!(!b.update_animation(false, 110));
    assert_eq!(b.displayed_text(), "");
    assert!(b.update_animation(false, 120));
    assert_eq!(b.displayed_text(), "a");
    assert_eq!(b.last_update_ms, 120);
    assert!(b.update_animation(true, 121));
    assert_eq!(b.displayed_text(), "ab");
    assert!(!b.update_animation(true, 200));
    assert_eq!(b.revealed, 2);
}

#[test]
fn overlong_reveal_snaps_down() {
    let mut b = AudioSubtitle::new(None, "ab".to_string(), 0);
    b.revealed = 5;
    assert!(b.update_animation(false, 0));
    assert_eq!(b.revealed, 2);
    assert!(!b.update_animation(true, 0));
}

#[test]
fn reveal_never_passes_text() {
    let mut b = AudioSubtitle::new(None, "xyz".to_string(), 0);
    let mut last = 0;
    for i in 0..10 {
        b.update_animation(true, i);
        assert!(b.revealed >= last);
        assert!(b.revealed <= 3);
        last = b.revealed;
    }
    assert_eq!(b.displayed_text(), "xyz");
}

#[test]
fn default_block_is_waiting_text() {
    let b = AudioSubtitle::default();
    assert_eq!(b.text(), "... waiting for the sound ...");
    assert_eq!(b.speaker(), None);
    assert!(!b.is_pending());
}
