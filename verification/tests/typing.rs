use typetest::select::SelectError;
use typetest::session::{Key, Session, StepResult};
use typetest::{normalize, select_passage, select_passage_at, word_count, words_per_minute};

#[test]
fn normalize_collapses_whitespace_runs() {
    assert_eq!(normalize("The  quick\t\tbrown\n\nfox"), "The quick brown fox");
    assert_eq!(normalize("  leading and trailing  "), "leading and trailing ");
    assert_eq!(normalize(""), "");
    assert_eq!(normalize(" \t \n "), "");
}

#[test]
fn normalize_straightens_quotes() {
    assert_eq!(normalize("\u{201C}Hello\u{201D}"), "\"Hello\"");
    assert_eq!(normalize("it\u{2019}s `quoted\u{2018}"), "it's 'quoted'");
    assert_eq!(normalize("plain \"text\" stays"), "plain \"text\" stays");
}

#[test]
fn normalize_is_idempotent_on_examples() {
    let samples = [
        "The  quick\t\tbrown\n\nfox",
        "  \u{201C}double\u{201D}  and \u{2019}single\u{2019} ",
        "already normalized text",
        "",
    ];
    for s in samples {
        let once = normalize(s);
        let twice = normalize(&once);
        assert_eq!(twice, once);
    }
}

#[test]
fn word_count_examples() {
    assert_eq!(word_count(""), 0);
    assert_eq!(word_count("   "), 0);
    assert_eq!(word_count("one"), 1);
    assert_eq!(word_count("  hello   world "), 2);
    assert_eq!(word_count("The quick brown fox jumps"), 5);
}

#[test]
fn select_passage_at_picks_the_window() {
    let source = "The quick brown fox jumps";
    assert_eq!(select_passage_at(source, 3, 1), "quick brown fox");
    assert_eq!(select_passage_at(source, 1, 0), "The");
    assert_eq!(select_passage_at(source, 5, 0), "The quick brown fox jumps");
    assert_eq!(select_passage_at(source, 0, 2), "");
}

#[test]
fn select_passage_at_normalizes_first() {
    let source = "The  quick\n brown\tfox  jumps";
    assert_eq!(select_passage_at(source, 3, 1), "quick brown fox");
}

#[test]
fn select_passage_returns_requested_word_count() {
    let source = "The quick brown fox jumps";
    for k in 0..=5usize {
        let passage = select_passage(source, k).unwrap();
        assert_eq!(word_count(&passage), k);
    }
}

#[test]
fn select_passage_with_no_slack_returns_whole_text() {
    assert_eq!(select_passage("one two", 2).unwrap(), "one two");
}

#[test]
fn selected_passage_has_no_edge_whitespace() {
    let p = select_passage("  The   quick\nbrown  fox ", 2).unwrap();
    assert!(!p.starts_with(' '));
    assert!(!p.ends_with(' '));
}

#[test]
fn select_passage_rejects_excessive_word_count() {
    let source = "The quick brown fox jumps";
    assert_eq!(select_passage(source, 6), Err(SelectError::NotEnoughWords));
    assert_eq!(select_passage("", 1), Err(SelectError::NotEnoughWords));
}

#[test]
fn typing_the_whole_passage_completes_the_session() {
    let target = "quick brown fox";
    let mut session = Session::new(target.chars().collect());
    assert!(!session.is_complete());
    assert!(!session.started());
    for (i, c) in target.chars().enumerate() {
        assert_eq!(session.progress(), i);
        let r = session.step(Key::Char(c));
        assert!(matches!(r, StepResult::Advanced));
        assert!(session.started());
    }
    assert!(session.is_complete());
    assert_eq!(session.progress(), target.len());
    assert_eq!(session.typed_words(), 3);
}

#[test]
fn mismatched_keystrokes_are_ignored() {
    let mut session = Session::new("ab".chars().collect());
    let r = session.step(Key::Char('b'));
    assert!(matches!(r, StepResult::Ignored));
    assert_eq!(session.progress(), 0);
    assert!(!session.started());
    let r = session.step(Key::Char('a'));
    assert!(matches!(r, StepResult::Advanced));
    let r = session.step(Key::Char('a'));
    assert!(matches!(r, StepResult::Ignored));
    assert_eq!(session.progress(), 1);
}

#[test]
fn typed_words_counts_a_word_in_progress() {
    let mut session = Session::new("quick brown fox".chars().collect());
    for c in "quick b".chars() {
        let r = session.step(Key::Char(c));
        assert!(matches!(r, StepResult::Advanced));
    }
    assert_eq!(session.typed_words(), 2);
}

#[test]
fn other_events_do_not_advance_the_session() {
    let mut session = Session::new("ab".chars().collect());
    let r = session.step(Key::Other);
    assert!(matches!(r, StepResult::Ignored));
    assert_eq!(session.progress(), 0);
    assert!(!session.started());
}

#[test]
fn cancellation_before_any_correct_keystroke_leaves_timer_unset() {
    let mut session = Session::new("abc".chars().collect());
    let r = session.step(Key::Char('x'));
    assert!(matches!(r, StepResult::Ignored));
    let r = session.step(Key::Cancel);
    assert!(matches!(r, StepResult::Cancelled));
    assert!(!session.started());
    assert_eq!(session.progress(), 0);
    assert_eq!(session.typed_words(), 0);
}

#[test]
fn cancellation_mid_passage_keeps_progress() {
    let mut session = Session::new("hi there".chars().collect());
    for c in "hi".chars() {
        session.step(Key::Char(c));
    }
    let r = session.step(Key::Cancel);
    assert!(matches!(r, StepResult::Cancelled));
    assert!(session.started());
    assert_eq!(session.progress(), 2);
    assert_eq!(session.typed_words(), 1);
}

#[test]
fn progress_never_decreases() {
    let mut session = Session::new("abc".chars().collect());
    let keys = [
        Key::Char('x'),
        Key::Char('a'),
        Key::Other,
        Key::Char('b'),
        Key::Char('b'),
        Key::Cancel,
        Key::Char('c'),
    ];
    let mut last = 0;
    for k in keys {
        session.step(k);
        assert!(session.progress() >= last);
        last = session.progress();
    }
}

#[test]
fn wpm_of_three_words_in_six_seconds_is_thirty() {
    assert_eq!(words_per_minute(3, 6000), 30);
}

#[test]
fn wpm_rounds_to_the_nearest_integer() {
    assert_eq!(words_per_minute(1, 45000), 1);
    assert_eq!(words_per_minute(2, 45000), 3);
    assert_eq!(words_per_minute(1, 60000), 1);
    assert_eq!(words_per_minute(10, 30000), 20);
}

#[test]
fn wpm_is_positive_for_prompt_typing() {
    assert!(words_per_minute(1, 120000) >= 1);
    assert!(words_per_minute(1, 1) >= 1);
}
