use flashcard::cardbox::{Cardbox, Config, Progress};
use flashcard::common::time::get_unix_time_millis;
use flashcard::db::{load, Stage};
use flashcard::error::Error;
use flashcard::flashcards::{Flashcard, FlashcardBack};
use std::collections::HashMap;
use std::rc::Rc;

fn card(n: usize) -> Flashcard {
    Flashcard {
        subject: Rc::new(String::from("sample_box.txt")),
        face: format!("face {}", n),
        back: FlashcardBack::WriteTheLine(vec![format!("back {}", n)]),
        note: None,
    }
}

fn cards(count: usize) -> Vec<Flashcard> {
    (0..count).map(card).collect()
}

fn config(initial_queue_size: usize) -> Config {
    Config { initial_queue_size, cooldowns: [0, 120_000, 240_000, 480_000, 960_000] }
}

#[test]
fn new_cardbox() {
    let cardbox = Cardbox::new(HashMap::new());
    assert_eq!(0, cardbox.progress().0);
    assert_eq!(0, cardbox.progress().1);
}

#[test]
fn init_cardbox() {
    // 32 flashcards, 20 of which were studied before
    let flashcards = cards(32);
    let stages = [1, 1, 1, 1, 1, 1, 1, 1, 1, 1, 2, 2, 3, 3, 3, 3, 4, 4, 4, 5];
    let mut progress = HashMap::new();
    for (i, index) in stages.iter().enumerate() {
        progress
            .insert(flashcards[i].get_hash(), Stage { index: *index, timestamp_ms: 1000 + i as u64 });
    }
    let mut cardbox = Cardbox::new(progress);

    cardbox.init_at(flashcards, 5000).unwrap();
    assert_eq!(32, cardbox.size());
    assert_eq!(20, cardbox.num_active());
    assert_eq!(12, cardbox.progress().0);
    assert_eq!(10, cardbox.progress().1);
    assert_eq!(2, cardbox.progress().2);
    assert_eq!(4, cardbox.progress().3);
    assert_eq!(3, cardbox.progress().4);
    assert_eq!(1, cardbox.progress().5);
}

#[test]
fn new_cardbox_takes_the_settings_of_the_application() {
    let mut cardbox = Cardbox::new(HashMap::new());
    cardbox.init_at(cards(5), 1_000).unwrap();
    assert_eq!(Progress(2, 3, 0, 0, 0, 0), cardbox.progress());
    cardbox.increase_stage_at(1, 1_000).unwrap();
    // one hour in the second stage
    assert_eq!(Some(2), cardbox.next_at(1_000 + 3_600_000).map(|dealt| dealt.1));
    assert_eq!(Some(1), cardbox.next_at(1_000 + 3_599_999).map(|dealt| dealt.1));
    let standard = Config::default();
    assert_eq!(3, standard.initial_queue_size);
    assert_eq!([0, 3_600_000, 21_600_000, 86_400_000, 604_800_000], standard.cooldowns);
}

#[test]
fn init_without_progress_fills_the_first_stage() {
    let mut cardbox = Cardbox::with_config(HashMap::new(), config(3));
    cardbox.init_at(cards(20), 77).unwrap();
    assert_eq!(Progress(17, 3, 0, 0, 0, 0), cardbox.progress());
    assert_eq!(20, cardbox.size());
    assert_eq!(3, cardbox.num_active());

    // flashcards are dealt in the order of their source
    assert_eq!("face 0", cardbox.next_at(77).unwrap().0.face);

    // three successes drain the first stage, which is filled up again each time
    cardbox.increase_stage_at(1, 100).unwrap();
    assert_eq!(Progress(16, 3, 1, 0, 0, 0), cardbox.progress());
    cardbox.increase_stage_at(1, 100).unwrap();
    cardbox.increase_stage_at(1, 100).unwrap();
    assert_eq!(Progress(14, 3, 3, 0, 0, 0), cardbox.progress());
    assert_eq!(20, cardbox.size());
    assert_eq!("face 3", cardbox.next_at(100).unwrap().0.face);
}

#[test]
fn init_with_few_flashcards_leaves_none_unseen() {
    let mut cardbox = Cardbox::with_config(HashMap::new(), config(3));
    cardbox.init_at(cards(2), 77).unwrap();
    assert_eq!(Progress(0, 2, 0, 0, 0, 0), cardbox.progress());
    let mut empty = Cardbox::with_config(HashMap::new(), config(3));
    empty.init_at(vec![], 77).unwrap();
    assert_eq!(Progress(0, 0, 0, 0, 0, 0), empty.progress());
    assert!(empty.next_at(u64::MAX).is_none());
    let mut closed = Cardbox::with_config(HashMap::new(), config(0));
    closed.init_at(cards(2), 77).unwrap();
    assert_eq!(Progress(2, 0, 0, 0, 0, 0), closed.progress());
    assert!(closed.next_at(u64::MAX).is_none());
}

#[test]
fn init_restores_stage_and_time() {
    let flashcards = cards(4);
    let mut progress = HashMap::new();
    progress.insert(flashcards[1].get_hash(), Stage { index: 4, timestamp_ms: 1234 });
    progress.insert(flashcards[3].get_hash(), Stage { index: 2, timestamp_ms: 99 });
    progress.insert(42, Stage { index: 9, timestamp_ms: 5 });
    let hashes: Vec<u64> = flashcards.iter().map(|flashcard| flashcard.get_hash()).collect();
    let mut cardbox = Cardbox::with_config(progress, config(1));
    cardbox.init_at(flashcards, 5000).unwrap();
    assert_eq!(Progress(1, 1, 1, 0, 1, 0), cardbox.progress());
    let saved = cardbox.snapshot();
    assert_eq!(3, saved.len());
    assert_eq!(Some(&Stage { index: 1, timestamp_ms: 5000 }), saved.get(&hashes[0]));
    assert_eq!(Some(&Stage { index: 4, timestamp_ms: 1234 }), saved.get(&hashes[1]));
    assert_eq!(None, saved.get(&hashes[2]));
    assert_eq!(Some(&Stage { index: 2, timestamp_ms: 99 }), saved.get(&hashes[3]));
}

#[test]
fn init_refuses_a_stage_that_is_none() {
    for index in [0, 6, u64::MAX] {
        let flashcards = cards(3);
        let mut progress = HashMap::new();
        progress.insert(flashcards[0].get_hash(), Stage { index: 2, timestamp_ms: 1 });
        progress.insert(flashcards[2].get_hash(), Stage { index, timestamp_ms: 1 });
        let mut cardbox = Cardbox::with_config(progress, config(3));
        assert_eq!(Err(Error::CorruptStage), cardbox.init_at(flashcards, 10));
        assert_eq!(Progress(0, 0, 0, 0, 0, 0), cardbox.progress());
    }
}

#[test]
fn mastered_flashcard_is_dealt_when_its_cooldown_has_passed() {
    let t = 1_000_000;
    let flashcards = cards(1);
    let mut progress = HashMap::new();
    progress.insert(flashcards[0].get_hash(), Stage { index: 5, timestamp_ms: t });
    let mut cardbox = Cardbox::with_config(progress, config(3));
    cardbox.init_at(flashcards, t).unwrap();
    assert_eq!(Progress(0, 0, 0, 0, 0, 1), cardbox.progress());
    assert!(cardbox.next_at(t + 960_000 - 1).is_none());
    let (flashcard, stage) = cardbox.next_at(t + 960_000).unwrap();
    assert_eq!(5, stage);
    assert_eq!("face 0", flashcard.face);
    assert!(cardbox.next_at(0).is_none());
    assert!(cardbox.next_at(u64::MAX).is_some());
}

#[test]
fn a_deadline_beyond_all_time_is_never_due() {
    let flashcards = cards(1);
    let mut progress = HashMap::new();
    progress.insert(flashcards[0].get_hash(), Stage { index: 3, timestamp_ms: u64::MAX - 5 });
    let mut cardbox = Cardbox::with_config(progress, config(3));
    cardbox.init_at(flashcards, 0).unwrap();
    assert!(cardbox.next_at(u64::MAX).is_none());
}

#[test]
fn next_prefers_the_highest_stage_that_is_due() {
    let flashcards = cards(6);
    let mut progress = HashMap::new();
    progress.insert(flashcards[1].get_hash(), Stage { index: 2, timestamp_ms: 0 });
    progress.insert(flashcards[2].get_hash(), Stage { index: 3, timestamp_ms: 0 });
    progress.insert(flashcards[3].get_hash(), Stage { index: 3, timestamp_ms: 0 });
    progress.insert(flashcards[4].get_hash(), Stage { index: 4, timestamp_ms: 400_000 });
    let mut cardbox = Cardbox::with_config(progress, config(3));
    cardbox.init_at(flashcards, 0).unwrap();
    assert_eq!(Progress(0, 2, 1, 2, 1, 0), cardbox.progress());
    // only the first stage has no cooldown
    let (flashcard, stage) = cardbox.next_at(0).unwrap();
    assert_eq!((1, "face 0"), (stage, flashcard.face.as_str()));
    assert_eq!(2, cardbox.next_at(120_000).unwrap().1);
    assert_eq!(2, cardbox.next_at(239_999).unwrap().1);
    let (flashcard, stage) = cardbox.next_at(240_000).unwrap();
    assert_eq!((3, "face 2"), (stage, flashcard.face.as_str()));
    assert_eq!(3, cardbox.next_at(879_999).unwrap().1);
    assert_eq!(4, cardbox.next_at(880_000).unwrap().1);
    // dealing does not take the flashcard away
    assert_eq!(Progress(0, 2, 1, 2, 1, 0), cardbox.progress());
}

#[test]
fn next_looks_at_the_front_of_a_stage_only() {
    let flashcards = cards(2);
    let mut progress = HashMap::new();
    progress.insert(flashcards[0].get_hash(), Stage { index: 2, timestamp_ms: 500_000 });
    progress.insert(flashcards[1].get_hash(), Stage { index: 2, timestamp_ms: 0 });
    let mut cardbox = Cardbox::with_config(progress, config(3));
    cardbox.init_at(flashcards, 0).unwrap();
    // the second flashcard is due, but waits behind the first one
    assert!(cardbox.next_at(200_000).is_none());
    assert_eq!("face 0", cardbox.next_at(620_000).unwrap().0.face);
}

#[test]
fn advanced_flashcard_rests_for_the_cooldown_of_its_new_stage() {
    let mut cardbox = Cardbox::with_config(HashMap::new(), config(1));
    cardbox.init_at(cards(1), 1_000).unwrap();
    assert_eq!(1, cardbox.next_at(1_000).unwrap().1);
    cardbox.increase_stage_at(1, 1_000).unwrap();
    assert_eq!(Progress(0, 0, 1, 0, 0, 0), cardbox.progress());
    assert!(cardbox.next_at(1_000).is_none());
    assert!(cardbox.next_at(120_999).is_none());
    assert_eq!(2, cardbox.next_at(121_000).unwrap().1);
}

#[test]
fn increase_stage_moves_on_by_one_stage() {
    let mut cardbox = Cardbox::with_config(HashMap::new(), config(1));
    cardbox.init_at(cards(1), 0).unwrap();
    let hash = card(0).get_hash();
    for stage in 1..5 {
        cardbox.increase_stage_at(stage, 10 * stage as u64).unwrap();
        let saved = cardbox.snapshot();
        assert_eq!(1, saved.len());
        assert_eq!(
            Some(&Stage { index: stage as u64 + 1, timestamp_ms: 10 * stage as u64 }),
            saved.get(&hash)
        );
    }
    assert_eq!(Progress(0, 0, 0, 0, 0, 1), cardbox.progress());
}

#[test]
fn the_last_stage_keeps_its_flashcards() {
    let flashcards = cards(2);
    let mut progress = HashMap::new();
    progress.insert(flashcards[0].get_hash(), Stage { index: 5, timestamp_ms: 10 });
    progress.insert(flashcards[1].get_hash(), Stage { index: 5, timestamp_ms: 20 });
    let mut cardbox = Cardbox::with_config(progress, config(3));
    cardbox.init_at(flashcards, 0).unwrap();
    cardbox.increase_stage_at(5, 2_000_000).unwrap();
    assert_eq!(Progress(0, 0, 0, 0, 0, 2), cardbox.progress());
    assert_eq!(2, cardbox.size());
    // the other flashcard stands at the front now, the answered one behind it
    assert_eq!("face 1", cardbox.next_at(2_000_000).unwrap().0.face);
    let saved = cardbox.snapshot();
    assert_eq!(Some(&Stage { index: 5, timestamp_ms: 2_000_000 }), saved.get(&card(0).get_hash()));
    assert_eq!(Some(&Stage { index: 5, timestamp_ms: 20 }), saved.get(&card(1).get_hash()));
}

#[test]
fn reset_stage_leads_back_to_the_first_stage() {
    for stage in 1..=5 {
        let flashcards = cards(3);
        let mut progress = HashMap::new();
        progress.insert(flashcards[0].get_hash(), Stage { index: 1, timestamp_ms: 1 });
        progress.insert(flashcards[1].get_hash(), Stage { index: stage, timestamp_ms: 2 });
        progress.insert(flashcards[2].get_hash(), Stage { index: stage, timestamp_ms: 3 });
        let mut cardbox = Cardbox::with_config(progress, config(0));
        cardbox.init_at(flashcards, 0).unwrap();
        cardbox.reset_stage_at(stage as usize, 777).unwrap();
        assert_eq!(3, cardbox.size());
        let saved = cardbox.snapshot();
        let moved = if stage == 1 { 0 } else { 1 };
        for n in 0..3 {
            let expected = if n == moved {
                Stage { index: 1, timestamp_ms: 777 }
            } else if n == 0 {
                Stage { index: 1, timestamp_ms: 1 }
            } else {
                Stage { index: stage, timestamp_ms: 1 + n as u64 }
            };
            assert_eq!(Some(&expected), saved.get(&card(n).get_hash()));
        }
    }
}

#[test]
fn reset_stage_does_not_fill_the_first_stage_up() {
    let mut cardbox = Cardbox::with_config(HashMap::new(), config(2));
    cardbox.init_at(cards(5), 0).unwrap();
    cardbox.increase_stage_at(1, 0).unwrap();
    assert_eq!(Progress(2, 2, 1, 0, 0, 0), cardbox.progress());
    cardbox.reset_stage_at(2, 5).unwrap();
    assert_eq!(Progress(2, 3, 0, 0, 0, 0), cardbox.progress());
    cardbox.reset_stage_at(1, 6).unwrap();
    assert_eq!(Progress(2, 3, 0, 0, 0, 0), cardbox.progress());
    // the flashcard that was reset first waits behind the two that were there
    assert_eq!("face 2", cardbox.next_at(6).unwrap().0.face);
}

#[test]
fn stages_that_are_none_or_empty_are_refused() {
    let mut cardbox = Cardbox::with_config(HashMap::new(), config(3));
    cardbox.init_at(cards(4), 0).unwrap();
    for stage in [0, 6, 7, usize::MAX] {
        assert_eq!(Err(Error::InvalidStage), cardbox.increase_stage_at(stage, 1));
        assert_eq!(Err(Error::InvalidStage), cardbox.reset_stage_at(stage, 1));
    }
    for stage in 2..=5 {
        assert_eq!(Err(Error::EmptyStage), cardbox.increase_stage_at(stage, 1));
        assert_eq!(Err(Error::EmptyStage), cardbox.reset_stage_at(stage, 1));
    }
    assert_eq!(Progress(1, 3, 0, 0, 0, 0), cardbox.progress());
    assert_eq!(Ok(()), cardbox.reset_stage_at(1, 1));
    assert_eq!(Ok(()), cardbox.increase_stage_at(1, 1));
    assert_eq!(Progress(0, 3, 1, 0, 0, 0), cardbox.progress());
}

#[test]
fn save_writes_the_stages_and_nothing_else() {
    let flashcards = cards(4);
    let mut progress = HashMap::new();
    progress.insert(flashcards[0].get_hash(), Stage { index: 3, timestamp_ms: 30 });
    // a record of a flashcard that is no longer there
    progress.insert(42, Stage { index: 5, timestamp_ms: 1 });
    let mut cardbox = Cardbox::with_config(progress, config(2));
    cardbox.init_at(flashcards, 1_000).unwrap();
    assert_eq!(Progress(1, 2, 0, 1, 0, 0), cardbox.progress());
    cardbox.increase_stage_at(3, 2_000).unwrap();

    let text = cardbox.save();
    assert_eq!(3, text.lines().count());
    let loaded = load(&text).unwrap();
    assert_eq!(cardbox.snapshot(), loaded);
    assert_eq!(3, loaded.len());
    assert_eq!(Some(&Stage { index: 4, timestamp_ms: 2_000 }), loaded.get(&card(0).get_hash()));
    assert_eq!(Some(&Stage { index: 1, timestamp_ms: 1_000 }), loaded.get(&card(1).get_hash()));
    assert_eq!(Some(&Stage { index: 1, timestamp_ms: 1_000 }), loaded.get(&card(2).get_hash()));
    assert_eq!(None, loaded.get(&card(3).get_hash()));
    assert_eq!(None, loaded.get(&42));

    // what was saved is what the next session starts with
    let mut next = Cardbox::with_config(loaded, config(2));
    next.init_at(cards(4), 3_000).unwrap();
    assert_eq!(Progress(1, 2, 0, 0, 1, 0), next.progress());
    assert_eq!(cardbox.snapshot(), next.snapshot());
}

#[test]
fn the_clock_drives_a_session() {
    let before = get_unix_time_millis().unwrap();
    // after the year 2020
    assert!(before > 1_577_836_800_000);
    let mut cardbox = Cardbox::with_config(HashMap::new(), config(1));
    cardbox.init(cards(2)).unwrap();
    assert_eq!(1, cardbox.next().unwrap().unwrap().1);
    cardbox.increase_stage(1).unwrap();
    cardbox.reset_stage(2).unwrap();
    assert_eq!(Err(Error::InvalidStage), cardbox.increase_stage(0));
    assert_eq!(Err(Error::EmptyStage), cardbox.reset_stage(5));
    let after = get_unix_time_millis().unwrap();
    assert!(before <= after);
    let saved = cardbox.snapshot();
    assert_eq!(2, saved.len());
    for stage in saved.values() {
        assert_eq!(1, stage.index);
        assert!(before <= stage.timestamp_ms && stage.timestamp_ms <= after);
    }
}

#[test]
fn the_stage_is_checked_before_anything_moves() {
    let mut cardbox = Cardbox::with_config(HashMap::new(), config(2));
    cardbox.init_at(cards(3), 1_000).unwrap();
    assert_eq!(Err(Error::InvalidStage), cardbox.check_stage(0));
    assert_eq!(Err(Error::InvalidStage), cardbox.check_stage(6));
    assert_eq!(Err(Error::EmptyStage), cardbox.check_stage(2));
    assert_eq!(Ok(()), cardbox.check_stage(1));
    assert_eq!(Err(Error::InvalidStage), cardbox.increase_stage(0));
    assert_eq!(Err(Error::InvalidStage), cardbox.reset_stage(6));
    assert_eq!(Err(Error::EmptyStage), cardbox.increase_stage(5));
    assert_eq!(Err(Error::EmptyStage), cardbox.reset_stage(3));
    assert_eq!(Progress(1, 2, 0, 0, 0, 0), cardbox.progress());
}

#[test]
fn init_refuses_a_corrupt_record_and_puts_nothing_in() {
    let flashcards = cards(3);
    let mut progress = HashMap::new();
    progress.insert(flashcards[1].get_hash(), Stage { index: 6, timestamp_ms: 1 });
    let mut cardbox = Cardbox::new(progress);
    assert_eq!(Err(Error::CorruptStage), cardbox.init(flashcards));
    assert_eq!(Progress(0, 0, 0, 0, 0, 0), cardbox.progress());
}
