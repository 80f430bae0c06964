use flashcard::db::{clean, load, save, Stage};
use flashcard::error::{Error, ErrorKind};
use std::collections::HashMap;

#[test]
fn load_reads_one_record_per_line() {
    let db = load("1;2;3\n18446744073709551615;5;0\n").unwrap();
    assert_eq!(2, db.len());
    assert_eq!(Some(&Stage { index: 2, timestamp_ms: 3 }), db.get(&1));
    assert_eq!(Some(&Stage { index: 5, timestamp_ms: 0 }), db.get(&u64::MAX));
}

#[test]
fn load_of_nothing_is_empty() {
    assert_eq!(Ok(HashMap::new()), load(""));
}

#[test]
fn load_takes_line_endings_as_they_come() {
    let db = load("1;2;3\r\n4;5;6").unwrap();
    assert_eq!(2, db.len());
    assert_eq!(Some(&Stage { index: 2, timestamp_ms: 3 }), db.get(&1));
    assert_eq!(Some(&Stage { index: 5, timestamp_ms: 6 }), db.get(&4));
}

#[test]
fn load_reads_numbers_as_rust_does() {
    let db = load("+7;007;+0\n1;9;1;\n2;8;2;anything;else\n").unwrap();
    assert_eq!(3, db.len());
    assert_eq!(Some(&Stage { index: 7, timestamp_ms: 0 }), db.get(&7));
    assert_eq!(Some(&Stage { index: 9, timestamp_ms: 1 }), db.get(&1));
    assert_eq!(Some(&Stage { index: 8, timestamp_ms: 2 }), db.get(&2));
}

#[test]
fn load_lets_the_last_record_of_a_flashcard_count() {
    let db = load("1;2;3\n1;4;5\n").unwrap();
    assert_eq!(1, db.len());
    assert_eq!(Some(&Stage { index: 4, timestamp_ms: 5 }), db.get(&1));
}

#[test]
fn load_fails_on_a_malformed_line() {
    for text in [
        "1;2",
        "1;2;",
        ";2;3",
        "1;;3",
        "a;2;3",
        "1;2;3x",
        "1; 2;3",
        " 1;2;3",
        "1;2;3 ",
        "-1;2;3",
        "1;-2;3",
        "++1;2;3",
        "+;2;3",
        "1;2;3\r",
        "1,2,3",
        "1;2;3\n\n4;5;6",
        "\n",
        "1;2;3\n4;5",
        "18446744073709551616;1;1",
        "1;99999999999999999999;1",
        "1;2;3\n4;5;6\nseven",
        "1_0;2;3",
        "١;2;3",
    ] {
        assert_eq!(Err(Error::MalformedRecord), load(text), "{:?}", text);
    }
    assert_eq!(ErrorKind::DataIntegrity, Error::MalformedRecord.kind());
}

#[test]
fn save_writes_one_line_per_record() {
    assert_eq!("", save(&HashMap::new()));
    let mut db = HashMap::new();
    db.insert(9228782626062525010, Stage { index: 3, timestamp_ms: 1560000000000 });
    assert_eq!("9228782626062525010;3;1560000000000\n", save(&db));
    db.insert(0, Stage { index: 0, timestamp_ms: 0 });
    let text = save(&db);
    assert!(
        text == "9228782626062525010;3;1560000000000\n0;0;0\n"
            || text == "0;0;0\n9228782626062525010;3;1560000000000\n"
    );
}

#[test]
fn save_and_load_give_the_same_progress() {
    let mut db = HashMap::new();
    let numbers = [0, 1, 9, 10, 11, 99, 100, 101, 12345, u64::MAX - 1, u64::MAX, 1 << 63];
    for (i, hash) in numbers.iter().enumerate() {
        db.insert(
            *hash,
            Stage { index: numbers[(i + 1) % numbers.len()], timestamp_ms: u64::MAX - *hash },
        );
    }
    let text = save(&db);
    assert_eq!(numbers.len(), text.lines().count());
    assert_eq!(Ok(db), load(&text));
}

#[test]
fn clean_drops_what_is_older() {
    let mut db = HashMap::new();
    db.insert(1, Stage { index: 1, timestamp_ms: 99 });
    db.insert(2, Stage { index: 2, timestamp_ms: 100 });
    db.insert(3, Stage { index: 3, timestamp_ms: 101 });
    let cleaned = clean(&db, 100);
    assert_eq!(2, cleaned.len());
    assert_eq!(None, cleaned.get(&1));
    assert_eq!(Some(&Stage { index: 2, timestamp_ms: 100 }), cleaned.get(&2));
    assert_eq!(Some(&Stage { index: 3, timestamp_ms: 101 }), cleaned.get(&3));
    assert_eq!(db, clean(&db, 0));
    assert_eq!(HashMap::new(), clean(&db, u64::MAX));
    assert_eq!(3, db.len());
}
