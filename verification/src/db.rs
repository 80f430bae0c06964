//! A simple key-value store for storing flashcard progress.
//!
//! The store is a text with one record per line. A record holds the hash of a
//! flashcard, the index of its stage and the time it entered that stage, as decimal
//! numbers with a `;` between them. The order of the lines does not count.

use crate::error::Error;
use crate::text::{
    chars_of, decimal_spec, digit_value_spec, lemma_decimal_reads_back,
    lemma_parse_u64_of_decimal, lemma_split_concat, lemma_split_ends_with_separator,
    lemma_split_no_separator, lines, lines_spec, parse_u64, parse_u64_spec,
    push_decimal, split, split_spec, string_of, strip_cr_spec, views, Separator,
};
use std::collections::HashMap;
use vstd::prelude::*;
use vstd::std_specs::hash::{axiom_spec_keys_iter, group_hash_axioms};
use vstd::std_specs::iter::IteratorSpec;

verus! {

broadcast use {group_hash_axioms, axiom_spec_keys_iter};

/// Represents a stage that a flashcard can be in.
#[derive(Clone, Copy, Debug, PartialEq, Eq, Structural)]
pub struct Stage {
    /// The index of the stage, 1 to 5.
    pub index: u64,
    /// The time the flashcard entered the stage (Unix time in milliseconds).
    pub timestamp_ms: u64,
}

/// The character that parts the fields of a record.
pub const FIELD_SEPARATOR: char = ';';

/// The line that records the flashcard with the hash `hash` in `stage`.
pub open spec fn record_line(hash: u64, stage: Stage) -> Seq<char> {
    decimal_spec(hash as nat).push(FIELD_SEPARATOR) + decimal_spec(stage.index as nat).push(
        FIELD_SEPARATOR,
    ) + decimal_spec(stage.timestamp_ms as nat)
}

/// The record that `line` holds: its first three fields are the hash, the index of the
/// stage and the time. Further fields do not count. A line with fewer fields, or with
/// one of the three that is no number of 64 bits, holds no record.
pub open spec fn record_spec(line: Seq<char>) -> Option<(u64, Stage)> {
    let fields = split_spec(line, Separator::Char(FIELD_SEPARATOR));
    if fields.len() < 3 {
        None
    } else {
        match (parse_u64_spec(fields[0]), parse_u64_spec(fields[1]), parse_u64_spec(fields[2])) {
            (Some(hash), Some(index), Some(timestamp_ms)) => Some(
                (hash, Stage { index, timestamp_ms }),
            ),
            _ => None,
        }
    }
}

/// The progress that `lines` hold, where each of them holds a record. A later record
/// for the same hash replaces an earlier one.
pub open spec fn records_spec(lines: Seq<Seq<char>>) -> Option<Map<u64, Stage>>
    decreases lines.len(),
{
    if lines.len() == 0 {
        Some(Map::empty())
    } else {
        match (records_spec(lines.drop_last()), record_spec(lines.last())) {
            (Some(records), Some((hash, stage))) => Some(records.insert(hash, stage)),
            _ => None,
        }
    }
}

/// The progress that the store `text` holds, or `None` where one of its lines holds no
/// record.
pub open spec fn load_spec(text: Seq<char>) -> Option<Map<u64, Stage>> {
    records_spec(lines_spec(text))
}

/// The store that holds the records of `db` for `keys`, one line for each key in the
/// order of `keys`.
pub open spec fn save_spec(keys: Seq<u64>, db: Map<u64, Stage>) -> Seq<char>
    decreases keys.len(),
{
    if keys.len() == 0 {
        Seq::empty()
    } else {
        save_spec(keys.drop_last(), db) + record_line(keys.last(), db[keys.last()]).push('\n')
    }
}

/// Whether `text` is a store of `db`: it holds one line for each record of `db`, in some
/// order.
pub open spec fn is_store_of(text: Seq<char>, db: Map<u64, Stage>) -> bool {
    exists|keys: Seq<u64>|
        keys.no_duplicates() && keys.to_set() == db.dom() && text == #[trigger] save_spec(keys, db)
}

/// The records of `db` with a time that is not before `older_than`.
pub open spec fn clean_spec(db: Map<u64, Stage>, older_than: u64) -> Map<u64, Stage> {
    Map::new(
        |hash: u64| db.contains_key(hash) && db[hash].timestamp_ms >= older_than,
        |hash: u64| db[hash],
    )
}

/// Lines that do not all hold a record hold no progress, whatever follows them.
pub proof fn lemma_records_fail(lines: Seq<Seq<char>>, n: int)
    requires
        0 <= n <= lines.len(),
        records_spec(lines.take(n)) is None,
    ensures
        records_spec(lines) is None,
    decreases lines.len() - n,
{
    if n == lines.len() {
        assert(lines.take(n) == lines);
    } else {
        assert(lines.take(n + 1).drop_last() == lines.take(n));
        lemma_records_fail(lines, n + 1);
    }
}

/// One of the first `n + 1` keys is one of the first `n` keys or the key after them.
pub proof fn lemma_contains_one_more(keys: Seq<u64>, n: int, key: u64)
    requires
        0 <= n < keys.len(),
    ensures
        keys.take(n + 1).contains(key) <==> (keys.take(n).contains(key) || key == keys[n]),
{
    let more = keys.take(n + 1);
    let fewer = keys.take(n);
    if more.contains(key) {
        let i = choose|i: int| 0 <= i < more.len() && #[trigger] more[i] == key;
        if i < n {
            assert(fewer[i] == key);
        }
    }
    if fewer.contains(key) {
        let i = choose|i: int| 0 <= i < fewer.len() && #[trigger] fewer[i] == key;
        assert(more[i] == key);
    }
    assert(more[n] == keys[n]);
}

/// The line of a record holds no line feed, does not end with a carriage return, and
/// reads back as the record it was written for.
pub proof fn lemma_record_line_reads_back(hash: u64, stage: Stage)
    ensures
        record_spec(record_line(hash, stage)) == Some((hash, stage)),
        strip_cr_spec(record_line(hash, stage)) == record_line(hash, stage),
        forall|i: int|
            0 <= i < record_line(hash, stage).len() ==> #[trigger] record_line(hash, stage)[i]
                != '\n',
{
    let sep = Separator::Char(FIELD_SEPARATOR);
    let first = decimal_spec(hash as nat);
    let second = decimal_spec(stage.index as nat);
    let third = decimal_spec(stage.timestamp_ms as nat);
    let none = Seq::<char>::empty();
    lemma_decimal_reads_back(hash as nat);
    lemma_decimal_reads_back(stage.index as nat);
    lemma_decimal_reads_back(stage.timestamp_ms as nat);
    lemma_parse_u64_of_decimal(hash);
    lemma_parse_u64_of_decimal(stage.index);
    lemma_parse_u64_of_decimal(stage.timestamp_ms);
    assert(digit_value_spec(FIELD_SEPARATOR) is None);
    assert(digit_value_spec('\n') is None);
    assert(digit_value_spec('\r') is None);
    assert forall|i: int| 0 <= i < first.len() implies !sep.separates(#[trigger] first[i]) by {
        assert(digit_value_spec(first[i]) is Some);
    }
    assert forall|i: int| 0 <= i < second.len() implies !sep.separates(#[trigger] second[i]) by {
        assert(digit_value_spec(second[i]) is Some);
    }
    assert forall|i: int| 0 <= i < third.len() implies !sep.separates(#[trigger] third[i]) by {
        assert(digit_value_spec(third[i]) is Some);
    }
    lemma_split_no_separator(first, sep);
    lemma_split_no_separator(second, sep);
    lemma_split_no_separator(third, sep);
    lemma_split_ends_with_separator(first, FIELD_SEPARATOR, sep);
    lemma_split_ends_with_separator(second, FIELD_SEPARATOR, sep);
    let head = first.push(FIELD_SEPARATOR);
    let middle = second.push(FIELD_SEPARATOR);
    assert(split_spec(head, sep) == seq![first, none]);
    assert(split_spec(middle, sep) == seq![second, none]);
    lemma_split_concat(head, middle, sep);
    assert(none + second == second);
    assert(split_spec(head + middle, sep) == seq![first, second, none]);
    lemma_split_concat(head + middle, third, sep);
    assert(none + third == third);
    assert(split_spec(head + middle + third, sep) == seq![first, second, third]);
    let line = record_line(hash, stage);
    assert(line == head + middle + third);
    assert(line.last() == third.last());
    assert(digit_value_spec(third.last()) is Some);
    assert forall|i: int| 0 <= i < line.len() implies #[trigger] line[i] != '\n' by {
        if i < first.len() {
            assert(digit_value_spec(first[i]) is Some);
        } else if i == first.len() {
        } else if i < first.len() + 1 + second.len() {
            assert(line[i] == second[i - first.len() - 1]);
            assert(digit_value_spec(second[i - first.len() - 1]) is Some);
        } else if i == first.len() + 1 + second.len() {
        } else {
            assert(line[i] == third[i - first.len() - second.len() - 2]);
            assert(digit_value_spec(third[i - first.len() - second.len() - 2]) is Some);
        }
    }
}

/// The lines of the records of `db` for `keys`, in the order of `keys`.
pub open spec fn record_lines(keys: Seq<u64>, db: Map<u64, Stage>) -> Seq<Seq<char>> {
    Seq::new(keys.len(), |i: int| record_line(keys[i], db[keys[i]]))
}

/// The lines of a store are the lines of its records.
pub proof fn lemma_lines_of_save(keys: Seq<u64>, db: Map<u64, Stage>)
    ensures
        split_spec(save_spec(keys, db), Separator::Char('\n')) == record_lines(keys, db).push(
            Seq::<char>::empty(),
        ),
        lines_spec(save_spec(keys, db)) == record_lines(keys, db),
    decreases keys.len(),
{
    let sep = Separator::Char('\n');
    let none = Seq::<char>::empty();
    if keys.len() == 0 {
        assert(record_lines(keys, db).push(none) == seq![none]);
        assert(record_lines(keys, db) == Seq::<Seq<char>>::empty());
        assert(lines_spec(save_spec(keys, db)) == Seq::<Seq<char>>::empty());
    } else {
        let before = keys.drop_last();
        let line = record_line(keys.last(), db[keys.last()]);
        lemma_lines_of_save(before, db);
        lemma_record_line_reads_back(keys.last(), db[keys.last()]);
        lemma_split_no_separator(line, sep);
        lemma_split_ends_with_separator(line, '\n', sep);
        assert(split_spec(line.push('\n'), sep) == seq![line, none]);
        lemma_split_concat(save_spec(before, db), line.push('\n'), sep);
        assert(none + line == line);
        assert(record_lines(before, db).push(line) == record_lines(keys, db));
        let pieces = split_spec(save_spec(keys, db), sep);
        assert(pieces == record_lines(keys, db).push(none));
        assert forall|i: int| 0 <= i < keys.len() implies strip_cr_spec(#[trigger] pieces[i])
            == record_lines(keys, db)[i] by {
            lemma_record_line_reads_back(keys[i], db[keys[i]]);
        }
        assert(lines_spec(save_spec(keys, db)) == record_lines(keys, db));
    }
}

/// The lines of the records of `db` for `keys` hold the records of `db` for `keys`.
pub proof fn lemma_records_of_lines(keys: Seq<u64>, db: Map<u64, Stage>)
    ensures
        records_spec(record_lines(keys, db)) == Some(
            Map::new(|hash: u64| keys.contains(hash), |hash: u64| db[hash]),
        ),
    decreases keys.len(),
{
    let all = Map::new(|hash: u64| keys.contains(hash), |hash: u64| db[hash]);
    if keys.len() == 0 {
        assert(all == Map::<u64, Stage>::empty());
    } else {
        let before = keys.drop_last();
        lemma_records_of_lines(before, db);
        lemma_record_line_reads_back(keys.last(), db[keys.last()]);
        assert(record_lines(keys, db).drop_last() == record_lines(before, db));
        let some = Map::new(|hash: u64| before.contains(hash), |hash: u64| db[hash]);
        assert forall|hash: u64| keys.contains(hash) <==> (before.contains(hash) || hash
            == keys.last()) by {
            assert(keys.take(keys.len() as int) == keys);
            assert(keys.take(keys.len() - 1) == before);
            lemma_contains_one_more(keys, keys.len() - 1, hash);
        }
        assert(some.insert(keys.last(), db[keys.last()]) == all);
    }
}

/// Round trip: a store of `db` holds exactly the progress `db`.
pub proof fn lemma_load_of_save(text: Seq<char>, db: Map<u64, Stage>)
    requires
        is_store_of(text, db),
    ensures
        load_spec(text) == Some(db),
{
    let keys = choose|keys: Seq<u64>|
        keys.no_duplicates() && keys.to_set() == db.dom() && text == #[trigger] save_spec(keys, db);
    lemma_lines_of_save(keys, db);
    lemma_records_of_lines(keys, db);
    let all = Map::new(|hash: u64| keys.contains(hash), |hash: u64| db[hash]);
    assert forall|hash: u64| all.contains_key(hash) <==> db.contains_key(hash) by {
        assert(keys.to_set().contains(hash) == keys.contains(hash));
    }
    assert(all == db);
}

/// Loads the DB from the text of its store into a hashmap of flashcard hashes, and their
/// respective stages and timestamps when they entered a certain stage. A line that
/// holds no record makes the whole load fail.
pub fn load(text: &str) -> (loaded: Result<HashMap<u64, Stage>, Error>)
    ensures
        match loaded {
            Ok(db) => load_spec(text@) == Some(db@),
            Err(e) => e == Error::MalformedRecord && load_spec(text@) is None,
        },
{
    let chars = chars_of(text);
    let all_lines = lines(&chars);
    let ghost all = lines_spec(text@);
    let mut result: HashMap<u64, Stage> = HashMap::new();
    let mut i: usize = 0;
    assert(all.take(0) == Seq::<Seq<char>>::empty());
    while i < all_lines.len()
        invariant
            i <= all_lines.len(),
            views(all_lines@) == all,
            all == lines_spec(text@),
            records_spec(all.take(i as int)) == Some(result@),
        decreases all_lines.len() - i,
    {
        let parts = split(&all_lines[i], Separator::Char(FIELD_SEPARATOR));
        proof {
            assert(all.take(i + 1).drop_last() == all.take(i as int));
            assert(all.take(i + 1).last() == all_lines@[i as int]@);
            if record_spec(all[i as int]) is None {
                lemma_records_fail(all, i + 1);
            }
        }
        if parts.len() < 3 {
            return Err(Error::MalformedRecord);
        }
        assert(parts@[0]@ == views(parts@)[0]);
        assert(parts@[1]@ == views(parts@)[1]);
        assert(parts@[2]@ == views(parts@)[2]);
        let hash = match parse_u64(&parts[0]) {
            Some(hash) => hash,
            None => {
                return Err(Error::MalformedRecord);
            },
        };
        let index = match parse_u64(&parts[1]) {
            Some(index) => index,
            None => {
                return Err(Error::MalformedRecord);
            },
        };
        let timestamp_ms = match parse_u64(&parts[2]) {
            Some(timestamp_ms) => timestamp_ms,
            None => {
                return Err(Error::MalformedRecord);
            },
        };
        let stage = Stage { index, timestamp_ms };

        result.insert(hash, stage);
        i += 1;
    }
    assert(all.take(i as int) == all);
    Ok(result)
}

/// Saves the progress DB as the text of its store: one line for each record, in no
/// particular order. Loading the text gives the same progress again.
pub fn save(db: &HashMap<u64, Stage>) -> (text: String)
    ensures
        is_store_of(text@, db@),
        load_spec(text@) == Some(db@),
{
    let mut out: Vec<char> = Vec::new();
    let keys = db.keys();
    let ghost all: Seq<u64> = keys.remaining().unref();
    assert(all.to_set() == db@.dom());
    assert(all.no_duplicates()) by {
        assert forall|i: int, j: int| 0 <= i < all.len() && 0 <= j < all.len() && i != j implies all[i]
            != all[j] by {
            assert(keys.remaining()[i] != keys.remaining()[j]);
        }
    }
    assert(all.take(0) == Seq::<u64>::empty());
    for hash in it: keys
        invariant
            it.seq().unref() == all,
            all.to_set() == db@.dom(),
            out@ == save_spec(all.take(it.index() as int), db@),
    {
        let ghost done = out@;
        let ghost n = it.index() as int;
        assert(*hash == all[n]);
        assert(all.to_set().contains(all[n]));
        let stage = db.get(hash).unwrap();
        push_decimal(&mut out, *hash);
        out.push(FIELD_SEPARATOR);
        push_decimal(&mut out, stage.index);
        out.push(FIELD_SEPARATOR);
        push_decimal(&mut out, stage.timestamp_ms);
        out.push('\n');
        proof {
            assert(all.take(n + 1).drop_last() == all.take(n));
            assert(all.take(n + 1).last() == *hash);
            assert(out@ == done + record_line(*hash, db@[*hash]).push('\n'));
        }
    }
    proof {
        assert(all.take(all.len() as int) == all);
        assert(is_store_of(out@, db@));
        lemma_load_of_save(out@, db@);
    }
    string_of(&out)
}

/// Cleans the database by removing all entries that are older than a particular unix
/// time.
///
/// This function is useful to remove dead flashcards (are created when removed from a
/// cardbox or after hash changing modifications happened).
pub fn clean(db: &HashMap<u64, Stage>, older_than: u64) -> (new_db: HashMap<u64, Stage>)
    ensures
        new_db@ == clean_spec(db@, older_than),
{
    let mut new_db: HashMap<u64, Stage> = HashMap::new();
    let keys = db.keys();
    let ghost all: Seq<u64> = keys.remaining().unref();
    assert(all.to_set() == db@.dom());
    for hash in it: keys
        invariant
            it.seq().unref() == all,
            all.to_set() == db@.dom(),
            new_db@ == Map::new(
                |hash: u64|
                    all.take(it.index() as int).contains(hash) && db@[hash].timestamp_ms
                        >= older_than,
                |hash: u64| db@[hash],
            ),
    {
        let ghost n = it.index() as int;
        let ghost before = new_db@;
        assert(*hash == all[n]);
        assert(all.to_set().contains(all[n]));
        let stage = *db.get(hash).unwrap();
        if stage.timestamp_ms >= older_than {
            new_db.insert(*hash, stage);
        }
        proof {
            assert(all.take(n + 1).drop_last() == all.take(n));
            assert forall|key: u64| all.take(n + 1).contains(key) <==> (all.take(n).contains(key)
                || key == *hash) by {
                lemma_contains_one_more(all, n, key);
            }
            assert(new_db@ == Map::new(
                |hash: u64|
                    all.take(n + 1).contains(hash) && db@[hash].timestamp_ms >= older_than,
                |hash: u64| db@[hash],
            ));
        }
    }
    proof {
        assert(all.take(all.len() as int) == all);
        assert forall|key: u64| all.contains(key) <==> db@.contains_key(key) by {
            assert(all.to_set().contains(key) == all.contains(key));
        }
        assert(new_db@ == clean_spec(db@, older_than));
    }
    new_db
}

} // verus!
