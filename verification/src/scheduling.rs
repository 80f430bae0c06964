//! What holds of a cardbox whenever flashcards are put in, dealt, moved and saved.

use crate::cardbox::{
    admitted, enveloped, is_corrupt, is_corrupt_for, lemma_moved_keeps_size, lemma_sorted_in_wf,
    record_of, recorded, recorded_of, restored, unseen_of, CardboxView, Envelope,
};
use crate::db::{is_store_of, lemma_load_of_save, load_spec, Stage};
use crate::flashcards::Flashcard;
use vstd::prelude::*;

verus! {

/// Whether a cardbox has its five stages 1 to 5 and holds no flashcard at all.
pub open spec fn is_empty(cardbox: CardboxView) -> bool {
    &&& cardbox.stages.len() == 5
    &&& cardbox.unseen.len() == 0
    &&& forall|k: int| 0 <= k < 5 ==> (#[trigger] cardbox.stages[k]).len() == 0
}

/// Whether no two envelopes of the stages 1 to 5 carry the same hash.
pub open spec fn has_distinct_hashes(cardbox: CardboxView) -> bool {
    forall|k: int, i: int, l: int, j: int|
        0 <= k < 5 && 0 <= i < cardbox.stages[k].len() && 0 <= l < 5 && 0 <= j
            < cardbox.stages[l].len() && (k != l || i != j) ==> (#[trigger] cardbox.stages[k][i]).hash
            != (#[trigger] cardbox.stages[l][j]).hash
}

/// Whether no two of `flashcards` have the same fingerprint.
pub open spec fn have_distinct_fingerprints(flashcards: Seq<Flashcard>) -> bool {
    forall|i: int, j: int|
        0 <= i < flashcards.len() && 0 <= j < flashcards.len() && i != j ==> (
        #[trigger] flashcards[i]).fingerprint() != (#[trigger] flashcards[j]).fingerprint()
}

/// Whether every fingerprint stands in the cardbox at most once: no two envelopes of the
/// stages 1 to 5 carry the same hash, no two flashcards of stage 0 have the same
/// fingerprint, and no flashcard of stage 0 has the fingerprint that an envelope
/// carries.
pub open spec fn holds_each_once(cardbox: CardboxView) -> bool {
    &&& has_distinct_hashes(cardbox)
    &&& have_distinct_fingerprints(cardbox.unseen)
    &&& forall|n: int, k: int, i: int|
        0 <= n < cardbox.unseen.len() && 0 <= k < 5 && 0 <= i < cardbox.stages[k].len() ==> (
        #[trigger] cardbox.unseen[n]).fingerprint() != (#[trigger] cardbox.stages[k][i]).hash
}

/// The place in a cardbox of the envelope that, after the flashcard at the front of
/// stage `from` moved to the back of stage `to`, stands at the index `i` of the queue
/// with the index `k`.
pub open spec fn place_before(cardbox: CardboxView, from: int, to: int, k: int, i: int) -> (
    int,
    int,
) {
    let f = from - 1;
    let t = to - 1;
    if k == t && i == cardbox.moved(from, to, 0).stages[t].len() - 1 {
        (f, 0)
    } else if k == f {
        (f, i + 1)
    } else {
        (k, i)
    }
}

/// After a move every envelope carries the hash of the envelope at its place before,
/// and no two envelopes have the same place before.
pub proof fn lemma_place_before(cardbox: CardboxView, from: int, to: int, now: u64, k: int, i: int)
    requires
        cardbox.stages.len() == 5,
        1 <= from <= 5,
        1 <= to <= 5,
        cardbox.stage(from).len() > 0,
        0 <= k < 5,
        0 <= i < cardbox.moved(from, to, now).stages[k].len(),
    ensures
        ({
            let (k0, i0) = place_before(cardbox, from, to, k, i);
            &&& 0 <= k0 < 5
            &&& 0 <= i0 < cardbox.stages[k0].len()
            &&& cardbox.moved(from, to, now).stages[k][i].hash == cardbox.stages[k0][i0].hash
            &&& (k0 == from - 1 && i0 == 0) <==> (k == to - 1 && i == cardbox.moved(
                from,
                to,
                now,
            ).stages[k].len() - 1)
            &&& !(k0 == from - 1 && i0 == 0) ==> k0 == k && i0 == if k == from - 1 {
                i + 1
            } else {
                i
            }
        }),
{
    assert(cardbox.moved(from, to, 0).stages[to - 1].len() == cardbox.moved(
        from,
        to,
        now,
    ).stages[to - 1].len());
}

/// A flashcard that moves from the front of one stage to the back of another leaves
/// every fingerprint in the cardbox at most once.
pub proof fn lemma_moved_holds_each_once(cardbox: CardboxView, from: int, to: int, now: u64)
    requires
        cardbox.stages.len() == 5,
        1 <= from <= 5,
        1 <= to <= 5,
        cardbox.stage(from).len() > 0,
        holds_each_once(cardbox),
    ensures
        holds_each_once(cardbox.moved(from, to, now)),
{
    let after = cardbox.moved(from, to, now);
    assert forall|k: int, i: int, l: int, j: int|
        0 <= k < 5 && 0 <= i < after.stages[k].len() && 0 <= l < 5 && 0 <= j
            < after.stages[l].len() && (k != l || i != j) implies (#[trigger] after.stages[k][i]).hash
        != (#[trigger] after.stages[l][j]).hash by {
        lemma_place_before(cardbox, from, to, now, k, i);
        lemma_place_before(cardbox, from, to, now, l, j);
        let (k0, i0) = place_before(cardbox, from, to, k, i);
        let (l0, j0) = place_before(cardbox, from, to, l, j);
        assert(k0 != l0 || i0 != j0);
        assert(cardbox.stages[k0][i0].hash != cardbox.stages[l0][j0].hash);
    }
    assert forall|n: int, k: int, i: int|
        0 <= n < after.unseen.len() && 0 <= k < 5 && 0 <= i < after.stages[k].len() implies (
    #[trigger] after.unseen[n]).fingerprint() != (#[trigger] after.stages[k][i]).hash by {
        lemma_place_before(cardbox, from, to, now, k, i);
        let (k0, i0) = place_before(cardbox, from, to, k, i);
        assert(cardbox.unseen[n].fingerprint() != cardbox.stages[k0][i0].hash);
    }
}

/// Filling stage 1 up leaves every fingerprint in the cardbox at most once.
pub proof fn lemma_top_up_holds_each_once(cardbox: CardboxView, now: u64)
    requires
        cardbox.stages.len() == 5,
        holds_each_once(cardbox),
    ensures
        holds_each_once(cardbox.top_up(now)),
{
    let after = cardbox.top_up(now);
    let room = cardbox.room() as int;
    let old_len = cardbox.stages[0].len() as int;
    assert forall|k: int, i: int|
        0 <= k < 5 && 0 <= i < after.stages[k].len() implies if k == 0 && i >= old_len {
        0 <= i - old_len < room && (#[trigger] after.stages[k][i]).hash == cardbox.unseen[i
            - old_len].fingerprint()
    } else {
        i < cardbox.stages[k].len() && after.stages[k][i] == cardbox.stages[k][i]
    } by {
        if k == 0 && i >= old_len {
            assert(after.stages[0][i] == admitted(cardbox.unseen.take(room), now)[i - old_len]);
        }
    }
    assert forall|k: int, i: int, l: int, j: int|
        0 <= k < 5 && 0 <= i < after.stages[k].len() && 0 <= l < 5 && 0 <= j
            < after.stages[l].len() && (k != l || i != j) implies (#[trigger] after.stages[k][i]).hash
        != (#[trigger] after.stages[l][j]).hash by {
        let fresh_i = k == 0 && i >= old_len;
        let fresh_j = l == 0 && j >= old_len;
        if fresh_i && fresh_j {
            assert(cardbox.unseen[i - old_len].fingerprint() != cardbox.unseen[j
                - old_len].fingerprint());
        } else if fresh_i {
            assert(cardbox.unseen[i - old_len].fingerprint() != cardbox.stages[l][j].hash);
        } else if fresh_j {
            assert(cardbox.unseen[j - old_len].fingerprint() != cardbox.stages[k][i].hash);
        } else {
            assert(cardbox.stages[k][i].hash != cardbox.stages[l][j].hash);
        }
    }
    assert forall|i: int, j: int|
        0 <= i < after.unseen.len() && 0 <= j < after.unseen.len() && i != j implies (
    #[trigger] after.unseen[i]).fingerprint() != (#[trigger] after.unseen[j]).fingerprint() by {
        assert(cardbox.unseen[i + room].fingerprint() != cardbox.unseen[j + room].fingerprint());
    }
    assert forall|n: int, k: int, i: int|
        0 <= n < after.unseen.len() && 0 <= k < 5 && 0 <= i < after.stages[k].len() implies (
    #[trigger] after.unseen[n]).fingerprint() != (#[trigger] after.stages[k][i]).hash by {
        if k == 0 && i >= old_len {
            assert(cardbox.unseen[n + room].fingerprint() != cardbox.unseen[i
                - old_len].fingerprint());
        } else {
            assert(cardbox.unseen[n + room].fingerprint() != cardbox.stages[k][i].hash);
        }
    }
}

/// A flashcard that is answered correctly leaves every fingerprint in the cardbox at
/// most once.
pub proof fn lemma_advance_holds_each_once(cardbox: CardboxView, stage: int, now: u64)
    requires
        cardbox.stages.len() == 5,
        1 <= stage <= 5,
        cardbox.stage(stage).len() > 0,
        holds_each_once(cardbox),
    ensures
        holds_each_once(cardbox.advance(stage, now)),
        has_distinct_hashes(cardbox.advance(stage, now)),
{
    let next = CardboxView::next_stage(stage);
    lemma_moved_holds_each_once(cardbox, stage, next, now);
    lemma_moved_keeps_size(cardbox, stage, next, now);
    lemma_top_up_holds_each_once(cardbox.moved(stage, next, now), now);
}

/// A flashcard that is not answered correctly leaves every fingerprint in the cardbox at
/// most once.
pub proof fn lemma_reset_holds_each_once(cardbox: CardboxView, stage: int, now: u64)
    requires
        cardbox.stages.len() == 5,
        1 <= stage <= 5,
        cardbox.stage(stage).len() > 0,
        holds_each_once(cardbox),
    ensures
        holds_each_once(cardbox.reset(stage, now)),
        has_distinct_hashes(cardbox.reset(stage, now)),
{
    lemma_moved_holds_each_once(cardbox, stage, 1, now);
}

/// Those of flashcards with different fingerprints that a filter keeps have different
/// fingerprints too.
pub proof fn lemma_filter_keeps_distinct(
    flashcards: Seq<Flashcard>,
    keep: spec_fn(Flashcard) -> bool,
)
    requires
        have_distinct_fingerprints(flashcards),
    ensures
        have_distinct_fingerprints(flashcards.filter(keep)),
    decreases flashcards.len(),
{
    reveal(Seq::filter);
    if flashcards.len() > 0 {
        let fewer = flashcards.drop_last();
        let last = flashcards.last();
        assert forall|i: int, j: int|
            0 <= i < fewer.len() && 0 <= j < fewer.len() && i != j implies (
        #[trigger] fewer[i]).fingerprint() != (#[trigger] fewer[j]).fingerprint() by {
            assert(flashcards[i].fingerprint() != flashcards[j].fingerprint());
        }
        lemma_filter_keeps_distinct(fewer, keep);
        let kept = fewer.filter(keep);
        if keep(last) {
            let all = flashcards.filter(keep);
            assert(all == kept.push(last));
            assert forall|i: int, j: int|
                0 <= i < all.len() && 0 <= j < all.len() && i != j implies (
            #[trigger] all[i]).fingerprint() != (#[trigger] all[j]).fingerprint() by {
                if i < kept.len() && j < kept.len() {
                    assert(kept[i].fingerprint() != kept[j].fingerprint());
                } else {
                    let inner = if i < kept.len() {
                        i
                    } else {
                        j
                    };
                    assert(kept.contains(kept[inner]));
                    fewer.lemma_filter_contains_rev(keep, kept[inner]);
                    let at = choose|at: int| 0 <= at < fewer.len() && fewer[at] == kept[inner];
                    assert(flashcards[at].fingerprint() != flashcards[flashcards.len()
                        - 1].fingerprint());
                }
            }
        }
    }
}

/// Putting flashcards with different fingerprints into an empty cardbox leaves every
/// fingerprint in the cardbox at most once.
pub proof fn lemma_init_holds_each_once(cardbox: CardboxView, flashcards: Seq<Flashcard>, now: u64)
    requires
        is_empty(cardbox),
        have_distinct_fingerprints(flashcards),
    ensures
        holds_each_once(cardbox.init(flashcards, now)),
        has_distinct_hashes(cardbox.init(flashcards, now)),
{
    broadcast use Seq::lemma_filter_pred;

    let progress = cardbox.progress;
    let sorted = cardbox.sorted_in(flashcards);
    let none = |flashcard: Flashcard| record_of(progress, flashcard) is None;
    assert(sorted.unseen =~= flashcards.filter(none));
    lemma_filter_keeps_distinct(flashcards, none);
    assert forall|n: int| 0 <= n < sorted.unseen.len() implies record_of(
        progress,
        #[trigger] sorted.unseen[n],
    ) is None by {
        assert(none(flashcards.filter(none)[n]));
    }
    assert forall|k: int, i: int| 0 <= k < 5 && 0 <= i < sorted.stages[k].len() implies ({
        let found = recorded_of(progress, flashcards, k + 1);
        &&& i < found.len()
        &&& (#[trigger] sorted.stages[k][i]).hash == found[i].fingerprint()
        &&& record_of(progress, found[i]) matches Some(record) && record.index == k + 1
    }) by {
        let keep = |flashcard: Flashcard|
            record_of(progress, flashcard) matches Some(record) && record.index == k + 1;
        assert(cardbox.stages[k].len() == 0);
        assert(sorted.stages[k] =~= restored(progress, flashcards, k + 1));
        assert(keep(flashcards.filter(keep)[i]));
    }
    assert forall|k: int, i: int, l: int, j: int|
        0 <= k < 5 && 0 <= i < sorted.stages[k].len() && 0 <= l < 5 && 0 <= j
            < sorted.stages[l].len() && (k != l || i != j) implies (
    #[trigger] sorted.stages[k][i]).hash != (#[trigger] sorted.stages[l][j]).hash by {
        let found = recorded_of(progress, flashcards, k + 1);
        let other = recorded_of(progress, flashcards, l + 1);
        if k == l {
            let keep = |flashcard: Flashcard|
                record_of(progress, flashcard) matches Some(record) && record.index == k + 1;
            lemma_filter_keeps_distinct(flashcards, keep);
            assert(found[i].fingerprint() != found[j].fingerprint());
        } else {
            assert(record_of(progress, found[i]) != record_of(progress, other[j]));
        }
    }
    assert forall|n: int, k: int, i: int|
        0 <= n < sorted.unseen.len() && 0 <= k < 5 && 0 <= i < sorted.stages[k].len() implies (
    #[trigger] sorted.unseen[n]).fingerprint() != (#[trigger] sorted.stages[k][i]).hash by {
        let found = recorded_of(progress, flashcards, k + 1);
        assert(record_of(progress, sorted.unseen[n]) != record_of(progress, found[i]));
    }
    assert(holds_each_once(sorted));
    lemma_top_up_holds_each_once(sorted, now);
}

/// The flashcard that is dealt comes from the highest stage whose front is due: its own
/// front is due, and the front of no higher stage is. Nothing is dealt exactly where
/// the front of no stage is due.
pub proof fn lemma_next_is_highest_due(cardbox: CardboxView, now: u64)
    ensures
        match cardbox.next_due(now) {
            Some(stage) => 1 <= stage <= 5 && cardbox.is_due(stage, now) && forall|above: int|
                stage < above <= 5 ==> !cardbox.is_due(above, now),
            None => forall|stage: int| 1 <= stage <= 5 ==> !cardbox.is_due(stage, now),
        },
{
}

/// Filling stage 1 up leaves the number of flashcards in the cardbox as it is, and
/// leaves stage 1 with the initial queue size, or with all flashcards of stage 0 where
/// they do not suffice.
pub proof fn lemma_top_up_keeps_size(cardbox: CardboxView, now: u64)
    requires
        cardbox.stages.len() == 5,
    ensures
        cardbox.top_up(now).stages.len() == 5,
        cardbox.top_up(now).size() == cardbox.size(),
        cardbox.top_up(now).stage(1).len() == cardbox.stage(1).len() + cardbox.room(),
        cardbox.top_up(now).unseen.len() == cardbox.unseen.len() - cardbox.room(),
        forall|stage: int| 2 <= stage <= 5 ==> cardbox.top_up(now).stage(stage) == cardbox.stage(stage),
{
}

/// A flashcard that is answered correctly stays in the cardbox: the number of
/// flashcards does not change.
pub proof fn lemma_advance_keeps_size(cardbox: CardboxView, stage: int, now: u64)
    requires
        cardbox.stages.len() == 5,
        1 <= stage <= 5,
        cardbox.stage(stage).len() > 0,
    ensures
        cardbox.advance(stage, now).stages.len() == 5,
        cardbox.advance(stage, now).size() == cardbox.size(),
{
    lemma_moved_keeps_size(cardbox, stage, CardboxView::next_stage(stage), now);
    lemma_top_up_keeps_size(cardbox.moved(stage, CardboxView::next_stage(stage), now), now);
}

/// A flashcard that is not answered correctly stays in the cardbox: the number of
/// flashcards does not change.
pub proof fn lemma_reset_keeps_size(cardbox: CardboxView, stage: int, now: u64)
    requires
        cardbox.stages.len() == 5,
        1 <= stage <= 5,
        cardbox.stage(stage).len() > 0,
    ensures
        cardbox.reset(stage, now).stages.len() == 5,
        cardbox.reset(stage, now).size() == cardbox.size(),
{
    lemma_moved_keeps_size(cardbox, stage, 1, now);
}

/// Flashcards that are put into a cardbox all stay in it: its size grows by their
/// number.
pub proof fn lemma_init_adds_to_size(cardbox: CardboxView, flashcards: Seq<Flashcard>, now: u64)
    requires
        cardbox.wf(),
        !is_corrupt(cardbox.progress, flashcards),
    ensures
        cardbox.init(flashcards, now).size() == cardbox.size() + flashcards.len(),
{
    lemma_sorted_in_wf(cardbox, flashcards);
    lemma_sorted_in_stages(cardbox, flashcards);
    lemma_top_up_keeps_size(cardbox.sorted_in(flashcards), now);
}

/// Sorting flashcards into a cardbox leaves it with its five stages.
pub proof fn lemma_sorted_in_stages(cardbox: CardboxView, flashcards: Seq<Flashcard>)
    ensures
        cardbox.sorted_in(flashcards).stages.len() == 5,
{
}

/// Where the progress holds no record for any of `flashcards`, they are all unseen, and
/// none of them is restored to a stage.
pub proof fn lemma_unseen_without_records(
    progress: Map<u64, Stage>,
    flashcards: Seq<Flashcard>,
    stage: int,
)
    requires
        forall|i: int|
            0 <= i < flashcards.len() ==> record_of(progress, #[trigger] flashcards[i]) is None,
    ensures
        unseen_of(progress, flashcards) == flashcards,
        recorded_of(progress, flashcards, stage).len() == 0,
        restored(progress, flashcards, stage).len() == 0,
    decreases flashcards.len(),
{
    reveal(Seq::filter);
    if flashcards.len() > 0 {
        let fewer = flashcards.drop_last();
        assert forall|i: int| 0 <= i < fewer.len() implies record_of(
            progress,
            #[trigger] fewer[i],
        ) is None by {
            assert(fewer[i] == flashcards[i]);
        }
        lemma_unseen_without_records(progress, fewer, stage);
        assert(record_of(progress, flashcards[flashcards.len() - 1]) is None);
        assert(fewer.push(flashcards.last()) == flashcards);
    }
}

/// Putting flashcards into an empty cardbox whose progress holds no record leaves the
/// cardbox with exactly these flashcards: stage 1 holds the first ones, up to the initial
/// queue size, stage 0 holds the others, and the stages 2 to 5 are empty.
pub proof fn lemma_init_without_progress(
    cardbox: CardboxView,
    flashcards: Seq<Flashcard>,
    now: u64,
)
    requires
        is_empty(cardbox),
        cardbox.progress == Map::<u64, Stage>::empty(),
    ensures
        ({
            let after = cardbox.init(flashcards, now);
            let first = if flashcards.len() <= cardbox.config.initial_queue_size {
                flashcards.len()
            } else {
                cardbox.config.initial_queue_size as nat
            };
            &&& after.size() == flashcards.len()
            &&& after.stage(1) == admitted(flashcards.take(first as int), now)
            &&& after.stage(1).len() == first
            &&& after.unseen == flashcards.skip(first as int)
            &&& forall|stage: int| 2 <= stage <= 5 ==> after.stage(stage).len() == 0
        }),
{
    let progress = cardbox.progress;
    let sorted = cardbox.sorted_in(flashcards);
    assert forall|i: int| 0 <= i < flashcards.len() implies record_of(
        progress,
        #[trigger] flashcards[i],
    ) is None by {}
    lemma_unseen_without_records(progress, flashcards, 1);
    lemma_unseen_without_records(progress, flashcards, 2);
    lemma_unseen_without_records(progress, flashcards, 3);
    lemma_unseen_without_records(progress, flashcards, 4);
    lemma_unseen_without_records(progress, flashcards, 5);
    assert(sorted.unseen == flashcards);
    assert forall|k: int| 0 <= k < 5 implies (#[trigger] sorted.stages[k]).len() == 0 by {
        assert(cardbox.stages[k].len() == 0);
    }
    lemma_top_up_keeps_size(sorted, now);
    let after = sorted.top_up(now);
    assert(after.stage(1) == admitted(flashcards.take(sorted.room() as int), now));
}

/// Putting flashcards into an empty cardbox restores their progress: a flashcard with a
/// record stands in the stage that its record names, with the time of its record, and
/// every flashcard of a stage that has a record was put there by its record. A
/// flashcard without a record of a stage stands in stage 1 since `now`.
pub proof fn lemma_init_restores_progress(
    cardbox: CardboxView,
    flashcards: Seq<Flashcard>,
    now: u64,
)
    requires
        is_empty(cardbox),
        !is_corrupt(cardbox.progress, flashcards),
    ensures
        forall|i: int|
            0 <= i < flashcards.len() && record_of(cardbox.progress, #[trigger] flashcards[i])
                is Some ==> cardbox.init(flashcards, now).stage(
                record_of(cardbox.progress, flashcards[i])->0.index as int,
            ).contains(
                enveloped(
                    flashcards[i],
                    record_of(cardbox.progress, flashcards[i])->0.timestamp_ms,
                ),
            ),
        forall|stage: int, j: int|
            1 <= stage <= 5 && 0 <= j < cardbox.init(flashcards, now).stage(stage).len() ==> {
                let envelope = #[trigger] cardbox.init(flashcards, now).stage(stage)[j];
                match record_of(cardbox.progress, envelope.flashcard) {
                    Some(record) => record.index == stage && envelope.timestamp
                        == record.timestamp_ms,
                    None => stage == 1 && envelope.timestamp == now,
                }
            },
{
    broadcast use {Seq::lemma_filter_pred, Seq::lemma_filter_contains};

    let progress = cardbox.progress;
    let sorted = cardbox.sorted_in(flashcards);
    let after = cardbox.init(flashcards, now);
    assert forall|k: int| 0 <= k < 5 implies #[trigger] sorted.stages[k] == restored(
        progress,
        flashcards,
        k + 1,
    ) by {
        assert(cardbox.stages[k].len() == 0);
    }
    assert(sorted.unseen == unseen_of(progress, flashcards));
    assert forall|i: int|
        0 <= i < flashcards.len() && record_of(progress, #[trigger] flashcards[i])
            is Some implies after.stage(record_of(progress, flashcards[i])->0.index as int).contains(
        enveloped(flashcards[i], record_of(progress, flashcards[i])->0.timestamp_ms),
    ) by {
        let card = flashcards[i];
        let record = record_of(progress, card)->0;
        assert(!is_corrupt_for(progress, card));
        let stage = record.index as int;
        let keep = |flashcard: Flashcard|
            record_of(progress, flashcard) matches Some(record) && record.index == stage;
        let found = recorded_of(progress, flashcards, stage);
        assert(keep(flashcards[i]));
        assert(flashcards.filter(keep).contains(flashcards[i]));
        let n = choose|n: int| 0 <= n < found.len() && found[n] == card;
        let envelopes = restored(progress, flashcards, stage);
        assert(envelopes[n] == enveloped(card, record.timestamp_ms));
        assert(sorted.stages[stage - 1][n] == enveloped(card, record.timestamp_ms));
        assert(after.stage(stage)[n] == enveloped(card, record.timestamp_ms));
    }
    assert forall|stage: int, j: int|
        1 <= stage <= 5 && 0 <= j < after.stage(stage).len() implies {
        let envelope = #[trigger] after.stage(stage)[j];
        match record_of(progress, envelope.flashcard) {
            Some(record) => record.index == stage && envelope.timestamp == record.timestamp_ms,
            None => stage == 1 && envelope.timestamp == now,
        }
    } by {
        let envelope = after.stage(stage)[j];
        let keep = |flashcard: Flashcard|
            record_of(progress, flashcard) matches Some(record) && record.index == stage;
        let found = recorded_of(progress, flashcards, stage);
        if j < found.len() {
            assert(envelope == restored(progress, flashcards, stage)[j]);
            assert(keep(flashcards.filter(keep)[j]));
        } else {
            let none = |flashcard: Flashcard| record_of(progress, flashcard) is None;
            let n = j - found.len();
            assert(stage == 1);
            assert(envelope == admitted(sorted.unseen.take(sorted.room() as int), now)[n]);
            assert(envelope.flashcard == sorted.unseen[n]);
            assert(none(flashcards.filter(none)[n]));
        }
    }
}

/// A flashcard that was answered correctly in stage 1 rests at the back of stage 2.
/// Until the cooldown of stage 2 has passed it is not dealt again: a flashcard that is
/// dealt from stage 2 before is one that has waited there, and where no two envelopes
/// carry the same hash, whatever is dealt before is another flashcard.
pub proof fn lemma_advanced_flashcard_rests(cardbox: CardboxView, now: u64, later: u64)
    requires
        cardbox.stages.len() == 5,
        cardbox.stage(1).len() > 0,
        later < now + cardbox.cooldown(2),
    ensures
        ({
            let after = cardbox.advance(1, now);
            &&& after.stage(2) == cardbox.stage(2).push(
                (Envelope { timestamp: now, ..cardbox.stage(1)[0] }),
            )
            &&& after.next_due(later) == Some(2int) ==> cardbox.stage(2).len() > 0
                && after.stage(2)[0] == cardbox.stage(2)[0]
            &&& has_distinct_hashes(after) ==> match after.next_due(later) {
                Some(stage) => after.stage(stage)[0].hash != cardbox.stage(1)[0].hash,
                None => true,
            }
        }),
{
    let moved = cardbox.moved(1, 2, now);
    lemma_top_up_keeps_size(moved, now);
    let after = cardbox.advance(1, now);
    assert(after.stage(2) == moved.stage(2));
    assert(after.config == cardbox.config);
    if cardbox.stage(2).len() == 0 {
        assert(after.stage(2)[0].timestamp == now);
        assert(!after.is_due(2, later));
    }
    lemma_next_is_highest_due(after, later);
    if has_distinct_hashes(after) {
        if let Some(stage) = after.next_due(later) {
            let last = cardbox.stage(2).len() as int;
            assert(after.is_due(stage, later));
            assert(after.stages[1][last].hash == cardbox.stage(1)[0].hash);
            assert(after.stages[stage - 1][0].hash != after.stages[1][last].hash);
        }
    }
}

/// Stage 5 is the last stage: a flashcard that is answered correctly there goes to the
/// back of stage 5 again, with the time of the answer, and nothing else changes.
pub proof fn lemma_last_stage_absorbs(cardbox: CardboxView, now: u64)
    requires
        cardbox.stages.len() == 5,
        cardbox.stage(5).len() > 0,
    ensures
        ({
            let after = cardbox.advance(5, now);
            &&& after.stages.len() == 5
            &&& after.stage(5) == cardbox.stage(5).drop_first().push(
                (Envelope { timestamp: now, ..cardbox.stage(5)[0] }),
            )
            &&& after.unseen == cardbox.unseen
            &&& forall|stage: int| 1 <= stage <= 4 ==> after.stage(stage) == cardbox.stage(stage)
        }),
{
}

/// A flashcard that is not answered correctly goes to the back of stage 1, with the time
/// of the answer, whatever stage it was in. It leaves the front of its stage, and no
/// other stage changes.
pub proof fn lemma_reset_leads_to_first_stage(cardbox: CardboxView, stage: int, now: u64)
    requires
        cardbox.stages.len() == 5,
        1 <= stage <= 5,
        cardbox.stage(stage).len() > 0,
    ensures
        ({
            let after = cardbox.reset(stage, now);
            let envelope = Envelope { timestamp: now, ..cardbox.stage(stage)[0] };
            &&& after.stages.len() == 5
            &&& after.unseen == cardbox.unseen
            &&& after.stage(1) == if stage == 1 {
                cardbox.stage(1).drop_first().push(envelope)
            } else {
                cardbox.stage(1).push(envelope)
            }
            &&& stage != 1 ==> after.stage(stage) == cardbox.stage(stage).drop_first()
            &&& forall|other: int|
                2 <= other <= 5 && other != stage ==> after.stage(other) == cardbox.stage(other)
        }),
{
}

/// Whether one of `envelopes` carries `hash`.
pub open spec fn carries(envelopes: Seq<Envelope>, hash: u64) -> bool {
    exists|i: int| 0 <= i < envelopes.len() && (#[trigger] envelopes[i]).hash == hash
}

/// After records were written for envelopes, a hash has a record where it had one before
/// or one of the envelopes carries it.
pub proof fn lemma_recorded_keys(
    records: Map<u64, Stage>,
    envelopes: Seq<Envelope>,
    stage: int,
    hash: u64,
)
    ensures
        recorded(records, envelopes, stage).contains_key(hash) <==> (records.contains_key(hash)
            || carries(envelopes, hash)),
    decreases envelopes.len(),
{
    if envelopes.len() > 0 {
        let fewer = envelopes.drop_last();
        lemma_recorded_keys(records, fewer, stage, hash);
        if carries(fewer, hash) {
            let i = choose|i: int| 0 <= i < fewer.len() && (#[trigger] fewer[i]).hash == hash;
            assert(envelopes[i].hash == hash);
        }
        if envelopes.last().hash == hash {
            assert(envelopes[envelopes.len() - 1].hash == hash);
        }
        if carries(envelopes, hash) {
            let i = choose|i: int|
                0 <= i < envelopes.len() && (#[trigger] envelopes[i]).hash == hash;
            if i < fewer.len() {
                assert(fewer[i].hash == hash);
            }
        }
    }
}

/// After records were written for envelopes, a hash that none of them carries has the
/// record that it had before.
pub proof fn lemma_recorded_keeps(
    records: Map<u64, Stage>,
    envelopes: Seq<Envelope>,
    stage: int,
    hash: u64,
)
    requires
        !carries(envelopes, hash),
    ensures
        recorded(records, envelopes, stage)[hash] == records[hash],
    decreases envelopes.len(),
{
    if envelopes.len() > 0 {
        let fewer = envelopes.drop_last();
        assert(envelopes[envelopes.len() - 1].hash != hash);
        if carries(fewer, hash) {
            let i = choose|i: int| 0 <= i < fewer.len() && (#[trigger] fewer[i]).hash == hash;
            assert(envelopes[i].hash == hash);
        }
        lemma_recorded_keeps(records, fewer, stage, hash);
    }
}

/// After records were written for envelopes, the hash of an envelope that no later one
/// shares has the record of its stage and time.
pub proof fn lemma_recorded_holds(
    records: Map<u64, Stage>,
    envelopes: Seq<Envelope>,
    stage: int,
    i: int,
)
    requires
        0 <= i < envelopes.len(),
        forall|j: int| i < j < envelopes.len() ==> (#[trigger] envelopes[j]).hash != envelopes[i].hash,
    ensures
        recorded(records, envelopes, stage)[envelopes[i].hash] == (Stage {
            index: stage as u64,
            timestamp_ms: envelopes[i].timestamp,
        }),
    decreases envelopes.len(),
{
    let fewer = envelopes.drop_last();
    if i < fewer.len() {
        assert(envelopes[envelopes.len() - 1].hash != envelopes[i].hash);
        assert forall|j: int| i < j < fewer.len() implies (#[trigger] fewer[j]).hash
            != fewer[i].hash by {
            assert(envelopes[j].hash != envelopes[i].hash);
        }
        lemma_recorded_holds(records, fewer, stage, i);
    }
}

/// Where no two envelopes carry the same hash, the saved progress holds for every
/// flashcard of the stages 1 to 5 its stage and the time it entered it, and holds no
/// other records.
pub proof fn lemma_snapshot_records_stages(cardbox: CardboxView)
    requires
        cardbox.stages.len() == 5,
        has_distinct_hashes(cardbox),
    ensures
        forall|stage: int, i: int|
            1 <= stage <= 5 && 0 <= i < cardbox.stage(stage).len() ==> {
                let envelope = #[trigger] cardbox.stage(stage)[i];
                cardbox.snapshot().contains_key(envelope.hash) && cardbox.snapshot()[envelope.hash]
                    == (Stage { index: stage as u64, timestamp_ms: envelope.timestamp })
            },
        forall|hash: u64| #[trigger]
            cardbox.snapshot().contains_key(hash) ==> exists|stage: int, i: int|
                1 <= stage <= 5 && 0 <= i < cardbox.stage(stage).len() && (
                #[trigger] cardbox.stage(stage)[i]).hash == hash,
{
    lemma_snapshot_to(cardbox, 5);
}

/// Round trip: where no two envelopes carry the same hash, a store of the saved
/// progress loads back as a progress that holds for every flashcard of the stages 1 to 5
/// its stage and the time it entered it.
pub proof fn lemma_saved_progress_loads_back(cardbox: CardboxView, text: Seq<char>)
    requires
        cardbox.stages.len() == 5,
        has_distinct_hashes(cardbox),
        is_store_of(text, cardbox.snapshot()),
    ensures
        load_spec(text) == Some(cardbox.snapshot()),
        forall|stage: int, i: int|
            1 <= stage <= 5 && 0 <= i < cardbox.stage(stage).len() ==> {
                let envelope = #[trigger] cardbox.stage(stage)[i];
                load_spec(text)->0.contains_key(envelope.hash) && load_spec(text)->0[envelope.hash]
                    == (Stage { index: stage as u64, timestamp_ms: envelope.timestamp })
            },
{
    lemma_load_of_save(text, cardbox.snapshot());
    lemma_snapshot_records_stages(cardbox);
}

/// The records of the stages 1 to `last`, where no two envelopes carry the same hash.
proof fn lemma_snapshot_to(cardbox: CardboxView, last: int)
    requires
        cardbox.stages.len() == 5,
        has_distinct_hashes(cardbox),
        0 <= last <= 5,
    ensures
        forall|stage: int, i: int|
            1 <= stage <= last && 0 <= i < cardbox.stage(stage).len() ==> {
                let envelope = #[trigger] cardbox.stage(stage)[i];
                cardbox.snapshot_to(last).contains_key(envelope.hash) && cardbox.snapshot_to(
                    last,
                )[envelope.hash] == (Stage { index: stage as u64, timestamp_ms: envelope.timestamp })
            },
        forall|hash: u64| #[trigger]
            cardbox.snapshot_to(last).contains_key(hash) ==> exists|stage: int, i: int|
                1 <= stage <= last && 0 <= i < cardbox.stage(stage).len() && (
                #[trigger] cardbox.stage(stage)[i]).hash == hash,
    decreases last,
{
    if last > 0 {
        lemma_snapshot_to(cardbox, last - 1);
        let before = cardbox.snapshot_to(last - 1);
        let envelopes = cardbox.stage(last);
        let after = cardbox.snapshot_to(last);
        assert forall|stage: int, i: int|
            1 <= stage <= last && 0 <= i < cardbox.stage(stage).len() implies {
            let envelope = #[trigger] cardbox.stage(stage)[i];
            after.contains_key(envelope.hash) && after[envelope.hash] == (Stage {
                index: stage as u64,
                timestamp_ms: envelope.timestamp,
            })
        } by {
            let envelope = cardbox.stage(stage)[i];
            assert(envelope == cardbox.stages[stage - 1][i]);
            lemma_recorded_keys(before, envelopes, last, envelope.hash);
            if stage == last {
                assert(envelopes[i].hash == envelope.hash);
                assert forall|j: int| i < j < envelopes.len() implies (
                #[trigger] envelopes[j]).hash != envelopes[i].hash by {
                    assert(envelopes[j] == cardbox.stages[last - 1][j]);
                }
                lemma_recorded_holds(before, envelopes, last, i);
            } else {
                assert(before.contains_key(envelope.hash));
                assert forall|j: int| 0 <= j < envelopes.len() implies (
                #[trigger] envelopes[j]).hash != envelope.hash by {
                    assert(envelopes[j] == cardbox.stages[last - 1][j]);
                }
                lemma_recorded_keeps(before, envelopes, last, envelope.hash);
            }
        }
        assert forall|hash: u64| #[trigger] after.contains_key(hash) implies exists|
            stage: int,
            i: int,
        |
            1 <= stage <= last && 0 <= i < cardbox.stage(stage).len() && (
            #[trigger] cardbox.stage(stage)[i]).hash == hash by {
            lemma_recorded_keys(before, envelopes, last, hash);
            if before.contains_key(hash) {
                let (stage, i) = choose|stage: int, i: int|
                    1 <= stage <= last - 1 && 0 <= i < cardbox.stage(stage).len() && (
                    #[trigger] cardbox.stage(stage)[i]).hash == hash;
                assert(cardbox.stage(stage)[i].hash == hash);
            } else {
                let i = choose|i: int| 0 <= i < envelopes.len() && (#[trigger] envelopes[i]).hash == hash;
                assert(cardbox.stage(last)[i].hash == hash);
            }
        }
    }
}

} // verus!
