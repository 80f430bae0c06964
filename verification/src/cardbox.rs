//! Module that hosts the cardbox responsible for flashcard selection.
//!
//! A cardbox holds six queues. Stage 0 is the pool of flashcards that were never
//! studied. Stages 1 to 5 hold the flashcards that are being learned, each in an
//! envelope that tells when the flashcard entered its stage. A flashcard that was
//! answered correctly moves on by one stage, one that was not goes back to stage 1, and
//! a flashcard is dealt again only when the cooldown of its stage has passed.

use crate::common::time;
use crate::constants::{
    INITIAL_QUEUE_SIZE, STAGE1_COOLDOWN, STAGE2_COOLDOWN, STAGE3_COOLDOWN, STAGE4_COOLDOWN,
    STAGE5_COOLDOWN,
};
use crate::db::{self, is_store_of, load_spec, Stage};
use crate::error::Error;
use crate::flashcards::Flashcard;
use std::collections::{HashMap, VecDeque};
use vstd::prelude::*;
use vstd::std_specs::hash::group_hash_axioms;

verus! {

broadcast use group_hash_axioms;

/// Represents a flashcard with additional metadata.
#[derive(Debug)]
pub struct Envelope {
    /// The associated flashcard.
    pub flashcard: Flashcard,
    /// The hash of the flashcard.
    pub hash: u64,
    /// The time the flashcard entered its current stage (Unix time in milliseconds).
    pub timestamp: u64,
}

/// Represents the current learning progress: the number of flashcards in each of the
/// stages 0 to 5.
#[derive(Clone, Copy, Debug, PartialEq, Eq, Structural)]
pub struct Progress(pub usize, pub usize, pub usize, pub usize, pub usize, pub usize);

/// What a cardbox is set up with.
#[derive(Clone, Copy, Debug)]
pub struct Config {
    /// Number of flashcards that stage 1 is filled up to from the flashcards that were
    /// never studied.
    pub initial_queue_size: usize,
    /// For each of the stages 1 to 5 the time in milliseconds that a flashcard rests in
    /// it before it is dealt again.
    pub cooldowns: [u64; 5],
}

impl Config {
    /// The settings that the constants of the application give.
    pub open spec fn standard() -> Config {
        Config {
            initial_queue_size: INITIAL_QUEUE_SIZE,
            cooldowns: [
                STAGE1_COOLDOWN,
                STAGE2_COOLDOWN,
                STAGE3_COOLDOWN,
                STAGE4_COOLDOWN,
                STAGE5_COOLDOWN,
            ],
        }
    }
}

impl Default for Config {
    /// Returns the settings that the constants of the application give.
    fn default() -> (config: Self)
        ensures
            config == Config::standard(),
    {
        Config {
            initial_queue_size: INITIAL_QUEUE_SIZE,
            cooldowns: [
                STAGE1_COOLDOWN,
                STAGE2_COOLDOWN,
                STAGE3_COOLDOWN,
                STAGE4_COOLDOWN,
                STAGE5_COOLDOWN,
            ],
        }
    }
}

/// The envelope of `flashcard` when it enters a stage at the time `timestamp`.
pub open spec fn enveloped(flashcard: Flashcard, timestamp: u64) -> Envelope {
    Envelope { flashcard, hash: flashcard.fingerprint(), timestamp }
}

/// The envelopes of `flashcards` when they all enter a stage at the time `now`.
pub open spec fn admitted(flashcards: Seq<Flashcard>, now: u64) -> Seq<Envelope> {
    Seq::new(flashcards.len(), |i: int| enveloped(flashcards[i], now))
}

/// The record that `progress` holds for `flashcard`, if it holds one.
pub open spec fn record_of(progress: Map<u64, Stage>, flashcard: Flashcard) -> Option<Stage> {
    if progress.contains_key(flashcard.fingerprint()) {
        Some(progress[flashcard.fingerprint()])
    } else {
        None
    }
}

/// Whether `progress` holds a record for `flashcard` that names no stage from 1 to 5.
pub open spec fn is_corrupt_for(progress: Map<u64, Stage>, flashcard: Flashcard) -> bool {
    record_of(progress, flashcard) matches Some(record) && !(1 <= record.index <= 5)
}

/// Whether `progress` holds, for one of `flashcards`, a record that names no stage from
/// 1 to 5.
pub open spec fn is_corrupt(progress: Map<u64, Stage>, flashcards: Seq<Flashcard>) -> bool {
    exists|i: int| 0 <= i < flashcards.len() && is_corrupt_for(progress, #[trigger] flashcards[i])
}

/// Those of `flashcards` for which `progress` holds no record, in their order.
pub open spec fn unseen_of(progress: Map<u64, Stage>, flashcards: Seq<Flashcard>) -> Seq<
    Flashcard,
> {
    flashcards.filter(|flashcard: Flashcard| record_of(progress, flashcard) is None)
}

/// Those of `flashcards` that `progress` records in `stage`, in their order.
pub open spec fn recorded_of(progress: Map<u64, Stage>, flashcards: Seq<Flashcard>, stage: int)
    -> Seq<Flashcard> {
    flashcards.filter(
        |flashcard: Flashcard|
            record_of(progress, flashcard) matches Some(record) && record.index == stage,
    )
}

/// The envelopes of those of `flashcards` that `progress` records in `stage`, in their
/// order, each with the time that its record holds.
pub open spec fn restored(progress: Map<u64, Stage>, flashcards: Seq<Flashcard>, stage: int)
    -> Seq<Envelope> {
    let found = recorded_of(progress, flashcards, stage);
    Seq::new(
        found.len(),
        |i: int| enveloped(found[i], progress[found[i].fingerprint()].timestamp_ms),
    )
}

/// `records` after a record was written for each of `envelopes`, in their order, that
/// puts it in `stage`. Where two envelopes have the same hash the later one counts.
pub open spec fn recorded(records: Map<u64, Stage>, envelopes: Seq<Envelope>, stage: int) -> Map<
    u64,
    Stage,
>
    decreases envelopes.len(),
{
    if envelopes.len() == 0 {
        records
    } else {
        recorded(records, envelopes.drop_last(), stage).insert(
            envelopes.last().hash,
            Stage { index: stage as u64, timestamp_ms: envelopes.last().timestamp },
        )
    }
}

/// What a `Cardbox` holds.
pub struct CardboxView {
    /// Stage 0: the flashcards that were never studied, in the order of their source.
    pub unseen: Seq<Flashcard>,
    /// The stages 1 to 5: stage `k` stands at index `k - 1`, the flashcard that entered
    /// it first at the front.
    pub stages: Seq<Seq<Envelope>>,
    /// The progress that was loaded or saved last.
    pub progress: Map<u64, Stage>,
    /// What the cardbox was set up with.
    pub config: Config,
}

impl CardboxView {
    /// The queue of stage `stage`, for a stage from 1 to 5.
    pub open spec fn stage(self, stage: int) -> Seq<Envelope>
        recommends
            1 <= stage <= 5,
    {
        self.stages[stage - 1]
    }

    /// The cooldown of stage `stage`, for a stage from 1 to 5.
    pub open spec fn cooldown(self, stage: int) -> u64
        recommends
            1 <= stage <= 5,
    {
        self.config.cooldowns[stage - 1]
    }

    /// The number of flashcards in the stages 1 to 5.
    pub open spec fn num_active(self) -> nat {
        self.stages[0].len() + self.stages[1].len() + self.stages[2].len() + self.stages[3].len()
            + self.stages[4].len()
    }

    /// The number of all flashcards in the cardbox.
    pub open spec fn size(self) -> nat {
        self.unseen.len() + self.num_active()
    }

    /// What always holds of a cardbox: it has the five stages 1 to 5, every envelope
    /// carries the fingerprint of its flashcard, and the flashcards can be counted.
    pub open spec fn wf(self) -> bool {
        &&& self.stages.len() == 5
        &&& self.size() <= usize::MAX
        &&& forall|k: int, i: int|
            0 <= k < 5 && 0 <= i < self.stages[k].len() ==> (#[trigger] self.stages[k][i]).hash
                == self.stages[k][i].flashcard.fingerprint()
    }

    /// Whether the flashcard at the front of stage `stage` is due at the time `now`: its
    /// cooldown has passed since it entered the stage.
    pub open spec fn is_due(self, stage: int, now: u64) -> bool
        recommends
            1 <= stage <= 5,
    {
        self.stage(stage).len() > 0 && self.stage(stage)[0].timestamp + self.cooldown(stage)
            <= now
    }

    /// The stage that the next flashcard is dealt from at the time `now`: the highest one
    /// with a due flashcard at its front, if there is one.
    pub open spec fn next_due(self, now: u64) -> Option<int> {
        if self.is_due(5, now) {
            Some(5)
        } else if self.is_due(4, now) {
            Some(4)
        } else if self.is_due(3, now) {
            Some(3)
        } else if self.is_due(2, now) {
            Some(2)
        } else if self.is_due(1, now) {
            Some(1)
        } else {
            None
        }
    }

    /// Whether `dealt` is what is dealt at the time `now`: the flashcard at the front of
    /// the highest stage that has a due one, with that stage, or nothing where no stage
    /// has one.
    pub open spec fn deals(self, now: u64, dealt: Option<(&Flashcard, usize)>) -> bool {
        match dealt {
            Some((flashcard, stage)) => self.next_due(now) == Some(stage as int) && *flashcard
                == self.stage(stage as int)[0].flashcard,
            None => self.next_due(now) is None,
        }
    }

    /// The number of flashcards that move from stage 0 to stage 1 when stage 1 is filled
    /// up.
    pub open spec fn room(self) -> nat {
        if self.stages[0].len() >= self.config.initial_queue_size {
            0
        } else if self.unseen.len() <= self.config.initial_queue_size - self.stages[0].len() {
            self.unseen.len()
        } else {
            (self.config.initial_queue_size - self.stages[0].len()) as nat
        }
    }

    /// The cardbox after stage 1 was filled up from stage 0 at the time `now`: as long as
    /// stage 1 is below the initial queue size and stage 0 is not empty, the flashcard
    /// at the front of stage 0 moves to the back of stage 1.
    pub open spec fn top_up(self, now: u64) -> CardboxView {
        CardboxView {
            unseen: self.unseen.skip(self.room() as int),
            stages: self.stages.update(
                0,
                self.stages[0] + admitted(self.unseen.take(self.room() as int), now),
            ),
            ..self
        }
    }

    /// Whether a flashcard can leave stage `stage`. A stage that is none of the stages 1
    /// to 5 is invalid, and one that holds no flashcard is empty.
    pub open spec fn checked_stage(self, stage: int) -> Result<(), Error> {
        if !(1 <= stage <= 5) {
            Err(Error::InvalidStage)
        } else if self.stage(stage).len() == 0 {
            Err(Error::EmptyStage)
        } else {
            Ok(())
        }
    }

    /// The stage that a flashcard moves to when it is answered correctly in `stage`: the
    /// next one, and from stage 5 stage 5 again.
    pub open spec fn next_stage(stage: int) -> int {
        if stage < 5 {
            stage + 1
        } else {
            5
        }
    }

    /// The cardbox after the flashcard at the front of stage `from` moved to the back of
    /// stage `to` at the time `now`.
    pub open spec fn moved(self, from: int, to: int, now: u64) -> CardboxView
        recommends
            1 <= from <= 5,
            1 <= to <= 5,
            self.stage(from).len() > 0,
    {
        let envelope = Envelope { timestamp: now, ..self.stage(from)[0] };
        let taken = self.stages.update(from - 1, self.stage(from).drop_first());
        CardboxView { stages: taken.update(to - 1, taken[to - 1].push(envelope)), ..self }
    }

    /// The cardbox after the flashcard at the front of stage `stage` was answered
    /// correctly at the time `now`. It moves to the back of the next stage. Where it
    /// leaves stage 1, stage 1 is filled up.
    pub open spec fn advance(self, stage: int, now: u64) -> CardboxView
        recommends
            1 <= stage <= 5,
            self.stage(stage).len() > 0,
    {
        let moved = self.moved(stage, Self::next_stage(stage), now);
        if stage == 1 {
            moved.top_up(now)
        } else {
            moved
        }
    }

    /// The cardbox after the flashcard at the front of stage `stage` was not answered
    /// correctly at the time `now`: it moves to the back of stage 1.
    pub open spec fn reset(self, stage: int, now: u64) -> CardboxView
        recommends
            1 <= stage <= 5,
            self.stage(stage).len() > 0,
    {
        self.moved(stage, 1, now)
    }

    /// The cardbox after `flashcards` were put into it at the time `now`. A flashcard with
    /// a record in the progress goes to the back of the stage that the record names,
    /// with the time of the record. The others go to the back of stage 0. Then stage 1
    /// is filled up.
    pub open spec fn init(self, flashcards: Seq<Flashcard>, now: u64) -> CardboxView {
        self.sorted_in(flashcards).top_up(now)
    }

    /// The cardbox after `flashcards` were sorted into its stages by their records.
    pub open spec fn sorted_in(self, flashcards: Seq<Flashcard>) -> CardboxView {
        CardboxView {
            unseen: self.unseen + unseen_of(self.progress, flashcards),
            stages: Seq::new(
                5,
                |k: int| self.stages[k] + restored(self.progress, flashcards, k + 1),
            ),
            ..self
        }
    }

    /// The records of the flashcards of the stages 1 to `stage`.
    pub open spec fn snapshot_to(self, stage: int) -> Map<u64, Stage>
        decreases stage,
    {
        if stage <= 0 {
            Map::empty()
        } else {
            recorded(self.snapshot_to(stage - 1), self.stage(stage), stage)
        }
    }

    /// The progress of the cardbox as it is saved: one record for each flashcard of the
    /// stages 1 to 5 with its stage and the time it entered it, and none for the
    /// flashcards of stage 0.
    pub open spec fn snapshot(self) -> Map<u64, Stage> {
        self.snapshot_to(5)
    }
}

/// Represents a cardbox that by some logic deals the flashcards based on the user's
/// learning progress.
pub struct Cardbox {
    stage0: VecDeque<Flashcard>,
    stages: [VecDeque<Envelope>; 5],
    progress: HashMap<u64, Stage>,
    config: Config,
}

impl View for Cardbox {
    type V = CardboxView;

    closed spec fn view(&self) -> CardboxView {
        CardboxView {
            unseen: self.stage0@,
            stages: Seq::new(5, |k: int| self.stages[k]@),
            progress: self.progress@,
            config: self.config,
        }
    }
}

impl Cardbox {
    /// Creates a new flashcard cardbox with the progress that was loaded and the settings
    /// that the constants of the application give.
    pub fn new(progress: HashMap<u64, Stage>) -> (cardbox: Self)
        ensures
            cardbox@.wf(),
            cardbox@ == (CardboxView {
                unseen: Seq::empty(),
                stages: Seq::new(5, |k: int| Seq::empty()),
                progress: progress@,
                config: Config::standard(),
            }),
    {
        Self::with_config(progress, Config::default())
    }

    /// Creates a new flashcard cardbox with the progress that was loaded and the given
    /// settings.
    pub fn with_config(progress: HashMap<u64, Stage>, config: Config) -> (cardbox: Self)
        ensures
            cardbox@.wf(),
            cardbox@ == (CardboxView {
                unseen: Seq::empty(),
                stages: Seq::new(5, |k: int| Seq::empty()),
                progress: progress@,
                config,
            }),
    {
        let cardbox = Self {
            stage0: VecDeque::new(),
            stages: [
                VecDeque::new(),
                VecDeque::new(),
                VecDeque::new(),
                VecDeque::new(),
                VecDeque::new(),
            ],
            progress,
            config,
        };
        assert(cardbox@.stages == Seq::new(5, |k: int| Seq::<Envelope>::empty()));
        cardbox
    }

    /// Returns the number of flashcards currently being actively processed.
    pub fn num_active(&self) -> (count: usize)
        requires
            self@.wf(),
        ensures
            count == self@.num_active(),
    {
        self.stages[0].len() + self.stages[1].len() + self.stages[2].len() + self.stages[3].len()
            + self.stages[4].len()
    }

    /// Returns the number of all flashcards in the cardbox.
    pub fn size(&self) -> (count: usize)
        requires
            self@.wf(),
        ensures
            count == self@.size(),
    {
        self.stage0.len() + self.stages[0].len() + self.stages[1].len() + self.stages[2].len()
            + self.stages[3].len() + self.stages[4].len()
    }

    /// Returns the current progress.
    ///
    /// This is measured by simply counting the flashcards of each stage.
    pub fn progress(&self) -> (progress: Progress)
        ensures
            progress.0 == self@.unseen.len(),
            progress.1 == self@.stage(1).len(),
            progress.2 == self@.stage(2).len(),
            progress.3 == self@.stage(3).len(),
            progress.4 == self@.stage(4).len(),
            progress.5 == self@.stage(5).len(),
    {
        Progress(
            self.stage0.len(),
            self.stages[0].len(),
            self.stages[1].len(),
            self.stages[2].len(),
            self.stages[3].len(),
            self.stages[4].len(),
        )
    }

    /// Returns the next flashcard and its current stage at the time `now`: the flashcard
    /// at the front of the highest stage whose front is due. The flashcard stays where
    /// it is. Returns `None` where no stage has a due flashcard at its front.
    pub fn next_at(&self, now: u64) -> (dealt: Option<(&Flashcard, usize)>)
        ensures
            self@.deals(now, dealt),
    {
        let mut stage: usize = 5;
        while stage >= 1
            invariant
                stage <= 5,
                forall|above: int| stage < above <= 5 ==> !self@.is_due(above, now),
            decreases stage,
        {
            let queue = &self.stages[stage - 1];
            if queue.len() > 0 {
                let envelope = &queue[0];
                let due = match envelope.timestamp.checked_add(self.config.cooldowns[stage - 1]) {
                    Some(deadline) => deadline <= now,
                    None => false,
                };
                if due {
                    assert(self@.is_due(stage as int, now));
                    return Some((&envelope.flashcard, stage));
                }
            }
            assert(!self@.is_due(stage as int, now));
            stage -= 1;
        }
        None
    }

    /// Returns the next flashcard and its current stage, as `next_at` does at the time
    /// that the system clock tells.
    pub fn next(&self) -> (dealt: Result<Option<(&Flashcard, usize)>, Error>)
        ensures
            match dealt {
                Ok(dealt) => exists|now: u64| self@.deals(now, dealt),
                Err(e) => e == Error::Clock,
            },
    {
        match time::get_unix_time_millis() {
            Some(now) => {
                let dealt = self.next_at(now);
                assert(self@.deals(now, dealt));
                Ok(dealt)
            },
            None => Err(Error::Clock),
        }
    }

    /// Fills stage 1 up from stage 0.
    fn top_up(&mut self, now: u64)
        requires
            old(self)@.wf(),
        ensures
            final(self)@.wf(),
            final(self)@ == old(self)@.top_up(now),
    {
        let ghost before = self@;
        let ghost mut n: int = 0;
        assert(before.unseen.skip(0) == before.unseen);
        assert(before.stages[0] + admitted(before.unseen.take(0), now) == before.stages[0]);
        while self.stage0.len() > 0 && self.stages[0].len() < self.config.initial_queue_size
            invariant
                before.wf(),
                0 <= n <= before.unseen.len(),
                n == 0 || before.stages[0].len() + n <= before.config.initial_queue_size,
                self.config == before.config,
                self.progress@ == before.progress,
                self.stage0@ == before.unseen.skip(n),
                self.stages[0]@ == before.stages[0] + admitted(before.unseen.take(n), now),
                forall|k: int| 1 <= k < 5 ==> self.stages[k]@ == before.stages[k],
            decreases self.stage0.len(),
        {
            let flashcard = self.stage0.pop_front().unwrap();
            let hash = flashcard.get_hash();
            self.stages[0].push_back(Envelope { flashcard, hash, timestamp: now });
            proof {
                assert(before.unseen.skip(n).drop_first() == before.unseen.skip(n + 1));
                assert(before.unseen.skip(n)[0] == before.unseen[n]);
                assert(admitted(before.unseen.take(n + 1), now) == admitted(
                    before.unseen.take(n),
                    now,
                ).push(enveloped(before.unseen[n], now)));
                assert(self.stages[0]@ == before.stages[0] + admitted(
                    before.unseen.take(n + 1),
                    now,
                ));
                n = n + 1;
            }
        }
        proof {
            assert(n == before.room());
            assert(self@.stages == before.top_up(now).stages);
            assert(self@ == before.top_up(now));
        }
    }

    /// Increases the stage of the flashcard at the front of stage `current_stage` at the
    /// time `now`: the flashcard moves to the back of the next stage, or of stage 5 again
    /// where it was there, and rests there from `now` on. Where it leaves stage 1,
    /// stage 1 is filled up from stage 0.
    pub fn increase_stage_at(&mut self, current_stage: usize, now: u64) -> (done: Result<
        (),
        Error,
    >)
        requires
            old(self)@.wf(),
        ensures
            final(self)@.wf(),
            match done {
                Ok(_) => 1 <= current_stage <= 5 && old(self)@.stage(current_stage as int).len()
                    > 0 && final(self)@ == old(self)@.advance(current_stage as int, now),
                Err(e) => final(self)@ == old(self)@ && if 1 <= current_stage <= 5 {
                    e == Error::EmptyStage && old(self)@.stage(current_stage as int).len() == 0
                } else {
                    e == Error::InvalidStage
                },
            },
    {
        if current_stage < 1 || current_stage > 5 {
            return Err(Error::InvalidStage);
        }
        // let flashcards stay in the last stage forever
        let target: usize = if current_stage < 5 {
            current_stage + 1
        } else {
            5
        };
        match self.move_front(current_stage, target, now) {
            Ok(_) => {},
            Err(e) => {
                return Err(e);
            },
        }
        if current_stage == 1 {
            // refill stage 1 if necessary
            self.top_up(now);
        }
        Ok(())
    }

    /// Returns the error that keeps a flashcard from leaving stage `current_stage`, if
    /// there is one: the stage is none of the stages 1 to 5, or it is empty.
    pub fn check_stage(&self, current_stage: usize) -> (checked: Result<(), Error>)
        requires
            self@.wf(),
        ensures
            checked == self@.checked_stage(current_stage as int),
    {
        if current_stage < 1 || current_stage > 5 {
            Err(Error::InvalidStage)
        } else if self.stages[current_stage - 1].len() == 0 {
            Err(Error::EmptyStage)
        } else {
            Ok(())
        }
    }

    /// Increases the stage of the flashcard at the front of stage `current_stage`, as
    /// `increase_stage_at` does at the time that the system clock tells. The stage is
    /// checked before the clock is read: a stage that is none gives `InvalidStage`, an
    /// empty one `EmptyStage`, whatever the clock tells.
    pub fn increase_stage(&mut self, current_stage: usize) -> (done: Result<(), Error>)
        requires
            old(self)@.wf(),
        ensures
            final(self)@.wf(),
            match done {
                Ok(_) => old(self)@.checked_stage(current_stage as int) is Ok && exists|now: u64|
                    final(self)@ == old(self)@.advance(current_stage as int, now),
                Err(e) => final(self)@ == old(self)@ && e == match old(self)@.checked_stage(
                    current_stage as int,
                ) {
                    Ok(_) => Error::Clock,
                    Err(e) => e,
                },
            },
    {
        match self.check_stage(current_stage) {
            Ok(_) => {},
            Err(e) => {
                return Err(e);
            },
        }
        match time::get_unix_time_millis() {
            Some(now) => self.increase_stage_at(current_stage, now),
            None => Err(Error::Clock),
        }
    }

    /// Resets the stage of the flashcard at the front of stage `current_stage` at the
    /// time `now`: the flashcard moves to the back of stage 1 and rests there from `now`
    /// on.
    pub fn reset_stage_at(&mut self, current_stage: usize, now: u64) -> (done: Result<(), Error>)
        requires
            old(self)@.wf(),
        ensures
            final(self)@.wf(),
            match done {
                Ok(_) => 1 <= current_stage <= 5 && old(self)@.stage(current_stage as int).len()
                    > 0 && final(self)@ == old(self)@.reset(current_stage as int, now),
                Err(e) => final(self)@ == old(self)@ && if 1 <= current_stage <= 5 {
                    e == Error::EmptyStage && old(self)@.stage(current_stage as int).len() == 0
                } else {
                    e == Error::InvalidStage
                },
            },
    {
        if current_stage < 1 || current_stage > 5 {
            return Err(Error::InvalidStage);
        }
        self.move_front(current_stage, 1, now)
    }

    /// Resets the stage of the flashcard at the front of stage `current_stage`, as
    /// `reset_stage_at` does at the time that the system clock tells. The stage is
    /// checked before the clock is read: a stage that is none gives `InvalidStage`, an
    /// empty one `EmptyStage`, whatever the clock tells.
    pub fn reset_stage(&mut self, current_stage: usize) -> (done: Result<(), Error>)
        requires
            old(self)@.wf(),
        ensures
            final(self)@.wf(),
            match done {
                Ok(_) => old(self)@.checked_stage(current_stage as int) is Ok && exists|now: u64|
                    final(self)@ == old(self)@.reset(current_stage as int, now),
                Err(e) => final(self)@ == old(self)@ && e == match old(self)@.checked_stage(
                    current_stage as int,
                ) {
                    Ok(_) => Error::Clock,
                    Err(e) => e,
                },
            },
    {
        match self.check_stage(current_stage) {
            Ok(_) => {},
            Err(e) => {
                return Err(e);
            },
        }
        match time::get_unix_time_millis() {
            Some(now) => self.reset_stage_at(current_stage, now),
            None => Err(Error::Clock),
        }
    }

    /// Looks up the record of each of `flashcards` in the progress. Returns for each
    /// flashcard its hash and its record, or `CorruptStage` where one of the records
    /// names no stage from 1 to 5.
    fn look_up(&self, flashcards: &Vec<Flashcard>) -> (found: Result<
        Vec<(u64, Option<Stage>)>,
        Error,
    >)
        ensures
            match found {
                Ok(records) => !is_corrupt(self@.progress, flashcards@) && records.len()
                    == flashcards.len() && forall|j: int|
                    0 <= j < flashcards.len() ==> (#[trigger] records[j]).0
                        == flashcards[j].fingerprint() && records[j].1 == record_of(
                        self@.progress,
                        flashcards[j],
                    ),
                Err(e) => e == Error::CorruptStage && is_corrupt(self@.progress, flashcards@),
            },
    {
        let ghost cards = flashcards@;
        let ghost progress = self@.progress;
        let mut records: Vec<(u64, Option<Stage>)> = Vec::new();
        let mut i: usize = 0;
        while i < flashcards.len()
            invariant
                i <= flashcards.len(),
                cards == flashcards@,
                progress == self@.progress,
                records.len() == i,
                forall|j: int|
                    0 <= j < i ==> (#[trigger] records[j]).0 == cards[j].fingerprint()
                        && records[j].1 == record_of(progress, cards[j]) && !is_corrupt_for(
                        progress,
                        cards[j],
                    ),
            decreases flashcards.len() - i,
        {
            let hash = flashcards[i].get_hash();
            let record = match self.progress.get(&hash) {
                Some(stage) => {
                    if stage.index < 1 || stage.index > 5 {
                        assert(is_corrupt_for(progress, cards[i as int]));
                        return Err(Error::CorruptStage);
                    }
                    Some(*stage)
                },
                None => None,
            };
            records.push((hash, record));
            i += 1;
        }
        proof {
            assert forall|j: int| 0 <= j < cards.len() implies !is_corrupt_for(
                progress,
                #[trigger] cards[j],
            ) by {
                assert(records[j].0 == cards[j].fingerprint());
            }
        }
        Ok(records)
    }

    /// Puts `flashcards` into the stages that their records name, or into stage 0, and
    /// fills stage 1 up.
    fn put_in(&mut self, flashcards: Vec<Flashcard>, records: Vec<(u64, Option<Stage>)>, now: u64)
        requires
            old(self)@.wf(),
            old(self)@.size() + flashcards.len() <= usize::MAX,
            !is_corrupt(old(self)@.progress, flashcards@),
            records.len() == flashcards.len(),
            forall|j: int|
                0 <= j < flashcards.len() ==> (#[trigger] records[j]).0
                    == flashcards[j].fingerprint() && records[j].1 == record_of(
                    old(self)@.progress,
                    flashcards[j],
                ),
        ensures
            final(self)@.wf(),
            final(self)@ == old(self)@.init(flashcards@, now),
    {
        let ghost before = self@;
        let ghost cards = flashcards@;
        proof {
            assert(cards.take(0) == Seq::<Flashcard>::empty());
            lemma_sorted_in_none(before);
        }
        // Fill all stages according to the progress database
        let mut i: usize = 0;
        for flashcard in it: flashcards
            invariant
                it.seq() == cards,
                i == it.index(),
                before.wf(),
                before.size() + cards.len() <= usize::MAX,
                !is_corrupt(before.progress, cards),
                records.len() == cards.len(),
                forall|j: int|
                    0 <= j < cards.len() ==> (#[trigger] records[j]).0 == cards[j].fingerprint()
                        && records[j].1 == record_of(before.progress, cards[j]),
                self@ == before.sorted_in(cards.take(i as int)),
            decreases cards.len() - i,
        {
            let ghost sorted = self@;
            assert(flashcard == cards[i as int]);
            proof {
                assert(records[i as int].0 == cards[i as int].fingerprint());
                assert(!is_corrupt_for(before.progress, cards[i as int]));
                lemma_sorted_in_one_more(before, cards, i as int);
            }
            let (hash, record) = records[i];
            match record {
                Some(stage) => {
                    let k = (stage.index - 1) as usize;
                    self.stages[k].push_back(
                        Envelope { flashcard, hash, timestamp: stage.timestamp_ms },
                    );
                    assert(self@.stages == sorted.stages.update(
                        k as int,
                        sorted.stages[k as int].push(
                            enveloped(cards[i as int], stage.timestamp_ms),
                        ),
                    ));
                },
                None => {
                    self.stage0.push_back(flashcard);
                    assert(self@.stages == sorted.stages);
                },
            }
            assert(self@ == before.sorted_in(cards.take(i + 1)));
            i += 1;
        }
        proof {
            assert(cards.take(i as int) == cards);
            lemma_sorted_in_wf(before, cards);
        }
        // If there is still room in Stage 1, then fill it with flashcards from the cardbox
        self.top_up(now);
    }

    /// Puts `flashcards` into the cardbox at the time `now`. A flashcard that the progress
    /// holds a record for goes to the back of the stage that the record names, with the
    /// time of the record. The others go to the back of stage 0, in their order. Then
    /// stage 1 is filled up from stage 0. Where a record of one of the flashcards names
    /// no stage from 1 to 5, nothing is put in.
    pub fn init_at(&mut self, flashcards: Vec<Flashcard>, now: u64) -> (done: Result<(), Error>)
        requires
            old(self)@.wf(),
            old(self)@.size() + flashcards.len() <= usize::MAX,
        ensures
            final(self)@.wf(),
            match done {
                Ok(_) => !is_corrupt(old(self)@.progress, flashcards@) && final(self)@ == old(
                    self,
                )@.init(flashcards@, now),
                Err(e) => e == Error::CorruptStage && is_corrupt(
                    old(self)@.progress,
                    flashcards@,
                ) && final(self)@ == old(self)@,
            },
    {
        match self.look_up(&flashcards) {
            Ok(records) => {
                self.put_in(flashcards, records, now);
                Ok(())
            },
            Err(e) => Err(e),
        }
    }

    /// Puts `flashcards` into the cardbox, as `init_at` does at the time that the system
    /// clock tells. The records are looked up before the clock is read: a record that
    /// names no stage from 1 to 5 gives `CorruptStage`, whatever the clock tells.
    pub fn init(&mut self, flashcards: Vec<Flashcard>) -> (done: Result<(), Error>)
        requires
            old(self)@.wf(),
            old(self)@.size() + flashcards.len() <= usize::MAX,
        ensures
            final(self)@.wf(),
            match done {
                Ok(_) => !is_corrupt(old(self)@.progress, flashcards@) && exists|now: u64|
                    final(self)@ == old(self)@.init(flashcards@, now),
                Err(e) => final(self)@ == old(self)@ && e == if is_corrupt(
                    old(self)@.progress,
                    flashcards@,
                ) {
                    Error::CorruptStage
                } else {
                    Error::Clock
                },
            },
    {
        match self.look_up(&flashcards) {
            Ok(records) => match time::get_unix_time_millis() {
                Some(now) => {
                    self.put_in(flashcards, records, now);
                    Ok(())
                },
                None => Err(Error::Clock),
            },
            Err(e) => Err(e),
        }
    }

    /// Returns the progress of the cardbox as it is saved: one record for each flashcard
    /// of the stages 1 to 5, and none for the flashcards that were never studied.
    pub fn snapshot(&self) -> (records: HashMap<u64, Stage>)
        ensures
            records@ == self@.snapshot(),
    {
        let mut records: HashMap<u64, Stage> = HashMap::new();
        let mut k: usize = 0;
        while k < 5
            invariant
                k <= 5,
                records@ == self@.snapshot_to(k as int),
            decreases 5 - k,
        {
            let queue = &self.stages[k];
            let ghost envelopes = self@.stage(k + 1);
            assert(queue@ == envelopes);
            let mut i: usize = 0;
            assert(envelopes.take(0) == Seq::<Envelope>::empty());
            while i < queue.len()
                invariant
                    k < 5,
                    i <= queue.len(),
                    queue@ == envelopes,
                    records@ == recorded(
                        self@.snapshot_to(k as int),
                        envelopes.take(i as int),
                        k + 1,
                    ),
                decreases queue.len() - i,
            {
                let envelope = &queue[i];
                let stage = Stage { index: (k + 1) as u64, timestamp_ms: envelope.timestamp };
                records.insert(envelope.hash, stage);
                proof {
                    assert(envelopes.take(i + 1).drop_last() == envelopes.take(i as int));
                    assert(envelopes.take(i + 1).last() == envelopes[i as int]);
                }
                i += 1;
            }
            assert(envelopes.take(i as int) == envelopes);
            k += 1;
        }
        records
    }

    /// Saves the progress: the progress of the cardbox becomes the records of the
    /// flashcards of its stages 1 to 5, and nothing else. Returns the text of the store
    /// that holds this progress, which loads back as the same progress.
    pub fn save(&mut self) -> (text: String)
        ensures
            final(self)@ == (CardboxView { progress: old(self)@.snapshot(), ..old(self)@ }),
            is_store_of(text@, old(self)@.snapshot()),
            load_spec(text@) == Some(old(self)@.snapshot()),
    {
        let ghost before = self@;
        self.progress = self.snapshot();
        assert(self@.stages == before.stages);
        db::save(&self.progress)
    }

    /// Moves the flashcard at the front of stage `from` to the back of stage `to`.
    fn move_front(&mut self, from: usize, to: usize, now: u64) -> (done: Result<(), Error>)
        requires
            old(self)@.wf(),
            1 <= from <= 5,
            1 <= to <= 5,
        ensures
            final(self)@.wf(),
            match done {
                Ok(_) => old(self)@.stage(from as int).len() > 0 && final(self)@ == old(
                    self,
                )@.moved(from as int, to as int, now),
                Err(e) => e == Error::EmptyStage && old(self)@.stage(from as int).len() == 0
                    && final(self)@ == old(self)@,
            },
    {
        let ghost before = self@;
        match self.stages[from - 1].pop_front() {
            Some(envelope) => {
                let mut envelope = envelope;
                envelope.timestamp = now;
                let ghost taken = before.stages.update(
                    from - 1,
                    before.stage(from as int).drop_first(),
                );
                assert(self@.stages == taken);
                self.stages[to - 1].push_back(envelope);
                proof {
                    assert(self@.stages == taken.update(to - 1, taken[to - 1].push(envelope)));
                    assert(self@ == before.moved(from as int, to as int, now));
                    lemma_moved_keeps_size(before, from as int, to as int, now);
                }
                Ok(())
            },
            None => {
                assert(self@.stages == before.stages);
                Err(Error::EmptyStage)
            },
        }
    }
}

/// Sorting no flashcards into a cardbox leaves it as it is.
pub proof fn lemma_sorted_in_none(cardbox: CardboxView)
    requires
        cardbox.stages.len() == 5,
    ensures
        cardbox.sorted_in(Seq::empty()) == cardbox,
{
    let none = Seq::<Flashcard>::empty();
    assert(unseen_of(cardbox.progress, none) == Seq::<Flashcard>::empty());
    assert(cardbox.unseen + unseen_of(cardbox.progress, none) == cardbox.unseen);
    assert forall|k: int| 0 <= k < 5 implies cardbox.stages[k] + restored(
        cardbox.progress,
        none,
        k + 1,
    ) == #[trigger] cardbox.stages[k] by {
        assert(recorded_of(cardbox.progress, none, k + 1) == Seq::<Flashcard>::empty());
    }
    assert(cardbox.sorted_in(none).stages == cardbox.stages);
}

/// Sorting one more flashcard into a cardbox puts it at the back of the stage that its
/// record names, with the time of its record, or at the back of stage 0 where it has no
/// record, and leaves everything else as it is.
pub proof fn lemma_sorted_in_one_more(cardbox: CardboxView, flashcards: Seq<Flashcard>, n: int)
    requires
        cardbox.stages.len() == 5,
        0 <= n < flashcards.len(),
        !is_corrupt_for(cardbox.progress, flashcards[n]),
    ensures
        ({
            let fewer = cardbox.sorted_in(flashcards.take(n));
            let more = cardbox.sorted_in(flashcards.take(n + 1));
            match record_of(cardbox.progress, flashcards[n]) {
                Some(record) => more == (CardboxView {
                    stages: fewer.stages.update(
                        record.index - 1,
                        fewer.stages[record.index - 1].push(
                            enveloped(flashcards[n], record.timestamp_ms),
                        ),
                    ),
                    ..fewer
                }),
                None => more == (CardboxView {
                    unseen: fewer.unseen.push(flashcards[n]),
                    ..fewer
                }),
            }
        }),
{
    reveal(Seq::filter);
    let progress = cardbox.progress;
    let card = flashcards[n];
    let fewer = cardbox.sorted_in(flashcards.take(n));
    let more = cardbox.sorted_in(flashcards.take(n + 1));
    assert(flashcards.take(n + 1).drop_last() == flashcards.take(n));
    assert(flashcards.take(n + 1).last() == card);
    match record_of(progress, card) {
        Some(record) => {
            assert(unseen_of(progress, flashcards.take(n + 1)) == unseen_of(
                progress,
                flashcards.take(n),
            ));
            let stages = fewer.stages.update(
                record.index - 1,
                fewer.stages[record.index - 1].push(enveloped(card, record.timestamp_ms)),
            );
            assert forall|k: int| 0 <= k < 5 implies #[trigger] more.stages[k] == stages[k] by {
                if k == record.index - 1 {
                    assert(recorded_of(progress, flashcards.take(n + 1), k + 1) == recorded_of(
                        progress,
                        flashcards.take(n),
                        k + 1,
                    ).push(card));
                    assert(restored(progress, flashcards.take(n + 1), k + 1) == restored(
                        progress,
                        flashcards.take(n),
                        k + 1,
                    ).push(enveloped(card, record.timestamp_ms)));
                } else {
                    assert(recorded_of(progress, flashcards.take(n + 1), k + 1) == recorded_of(
                        progress,
                        flashcards.take(n),
                        k + 1,
                    ));
                }
            }
            assert(more.stages == stages);
        },
        None => {
            assert(unseen_of(progress, flashcards.take(n + 1)) == unseen_of(
                progress,
                flashcards.take(n),
            ).push(card));
            assert(more.unseen == fewer.unseen.push(card));
            assert forall|k: int| 0 <= k < 5 implies #[trigger] more.stages[k]
                == fewer.stages[k] by {
                assert(recorded_of(progress, flashcards.take(n + 1), k + 1) == recorded_of(
                    progress,
                    flashcards.take(n),
                    k + 1,
                ));
            }
            assert(more.stages == fewer.stages);
        },
    }
}

/// Sorting flashcards into a cardbox adds their number to its size and keeps it
/// well-formed as long as the flashcards can still be counted.
pub proof fn lemma_sorted_in_wf(cardbox: CardboxView, flashcards: Seq<Flashcard>)
    requires
        cardbox.wf(),
        !is_corrupt(cardbox.progress, flashcards),
    ensures
        cardbox.sorted_in(flashcards).size() == cardbox.size() + flashcards.len(),
        cardbox.size() + flashcards.len() <= usize::MAX ==> cardbox.sorted_in(flashcards).wf(),
    decreases flashcards.len(),
{
    if flashcards.len() == 0 {
        assert(flashcards == Seq::<Flashcard>::empty());
        lemma_sorted_in_none(cardbox);
    } else {
        let n = flashcards.len() - 1;
        let fewer = flashcards.take(n);
        assert forall|i: int| 0 <= i < fewer.len() implies !is_corrupt_for(
            cardbox.progress,
            #[trigger] fewer[i],
        ) by {
            assert(fewer[i] == flashcards[i]);
        }
        lemma_sorted_in_wf(cardbox, fewer);
        assert(flashcards.take(n + 1) == flashcards);
        assert(!is_corrupt_for(cardbox.progress, flashcards[n]));
        lemma_sorted_in_one_more(cardbox, flashcards, n);
    }
}

/// A flashcard that moves from the front of one stage to the back of another leaves the
/// number of flashcards in the cardbox as it is.
pub proof fn lemma_moved_keeps_size(cardbox: CardboxView, from: int, to: int, now: u64)
    requires
        cardbox.stages.len() == 5,
        1 <= from <= 5,
        1 <= to <= 5,
        cardbox.stage(from).len() > 0,
    ensures
        cardbox.moved(from, to, now).stages.len() == 5,
        cardbox.moved(from, to, now).unseen == cardbox.unseen,
        cardbox.moved(from, to, now).size() == cardbox.size(),
{
}

} // verus!
