//! Connection-orchestration engine.
//!
//! A running test is coordinated by a single task that owns all mutable run
//! state. Every other actor (each in-flight connection unit) talks to it
//! through one multi-producer event channel. The decisions that task makes are
//! collected here as a pure state machine: [`ConnectionManager`] holds the run
//! state, and [`ConnectionManager::handle_message`] consumes one event and
//! says what the coordinator must do next (which samples to forward, how many
//! replacement units to spawn, whether the run is over). The asynchronous
//! plumbing around it only performs those actions.

use vstd::prelude::*;

verus! {

/// The number of accepted samples after which ramp-up mode raises the
/// concurrency level by one.
pub const REQUESTS_THRESHOLD: u64 = 10;

/// One event on the coordinator's channel: a latency measurement from a unit,
/// a unit's terminal lifecycle event, or a control command from the consumer.
#[derive(Clone, Copy, Debug, PartialEq, Eq, Structural)]
pub enum Message {
    Data(u64),
    Pause,
    Resume,
    Stop,
    ConnectionEnded,
}

/// One entry of the result stream: a raw latency in fixed-population mode, or
/// a latency tagged with the concurrency level in effect when it was accepted.
#[derive(Clone, Copy, Debug, PartialEq, Eq, Structural)]
pub enum Sample {
    Plain(u64),
    Leveled(u64, u64),
}

/// What the coordinator must do after handling one message: forward `emit`
/// (the sample accepted from the unit, verbatim or level-tagged), then forward
/// `sentinel` (the one out-of-band ramp-complete marker, if the ramp just
/// finished), spawn `spawn` new connection units, and exit its loop when
/// `done` holds.
#[derive(Clone, Copy, Debug, PartialEq, Eq)]
pub struct StepResult {
    pub emit: Option<Sample>,
    pub sentinel: Option<Sample>,
    pub spawn: u64,
    pub done: bool,
}

/// The coordinator's run state. Only the coordinating task ever mutates it.
///
/// In fixed-population mode (`increase == false`) the target `cap` is the
/// requested population and never changes. In ramp-up mode `cap` is the
/// current concurrency level, starting at 1 and rising toward the ceiling
/// `max`; `requests` counts samples accepted at the current level.
#[derive(Clone, Copy, Debug, PartialEq, Eq, Structural)]
pub struct ConnectionManager {
    pub increase: bool,
    pub cap: u64,
    pub max: u64,
    pub active: u64,
    pub requests: u64,
    pub paused: bool,
    pub stopped: bool,
}

/// The mathematical value of one transition: the state after the message and
/// everything the coordinator must do for it.
pub ghost struct Step {
    pub post: ConnectionManager,
    pub emit: Option<Sample>,
    pub sentinel: Option<Sample>,
    pub spawn: int,
    pub done: bool,
}

impl ConnectionManager {
    /// Well-formedness of the run state; established by the constructors and
    /// preserved by every transition.
    pub open spec fn wf(self) -> bool {
        &&& self.active <= self.cap
        &&& if self.increase {
            &&& self.max < u64::MAX
            &&& 1 <= self.cap <= self.max + 1
            &&& self.requests < REQUESTS_THRESHOLD
            &&& (self.cap > self.max && self.max > 0 ==> self.stopped)
        } else {
            &&& self.cap == self.max
            &&& self.requests == 0
        }
    }

    /// The state a fixed-population run starts in: the full population is
    /// spawned up front.
    pub open spec fn spec_initial_constant(n: u64) -> ConnectionManager {
        ConnectionManager {
            increase: false,
            cap: n,
            max: n,
            active: n,
            requests: 0,
            paused: false,
            stopped: false,
        }
    }

    /// The state a ramp-up run starts in: level 1, with a single unit spawned
    /// to bootstrap the first sample.
    pub open spec fn spec_initial_increase(max: u64) -> ConnectionManager {
        ConnectionManager {
            increase: true,
            cap: 1,
            max: max,
            active: 1,
            requests: 0,
            paused: false,
            stopped: false,
        }
    }

    /// Saturating retirement of one unit: a straggler lifecycle event must
    /// never drive the bookkeeping below zero.
    pub open spec fn spec_retire(self) -> ConnectionManager {
        ConnectionManager {
            active: if self.active > 0 { (self.active - 1) as u64 } else { 0 },
            ..self
        }
    }

    /// How many units a refill spawns from state `self`: enough to bring the
    /// active count up to the target, unless paused.
    pub open spec fn spec_refill(self) -> int {
        if !self.paused && self.active < self.cap {
            self.cap - self.active
        } else {
            0
        }
    }

    /// One transition of a fixed-population coordinator (`self` not stopped).
    pub open spec fn spec_step_constant(self, m: Message) -> Step {
        if m == Message::Stop {
            Step {
                post: ConnectionManager { stopped: true, ..self },
                emit: None,
                sentinel: None,
                spawn: 0,
                done: true,
            }
        } else {
            let s1 = match m {
                Message::Data(latency) => self,
                Message::ConnectionEnded => self.spec_retire(),
                Message::Pause => ConnectionManager { paused: true, ..self },
                Message::Resume => ConnectionManager { paused: false, ..self },
                Message::Stop => self,
            };
            let emit = match m {
                Message::Data(latency) => Some(Sample::Plain(latency)),
                _ => None,
            };
            let spawn = s1.spec_refill();
            Step {
                post: ConnectionManager { active: (s1.active + spawn) as u64, ..s1 },
                emit,
                sentinel: None,
                spawn,
                done: false,
            }
        }
    }

    /// One transition of a ramp-up coordinator (`self` not stopped).
    ///
    /// A sample is accepted only while the level is within the ceiling; every
    /// `REQUESTS_THRESHOLD` accepted samples the level rises by one, and the
    /// step that would push it past the ceiling emits the single sentinel
    /// sample and ends the run.
    pub open spec fn spec_step_increase(self, m: Message) -> Step {
        if m == Message::Stop {
            Step {
                post: ConnectionManager { stopped: true, ..self },
                emit: None,
                sentinel: None,
                spawn: 0,
                done: true,
            }
        } else {
            let s1 = match m {
                Message::Data(latency) => if self.cap <= self.max {
                    ConnectionManager { requests: (self.requests + 1) as u64, ..self }
                } else {
                    self
                },
                Message::ConnectionEnded => self.spec_retire(),
                Message::Pause => ConnectionManager { paused: true, ..self },
                Message::Resume => ConnectionManager { paused: false, ..self },
                Message::Stop => self,
            };
            let emit = match m {
                Message::Data(latency) => if self.cap <= self.max {
                    Some(Sample::Leveled(latency, self.cap))
                } else {
                    None
                },
                _ => None,
            };
            if s1.cap > s1.max {
                // The ceiling was already exceeded when the run began (a
                // ceiling of zero): only bookkeeping, never a refill.
                Step { post: s1, emit, sentinel: None, spawn: 0, done: false }
            } else {
                let s2 = if s1.requests >= REQUESTS_THRESHOLD {
                    ConnectionManager { cap: (s1.cap + 1) as u64, requests: 0, ..s1 }
                } else {
                    s1
                };
                if s2.cap > s2.max {
                    Step {
                        post: ConnectionManager { stopped: true, ..s2 },
                        emit,
                        sentinel: Some(Sample::Leveled(u64::MAX, s2.cap)),
                        spawn: 0,
                        done: true,
                    }
                } else {
                    let spawn = s2.spec_refill();
                    Step {
                        post: ConnectionManager { active: (s2.active + spawn) as u64, ..s2 },
                        emit,
                        sentinel: None,
                        spawn,
                        done: false,
                    }
                }
            }
        }
    }

    /// The complete transition function. A stopped coordinator is inert:
    /// events that straggle in after the run ended change nothing and produce
    /// nothing.
    pub open spec fn spec_step(self, m: Message) -> Step {
        if self.stopped {
            Step { post: self, emit: None, sentinel: None, spawn: 0, done: true }
        } else if self.increase {
            self.spec_step_increase(m)
        } else {
            self.spec_step_constant(m)
        }
    }
}

impl ConnectionManager {
    /// Starts a fixed-population run over `n` connection units. Returns the
    /// initial run state together with the number of units to spawn up front,
    /// so the full population is live within one scheduling step of the start.
    pub fn new_constant(n: u64) -> (r: (ConnectionManager, u64))
        ensures
            r.0 == ConnectionManager::spec_initial_constant(n),
            r.1 == n,
            r.0.wf(),
    {
        (
            ConnectionManager {
                increase: false,
                cap: n,
                max: n,
                active: n,
                requests: 0,
                paused: false,
                stopped: false,
            },
            n,
        )
    }

    /// Starts a ramp-up run with concurrency ceiling `max`. Returns the
    /// initial run state together with the single bootstrap unit to spawn.
    ///
    /// The ceiling must leave room for the sentinel's over-cap level
    /// `max + 1` to be representable.
    pub fn new_increase(max: u64) -> (r: (ConnectionManager, u64))
        requires
            max < u64::MAX,
        ensures
            r.0 == ConnectionManager::spec_initial_increase(max),
            r.1 == 1,
            r.0.wf(),
    {
        (
            ConnectionManager {
                increase: true,
                cap: 1,
                max: max,
                active: 1,
                requests: 0,
                paused: false,
                stopped: false,
            },
            1,
        )
    }

    /// Consumes one event and returns what the coordinator must do for it.
    ///
    /// The new state and the result are exactly [`Self::spec_step`] of the old
    /// state; the remaining clauses restate the guarantees a caller most often
    /// needs: a stopped run is inert and stays stopped, `Stop` always stops,
    /// nothing is spawned while paused and the active count cannot grow then,
    /// a sentinel only appears at the step that ends the ramp, and after an
    /// unpaused live step the population is refilled to its target.
    pub fn handle_message(&mut self, m: Message) -> (r: StepResult)
        requires
            old(self).wf(),
        ensures
            final(self).wf(),
            *final(self) == old(self).spec_step(m).post,
            r.emit == old(self).spec_step(m).emit,
            r.sentinel == old(self).spec_step(m).sentinel,
            r.spawn == old(self).spec_step(m).spawn,
            r.done == old(self).spec_step(m).done,
            old(self).stopped ==> *final(self) == *old(self) && r.emit is None
                && r.sentinel is None && r.spawn == 0,
            final(self).stopped == (old(self).stopped || m == Message::Stop
                || r.sentinel is Some),
            r.done == final(self).stopped,
            old(self).paused && m != Message::Resume ==> final(self).active <= old(self).active
                && r.spawn == 0,
            final(self).paused ==> r.spawn == 0,
            !final(self).paused && !final(self).stopped && final(self).cap <= final(self).max
                ==> final(self).active == final(self).cap,
            final(self).increase == old(self).increase,
            final(self).max == old(self).max,
            !old(self).increase ==> final(self).cap == old(self).cap,
            r.sentinel is Some ==> r.sentinel == Some(Sample::Leveled(u64::MAX, final(self).cap))
                && final(self).cap == final(self).max + 1,
    {
        if self.stopped {
            return StepResult { emit: None, sentinel: None, spawn: 0, done: true };
        }
        match m {
            Message::Stop => {
                self.stopped = true;
                return StepResult { emit: None, sentinel: None, spawn: 0, done: true };
            },
            Message::ConnectionEnded => {
                if self.active > 0 {
                    self.active = self.active - 1;
                }
            },
            Message::Pause => {
                self.paused = true;
            },
            Message::Resume => {
                self.paused = false;
            },
            Message::Data(_) => {
                if self.increase && self.cap <= self.max {
                    self.requests = self.requests + 1;
                }
            },
        }
        let emit = match m {
            Message::Data(latency) => if !self.increase {
                Some(Sample::Plain(latency))
            } else if self.cap <= self.max {
                Some(Sample::Leveled(latency, self.cap))
            } else {
                None
            },
            _ => None,
        };
        if self.increase {
            if self.cap > self.max {
                return StepResult { emit, sentinel: None, spawn: 0, done: false };
            }
            if self.requests >= REQUESTS_THRESHOLD {
                self.cap = self.cap + 1;
                self.requests = 0;
            }
            if self.cap > self.max {
                self.stopped = true;
                return StepResult {
                    emit,
                    sentinel: Some(Sample::Leveled(u64::MAX, self.cap)),
                    spawn: 0,
                    done: true,
                };
            }
        }
        let spawn = if !self.paused && self.active < self.cap {
            self.cap - self.active
        } else {
            0
        };
        self.active = self.active + spawn;
        StepResult { emit, sentinel: None, spawn, done: false }
    }
}

/// How many events of `ms` are terminal lifecycle events.
pub open spec fn count_ended(ms: Seq<Message>) -> int
    decreases ms.len(),
{
    if ms.len() == 0 {
        0
    } else {
        (if ms[0] == Message::ConnectionEnded {
            1int
        } else {
            0int
        }) + count_ended(ms.drop_first())
    }
}

impl ConnectionManager {
    /// The state after the coordinator has consumed every event of `ms` in
    /// order, starting from `self`.
    pub open spec fn spec_run(self, ms: Seq<Message>) -> ConnectionManager
        decreases ms.len(),
    {
        if ms.len() == 0 {
            self
        } else {
            self.spec_step(ms[0]).post.spec_run(ms.drop_first())
        }
    }

    /// The transition taken for each event of `ms`, in order.
    pub open spec fn spec_outputs(self, ms: Seq<Message>) -> Seq<Step>
        decreases ms.len(),
    {
        if ms.len() == 0 {
            Seq::empty()
        } else {
            seq![self.spec_step(ms[0])] + self.spec_step(ms[0]).post.spec_outputs(
                ms.drop_first(),
            )
        }
    }

    /// How many samples the run accepts into the result stream (the sentinel
    /// not counted).
    pub open spec fn spec_accepted(self, ms: Seq<Message>) -> int
        decreases ms.len(),
    {
        if ms.len() == 0 {
            0
        } else {
            (if self.spec_step(ms[0]).emit is Some {
                1int
            } else {
                0int
            }) + self.spec_step(ms[0]).post.spec_accepted(ms.drop_first())
        }
    }

    /// How many replacement units the run spawns, beyond the initial
    /// population.
    pub open spec fn spec_spawned(self, ms: Seq<Message>) -> int
        decreases ms.len(),
    {
        if ms.len() == 0 {
            0
        } else {
            self.spec_step(ms[0]).spawn + self.spec_step(ms[0]).post.spec_spawned(
                ms.drop_first(),
            )
        }
    }

    /// Every event of `ms` that retires a unit arrives while at least one
    /// unit is live: the trace contains no straggler lifecycle events.
    pub open spec fn no_stragglers(self, ms: Seq<Message>) -> bool
        decreases ms.len(),
    {
        if ms.len() == 0 {
            true
        } else {
            &&& (ms[0] == Message::ConnectionEnded && !self.stopped ==> self.active > 0)
            &&& self.spec_step(ms[0]).post.no_stragglers(ms.drop_first())
        }
    }
}

impl ConnectionManager {
    /// Well-formedness is preserved by every transition, and a transition is
    /// done exactly when it leaves the run stopped.
    pub proof fn lemma_step_wf(self, m: Message)
        requires
            self.wf(),
        ensures
            self.spec_step(m).post.wf(),
            self.spec_step(m).done == self.spec_step(m).post.stopped,
            self.stopped ==> self.spec_step(m).post == self,
            self.spec_step(m).post.stopped ==> (self.stopped || m == Message::Stop
                || self.spec_step(m).sentinel is Some),
            0 <= self.spec_step(m).spawn,
            self.spec_step(m).post.increase == self.increase,
            self.spec_step(m).post.max == self.max,
    {
    }

    /// The mode and the ceiling of a run never change.
    pub proof fn lemma_run_mode(self, ms: Seq<Message>)
        ensures
            self.spec_run(ms).increase == self.increase,
            self.spec_run(ms).max == self.max,
        decreases ms.len(),
    {
        if ms.len() > 0 {
            self.spec_step(ms[0]).post.lemma_run_mode(ms.drop_first());
        }
    }

    /// Well-formedness is preserved by every finite run.
    pub proof fn lemma_run_wf(self, ms: Seq<Message>)
        requires
            self.wf(),
        ensures
            self.spec_run(ms).wf(),
        decreases ms.len(),
    {
        if ms.len() > 0 {
            self.lemma_step_wf(ms[0]);
            self.spec_step(ms[0]).post.lemma_run_wf(ms.drop_first());
        }
    }

    /// A stopped coordinator is inert: any further events leave the state
    /// unchanged and every transition for them emits nothing, spawns nothing.
    pub proof fn lemma_stopped_inert(self, ms: Seq<Message>)
        requires
            self.stopped,
        ensures
            self.spec_run(ms) == self,
            forall|j: int|
                0 <= j < ms.len() ==> (#[trigger] self.spec_outputs(ms)[j]).emit is None
                    && self.spec_outputs(ms)[j].sentinel is None
                    && self.spec_outputs(ms)[j].spawn == 0,
        decreases ms.len(),
    {
        if ms.len() > 0 {
            self.lemma_stopped_inert(ms.drop_first());
            assert forall|j: int| 0 <= j < ms.len() implies (#[trigger] self.spec_outputs(
                ms,
            )[j]).emit is None && self.spec_outputs(ms)[j].sentinel is None && self.spec_outputs(
                ms,
            )[j].spawn == 0 by {
                if j > 0 {
                    self.lemma_outputs_len(ms.drop_first());
                    assert(self.spec_outputs(ms)[j] == self.spec_outputs(ms.drop_first())[j - 1]);
                }
            }
        }
    }

    /// Once a run has stopped it stays stopped.
    pub proof fn lemma_stopped_monotone(self, ms: Seq<Message>)
        ensures
            self.stopped ==> self.spec_run(ms).stopped,
        decreases ms.len(),
    {
        if ms.len() > 0 {
            self.spec_step(ms[0]).post.lemma_stopped_monotone(ms.drop_first());
        }
    }

    /// The `j`-th transition of a run is the step taken from the state the
    /// first `j` events lead to.
    pub proof fn lemma_outputs_index(self, ms: Seq<Message>, j: int)
        requires
            0 <= j < ms.len(),
        ensures
            self.spec_outputs(ms).len() == ms.len(),
            self.spec_outputs(ms)[j] == self.spec_run(ms.take(j)).spec_step(ms[j]),
            self.spec_run(ms.take(j + 1)) == self.spec_run(ms.take(j)).spec_step(ms[j]).post,
        decreases ms.len(),
    {
        self.lemma_outputs_len(ms);
        if j == 0 {
            assert(ms.take(0) =~= Seq::<Message>::empty());
            assert(ms.take(1) =~= seq![ms[0]]);
            assert(ms.take(1).drop_first() =~= Seq::<Message>::empty());
            assert(ms.take(1)[0] == ms[0]);
            let post = self.spec_step(ms[0]).post;
            assert(self.spec_run(ms.take(1)) == post.spec_run(ms.take(1).drop_first()));
            assert(post.spec_run(Seq::<Message>::empty()) == post);
        } else {
            let post = self.spec_step(ms[0]).post;
            post.lemma_outputs_index(ms.drop_first(), j - 1);
            assert(ms.drop_first().take(j - 1) =~= ms.take(j).drop_first());
            assert(ms.drop_first().take(j) =~= ms.take(j + 1).drop_first());
            assert(ms.drop_first()[j - 1] == ms[j]);
            assert(ms.take(j)[0] == ms[0]);
            assert(ms.take(j + 1)[0] == ms[0]);
            assert(self.spec_run(ms.take(j)) == post.spec_run(ms.take(j).drop_first()));
            assert(self.spec_run(ms.take(j + 1)) == post.spec_run(ms.take(j + 1).drop_first()));
            assert(self.spec_outputs(ms)[j] == post.spec_outputs(ms.drop_first())[j - 1]);
        }
    }

    /// A run takes exactly one transition per event.
    pub proof fn lemma_outputs_len(self, ms: Seq<Message>)
        ensures
            self.spec_outputs(ms).len() == ms.len(),
        decreases ms.len(),
    {
        if ms.len() > 0 {
            self.spec_step(ms[0]).post.lemma_outputs_len(ms.drop_first());
        }
    }

    /// Termination is terminal: after any transition of a run reports `done`
    /// (the run was stopped, or the sentinel went out), every later
    /// transition emits nothing and spawns nothing. In particular at most one
    /// sentinel is ever emitted and no sample follows it.
    pub proof fn lemma_no_output_after_done(self, ms: Seq<Message>, i: int, j: int)
        requires
            0 <= i < j < ms.len(),
            self.spec_outputs(ms)[i].done,
        ensures
            self.spec_outputs(ms)[j].emit is None,
            self.spec_outputs(ms)[j].sentinel is None,
            self.spec_outputs(ms)[j].spawn == 0,
    {
        self.lemma_outputs_index(ms, i);
        self.lemma_outputs_index(ms, j);
        let si = self.spec_run(ms.take(i));
        si.lemma_done_iff_stopped(ms[i]);
        let si1 = self.spec_run(ms.take(i + 1));
        assert(ms.take(j) =~= ms.take(i + 1) + ms.take(j).skip(i + 1));
        self.lemma_run_append(ms.take(i + 1), ms.take(j).skip(i + 1));
        si1.lemma_stopped_monotone(ms.take(j).skip(i + 1));
    }

    /// A transition reports `done` exactly when it leaves the run stopped.
    pub proof fn lemma_done_iff_stopped(self, m: Message)
        ensures
            self.spec_step(m).done == self.spec_step(m).post.stopped,
            self.spec_step(m).done ==> self.spec_step(m).post.stopped,
    {
    }

    /// Running a concatenated trace runs its parts in order.
    pub proof fn lemma_run_append(self, ms1: Seq<Message>, ms2: Seq<Message>)
        ensures
            self.spec_run(ms1 + ms2) == self.spec_run(ms1).spec_run(ms2),
        decreases ms1.len(),
    {
        if ms1.len() == 0 {
            assert(ms1 + ms2 =~= ms2);
        } else {
            assert((ms1 + ms2).drop_first() =~= ms1.drop_first() + ms2);
            self.spec_step(ms1[0]).post.lemma_run_append(ms1.drop_first(), ms2);
            assert((ms1 + ms2)[0] == ms1[0]);
        }
    }

    /// Stop is idempotent: a second Stop leaves the stopped state unchanged
    /// and produces nothing.
    pub proof fn lemma_stop_idempotent(self)
        ensures
            self.spec_step(Message::Stop).post.spec_step(Message::Stop).post == self.spec_step(
                Message::Stop,
            ).post,
            self.spec_step(Message::Stop).post.spec_step(Message::Stop).emit is None,
            self.spec_step(Message::Stop).post.spec_step(Message::Stop).sentinel is None,
            self.spec_step(Message::Stop).post.spec_step(Message::Stop).spawn == 0,
    {
    }

    /// Fixed-population bound: over any finite run the target never changes
    /// and the active unit count never exceeds it.
    pub proof fn lemma_fixed_population_bound(self, ms: Seq<Message>)
        requires
            self.wf(),
            !self.increase,
        ensures
            self.spec_run(ms).cap == self.cap,
            self.spec_run(ms).active <= self.cap,
            !self.spec_run(ms).increase,
            self.spec_run(ms).wf(),
        decreases ms.len(),
    {
        if ms.len() > 0 {
            self.lemma_step_wf(ms[0]);
            self.spec_step(ms[0]).post.lemma_fixed_population_bound(ms.drop_first());
        }
    }

    /// While paused, the active count can only decrease: any run whose events
    /// include no Resume leaves a paused coordinator paused, with no more
    /// units active than before and nothing spawned.
    pub proof fn lemma_paused_no_growth(self, ms: Seq<Message>)
        requires
            self.wf(),
            self.paused,
            forall|i: int| 0 <= i < ms.len() ==> ms[i] != Message::Resume,
        ensures
            self.spec_run(ms).paused,
            self.spec_run(ms).active <= self.active,
            forall|j: int|
                0 <= j < ms.len() ==> (#[trigger] self.spec_outputs(ms)[j]).spawn == 0,
        decreases ms.len(),
    {
        if ms.len() > 0 {
            self.lemma_step_wf(ms[0]);
            let post = self.spec_step(ms[0]).post;
            assert(forall|i: int|
                0 <= i < ms.drop_first().len() ==> ms.drop_first()[i] == ms[i + 1]);
            post.lemma_paused_no_growth(ms.drop_first());
            assert forall|j: int| 0 <= j < ms.len() implies (#[trigger] self.spec_outputs(
                ms,
            )[j]).spawn == 0 by {
                if j > 0 {
                    post.lemma_outputs_len(ms.drop_first());
                    assert(self.spec_outputs(ms)[j] == post.spec_outputs(ms.drop_first())[j - 1]);
                }
            }
        }
    }

    /// Resuming restores refilling: on the Resume event itself an unpaused,
    /// still-live coordinator is topped back up to its current target.
    pub proof fn lemma_resume_refills(self)
        requires
            self.wf(),
            !self.stopped,
            self.cap <= self.max,
        ensures
            self.spec_step(Message::Resume).post.active == self.cap,
            self.spec_step(Message::Resume).spawn == self.cap - self.active,
    {
    }

    /// Ramp-up progress: while a ramp run stays live, each accepted sample
    /// advances the pair (level, per-level counter) by exactly one count, so
    /// `level * threshold + counter` grows by exactly the number of accepted
    /// samples.
    pub proof fn lemma_ramp_progress(self, ms: Seq<Message>)
        requires
            self.wf(),
            self.increase,
            self.max >= 1,
        ensures
            !self.spec_run(ms).stopped && !self.stopped ==> self.spec_run(ms).cap * 10
                + self.spec_run(ms).requests == self.cap * 10 + self.requests
                + self.spec_accepted(ms),
        decreases ms.len(),
    {
        if ms.len() > 0 {
            self.lemma_step_wf(ms[0]);
            let st = self.spec_step(ms[0]);
            st.post.lemma_ramp_progress(ms.drop_first());
            if !self.spec_run(ms).stopped && !self.stopped {
                st.post.lemma_stopped_monotone(ms.drop_first());
                assert(!st.post.stopped);
                assert(st.post.cap * 10 + st.post.requests == self.cap * 10 + self.requests + (
                if st.emit is Some {
                    1int
                } else {
                    0int
                }));
            }
        }
    }

    /// Ramp-up level law: starting a ramp with ceiling `max >= 1`, as long as
    /// the run has not ended, the level is exactly `1 + accepted / 10`,
    /// starting at 1 and rising by 1 every 10 accepted samples, and the
    /// per-level counter is `accepted % 10`.
    pub proof fn lemma_ramp_level(max: u64, ms: Seq<Message>)
        requires
            1 <= max < u64::MAX,
        ensures
            ({
                let s0 = ConnectionManager::spec_initial_increase(max);
                let t = s0.spec_run(ms);
                !t.stopped ==> t.cap == 1 + s0.spec_accepted(ms) / 10 && t.requests
                    == s0.spec_accepted(ms) % 10 && t.cap <= max
            }),
    {
        let s0 = ConnectionManager::spec_initial_increase(max);
        s0.lemma_ramp_progress(ms);
        s0.lemma_run_wf(ms);
        s0.lemma_run_mode(ms);
        s0.lemma_accepted_nonneg(ms);
        let t = s0.spec_run(ms);
        if !t.stopped {
            assert(t.increase && t.max == max);
            assert(t.cap <= max);
            assert(t.cap * 10 + t.requests == 10 + s0.spec_accepted(ms));
            assert(t.requests < 10);
            assert(t.cap == 1 + s0.spec_accepted(ms) / 10 && t.requests == s0.spec_accepted(ms)
                % 10) by (nonlinear_arith)
                requires
                    t.cap * 10 + t.requests == 10 + s0.spec_accepted(ms),
                    0 <= t.requests < 10,
                    1 <= t.cap,
                    0 <= s0.spec_accepted(ms),
            ;
        }
    }

    /// A run never accepts a negative number of samples.
    pub proof fn lemma_accepted_nonneg(self, ms: Seq<Message>)
        ensures
            0 <= self.spec_accepted(ms),
        decreases ms.len(),
    {
        if ms.len() > 0 {
            self.spec_step(ms[0]).post.lemma_accepted_nonneg(ms.drop_first());
        }
    }

    /// Lifecycle accounting: over any run that stays live to the end and
    /// sees no straggler events, every spawn and every ConnectionEnded is
    /// counted exactly once, so the active count moves by exactly their
    /// difference.
    pub proof fn lemma_live_accounting(self, ms: Seq<Message>)
        requires
            self.wf(),
            self.no_stragglers(ms),
        ensures
            !self.spec_run(ms).stopped ==> self.spec_run(ms).active == self.active
                + self.spec_spawned(ms) - count_ended(ms),
        decreases ms.len(),
    {
        if ms.len() > 0 {
            self.lemma_step_wf(ms[0]);
            let st = self.spec_step(ms[0]);
            st.post.lemma_live_accounting(ms.drop_first());
            if !self.spec_run(ms).stopped {
                st.post.lemma_stopped_monotone(ms.drop_first());
                assert(!st.post.stopped && !self.stopped);
                assert(st.post.active == self.active + st.spawn - (if ms[0]
                    == Message::ConnectionEnded {
                    1int
                } else {
                    0int
                }));
            }
        }
    }

    /// A fixed-population run that is never told to stop stays live.
    pub proof fn lemma_constant_stays_live(self, ms: Seq<Message>)
        requires
            !self.increase,
            !self.stopped,
            forall|i: int| 0 <= i < ms.len() ==> ms[i] != Message::Stop,
        ensures
            !self.spec_run(ms).stopped,
        decreases ms.len(),
    {
        if ms.len() > 0 {
            assert(forall|i: int|
                0 <= i < ms.drop_first().len() ==> ms.drop_first()[i] == ms[i + 1]);
            self.spec_step(ms[0]).post.lemma_constant_stays_live(ms.drop_first());
        }
    }

    /// Every spawned unit is eventually accounted for: if a fixed-population
    /// run that is never told to stop drains completely (its active count
    /// reaches zero), then the ConnectionEnded events it observed number
    /// exactly the units it spawned — the initial population plus every
    /// replacement.
    pub proof fn lemma_ended_equals_spawned(n: u64, ms: Seq<Message>)
        requires
            ({
                let s0 = ConnectionManager::spec_initial_constant(n);
                &&& forall|i: int| 0 <= i < ms.len() ==> ms[i] != Message::Stop
                &&& s0.no_stragglers(ms)
                &&& s0.spec_run(ms).active == 0
            }),
        ensures
            count_ended(ms) == n + ConnectionManager::spec_initial_constant(n).spec_spawned(ms),
    {
        let s0 = ConnectionManager::spec_initial_constant(n);
        s0.lemma_constant_stays_live(ms);
        s0.lemma_live_accounting(ms);
    }

    /// After any step of a live, unpaused run whose level is within its
    /// ceiling, the population stands exactly at its target: the start
    /// spawns the full population, and every retirement is refilled within
    /// one step.
    pub proof fn lemma_refilled_after_step(self, m: Message)
        requires
            self.wf(),
        ensures
            ({
                let post = self.spec_step(m).post;
                !post.paused && !post.stopped && post.cap <= post.max ==> post.active == post.cap
            }),
    {
    }
}

} // verus!

