//! The timeline: every frame computed so far and every command scheduled,
//! both keyed by tick, and the step that computes the next frame.
//!
//! The simulation itself is the caller's. It enters as two functions: one
//! applies a command to a frame, one ages a frame by a tick. The timeline
//! decides which frame they start from, which commands they see and in what
//! order, and where the result is kept.

use crate::calibration::TICK_TIME_MICROS;
use crate::game::{new_time_map, GameObjectId, TimeMap};
use crate::messages::{SetInputDelay, TimedCommand};
use vstd::prelude::*;

verus! {

/// Whether `end` is a frame that `apply` can give when the commands are
/// applied to `start` one after the other, first to last.
pub open spec fn applies_all<G, C, A: Fn(&G, GameObjectId, &C) -> G>(
    apply: A,
    start: G,
    commands: Seq<(GameObjectId, C)>,
    end: G,
) -> bool
    decreases commands.len(),
{
    if commands.len() == 0 {
        end == start
    } else {
        exists|mid: G|
            applies_all(apply, start, commands.drop_last(), mid) && #[trigger] call_ensures(
                apply,
                (&mid, commands.last().0, &commands.last().1),
                end,
            )
    }
}

/// Whether `next` is a frame that can follow `prev`: the commands are
/// applied to `prev` in order, and `advance` ages the result by one tick.
pub open spec fn advances<G, C, A: Fn(&G, GameObjectId, &C) -> G, S: Fn(&G) -> G>(
    apply: A,
    advance: S,
    prev: G,
    commands: Seq<(GameObjectId, C)>,
    next: G,
) -> bool {
    exists|mid: G|
        applies_all(apply, prev, commands, mid) && #[trigger] call_ensures(advance, (&mid,), next)
}

/// Whether `apply` gives one frame only for each frame and command.
pub open spec fn apply_is_function<G, C, A: Fn(&G, GameObjectId, &C) -> G>(apply: A) -> bool {
    forall|g: G, id: GameObjectId, c: C, r1: G, r2: G|
        #![trigger call_ensures(apply, (&g, id, &c), r1), call_ensures(apply, (&g, id, &c), r2)]
        call_ensures(apply, (&g, id, &c), r1) && call_ensures(apply, (&g, id, &c), r2) ==> r1
            == r2
}

/// Whether `advance` gives one frame only for each frame.
pub open spec fn advance_is_function<G, S: Fn(&G) -> G>(advance: S) -> bool {
    forall|g: G, r1: G, r2: G|
        #![trigger call_ensures(advance, (&g,), r1), call_ensures(advance, (&g,), r2)]
        call_ensures(advance, (&g,), r1) && call_ensures(advance, (&g,), r2) ==> r1 == r2
}

/// Applying one more command extends a chain of applications.
proof fn lemma_applies_one_more<G, C, A: Fn(&G, GameObjectId, &C) -> G>(
    apply: A,
    start: G,
    commands: Seq<(GameObjectId, C)>,
    mid: G,
    end: G,
)
    requires
        commands.len() > 0,
        applies_all(apply, start, commands.drop_last(), mid),
        call_ensures(apply, (&mid, commands.last().0, &commands.last().1), end),
    ensures
        applies_all(apply, start, commands, end),
{
}

/// The frames of a simulation, tick by tick, with the commands scheduled for
/// each tick. `G` is a frame, the whole state of the simulation at one tick;
/// `C` is a command. Neither is looked into. Nothing is ever dropped.
pub struct RollbackableGame<G, C> {
    current_time: u64,
    frames: TimeMap<G>,
    commands: TimeMap<Vec<(GameObjectId, C)>>,
    applied: Ghost<Map<u64, Seq<(GameObjectId, C)>>>,
}

impl<G, C> RollbackableGame<G, C> {
    /// The tick of the newest frame.
    pub closed spec fn now(&self) -> u64 {
        self.current_time
    }

    /// The frames computed so far, by tick.
    pub closed spec fn frames(&self) -> Map<u64, G> {
        self.frames@
    }

    /// The commands scheduled for `tick`, in the order in which they were
    /// added.
    pub closed spec fn commands_at(&self, tick: u64) -> Seq<(GameObjectId, C)> {
        if self.commands@.contains_key(tick) {
            self.commands@[tick]@
        } else {
            Seq::empty()
        }
    }

    /// The commands that went into the frame of each tick after the first:
    /// those that were scheduled for the tick when its frame was computed.
    pub closed spec fn applied(&self) -> Map<u64, Seq<(GameObjectId, C)>> {
        self.applied@
    }

    /// There is a frame for each tick up to the newest and for no other, and
    /// what went into a frame is still the head of that tick's commands.
    pub closed spec fn wf(&self) -> bool {
        &&& forall|tick: u64| #[trigger]
            self.frames@.contains_key(tick) <==> tick <= self.current_time
        &&& forall|tick: u64| #[trigger]
            self.applied@.contains_key(tick) <==> 1 <= tick <= self.current_time
        &&& forall|tick: u64| #[trigger]
            self.applied@.contains_key(tick) ==> self.applied@[tick].is_prefix_of(
                self.commands_at(tick),
            )
    }

    /// What a well-formed timeline holds: a frame for each tick up to the
    /// newest and for no later one, so that no frame is ever dropped; and for
    /// each tick after the first that has a frame, the commands that went
    /// into it, which are still the head of the commands scheduled for that
    /// tick.
    pub proof fn lemma_well_formed(&self)
        requires
            self.wf(),
        ensures
            forall|tick: u64| #[trigger] self.frames().contains_key(tick) <==> tick <= self.now(),
            forall|tick: u64| #[trigger]
                self.applied().contains_key(tick) <==> 1 <= tick <= self.now(),
            forall|tick: u64|
                1 <= tick <= self.now() ==> (#[trigger] self.applied()[tick]).is_prefix_of(
                    self.commands_at(tick),
                ),
    {
        assert forall|tick: u64| 1 <= tick <= self.now() implies (#[trigger] self.applied()[tick])
            .is_prefix_of(self.commands_at(tick)) by {
            assert(self.applied@.contains_key(tick));
        }
    }

    /// Whether every frame after the first can follow the one before it
    /// under `apply` and `advance`, given the commands that went into it.
    pub open spec fn follows<A: Fn(&G, GameObjectId, &C) -> G, S: Fn(&G) -> G>(
        &self,
        apply: A,
        advance: S,
    ) -> bool {
        forall|tick: u64|
            1 <= tick <= self.now() ==> advances(
                apply,
                advance,
                self.frames()[(tick - 1) as u64],
                #[trigger] self.applied()[tick],
                self.frames()[tick],
            )
    }

    /// Whether `after` is this timeline with `command` of `player_id` added
    /// behind the commands of the tick `time`, and nothing else changed.
    pub open spec fn schedules(
        &self,
        player_id: GameObjectId,
        command: C,
        time: u64,
        after: &Self,
    ) -> bool {
        &&& after.now() == self.now()
        &&& after.frames() == self.frames()
        &&& after.applied() == self.applied()
        &&& after.commands_at(time) == self.commands_at(time).push((player_id, command))
        &&& forall|tick: u64|
            tick != time ==> #[trigger] after.commands_at(tick) == self.commands_at(tick)
    }

    /// Whether `after` is this timeline one step later: it has one more
    /// frame, for the tick after the newest, which can follow the newest
    /// frame given the commands scheduled for that tick; those commands are
    /// recorded as what went into it; nothing else changed.
    pub open spec fn steps_to<A: Fn(&G, GameObjectId, &C) -> G, S: Fn(&G) -> G>(
        &self,
        apply: A,
        advance: S,
        after: &Self,
    ) -> bool {
        &&& after.now() == self.now() + 1
        &&& forall|tick: u64| #[trigger] after.commands_at(tick) == self.commands_at(tick)
        &&& after.applied() == self.applied().insert(
            after.now(),
            self.commands_at(after.now()),
        )
        &&& after.frames() == self.frames().insert(after.now(), after.frames()[after.now()])
        &&& advances(
            apply,
            advance,
            self.frames()[self.now()],
            self.commands_at(after.now()),
            after.frames()[after.now()],
        )
    }

    /// A timeline whose only frame is `starting_game`, at tick 0.
    pub fn new(starting_game: G) -> (game: Self)
        ensures
            game.wf(),
            game.now() == 0,
            game.frames() == Map::<u64, G>::empty().insert(0, starting_game),
            game.applied() == Map::<u64, Seq<(GameObjectId, C)>>::empty(),
            forall|tick: u64| game.commands_at(tick) == Seq::<(GameObjectId, C)>::empty(),
    {
        let mut frames = new_time_map();
        frames.insert(0u64, starting_game);
        RollbackableGame {
            current_time: 0,
            frames,
            commands: new_time_map(),
            applied: Ghost(Map::empty()),
        }
    }

    /// The tick of the newest frame.
    pub fn current_time(&self) -> (tick: u64)
        ensures
            tick == self.now(),
    {
        self.current_time
    }

    /// The newest frame.
    pub fn current_frame(&self) -> (frame: &G)
        requires
            self.wf(),
        ensures
            *frame == self.frames()[self.now()],
    {
        let frame = self.frames.get(&self.current_time);
        assert(self.frames@.contains_key(self.current_time));
        frame.unwrap()
    }

    /// Schedules `command` of `player_id` for the tick `time`, behind the
    /// commands already scheduled for it. Any tick is taken. No frame
    /// changes: a command for a tick whose frame exists is kept and never
    /// applied.
    pub fn add_command(&mut self, player_id: GameObjectId, command: C, time: u64)
        requires
            old(self).wf(),
        ensures
            final(self).wf(),
            old(self).schedules(player_id, command, time, final(self)),
    {
        let mut existing_commands = match self.commands.remove(&time) {
            Some(list) => list,
            None => Vec::new(),
        };
        existing_commands.push((player_id, command));
        self.commands.insert(time, existing_commands);
        proof {
            assert forall|tick: u64| #[trigger]
                self.applied@.contains_key(tick) implies self.applied@[tick].is_prefix_of(
                self.commands_at(tick),
            ) by {
                assert(old(self).applied@[tick].is_prefix_of(old(self).commands_at(tick)));
            }
        }
    }

    /// Whether a command for the tick `time` comes too late to be applied:
    /// the frame of that tick exists already.
    pub open spec fn late(&self, time: u64) -> bool {
        time <= self.now()
    }

    /// The tick for which a command issued now is scheduled: the newest tick
    /// plus the input delay. `None` when that lies beyond the last tick.
    pub fn delayed_time(&self, set_input_delay: SetInputDelay) -> (time: Option<u64>)
        ensures
            match time {
                Some(tick) => tick == self.now() + set_input_delay.input_delay,
                None => self.now() + set_input_delay.input_delay > u64::MAX,
            },
    {
        self.current_time.checked_add(set_input_delay.input_delay)
    }

    /// Schedules a command that the other peer sent, and says whether it
    /// came too late. A late command is kept like any other and is never
    /// applied.
    pub fn receive_command(&mut self, player_id: GameObjectId, timed_command: TimedCommand<C>) -> (late:
        bool)
        requires
            old(self).wf(),
        ensures
            final(self).wf(),
            late == old(self).late(timed_command.time),
            old(self).schedules(
                player_id,
                timed_command.command,
                timed_command.time,
                final(self),
            ),
    {
        let late = timed_command.time <= self.current_time;
        self.add_command(player_id, timed_command.command, timed_command.time);
        late
    }

    /// Computes the frame of the next tick and makes it the newest: the
    /// commands scheduled for that tick are applied, in the order in which
    /// they were added, to the newest frame, and the result is aged by one
    /// tick. The frames before it stay as they are.
    pub fn step<A: Fn(&G, GameObjectId, &C) -> G, S: Fn(&G) -> G>(&mut self, apply: A, advance: S)
        requires
            old(self).wf(),
            old(self).now() < u64::MAX,
            forall|g: &G, id: GameObjectId, c: &C| call_requires(apply, (g, id, c)),
            forall|g: &G| call_requires(advance, (g,)),
        ensures
            final(self).wf(),
            old(self).steps_to(apply, advance, final(self)),
            old(self).follows(apply, advance) ==> final(self).follows(apply, advance),
    {
        let next_time: u64 = self.current_time + 1;
        assert(self.frames@.contains_key(self.current_time));
        let current = self.frames.get(&self.current_time).unwrap();
        let next_frame = match self.commands.get(&next_time) {
            Some(commands) => {
                if commands.len() == 0 {
                    advance(current)
                } else {
                    let mut frame = apply(current, commands[0].0, &commands[0].1);
                    proof {
                        lemma_applies_one_more(apply, *current, commands@.take(1), *current, frame);
                    }
                    let mut i: usize = 1;
                    while i < commands.len()
                        invariant
                            1 <= i <= commands.len(),
                            forall|g: &G, id: GameObjectId, c: &C| call_requires(apply, (g, id, c)),
                            applies_all(apply, *current, commands@.take(i as int), frame),
                        decreases commands.len() - i,
                    {
                        let after = apply(&frame, commands[i].0, &commands[i].1);
                        proof {
                            assert(commands@.take(i + 1).drop_last() == commands@.take(i as int));
                            lemma_applies_one_more(
                                apply,
                                *current,
                                commands@.take(i + 1),
                                frame,
                                after,
                            );
                        }
                        frame = after;
                        i += 1;
                    }
                    assert(commands@.take(i as int) == commands@);
                    advance(&frame)
                }
            },
            None => advance(current),
        };
        self.frames.insert(next_time, next_frame);
        self.current_time = next_time;
        proof {
            self.applied@ = self.applied@.insert(next_time, old(self).commands_at(next_time));
            assert forall|tick: u64| #[trigger]
                self.applied@.contains_key(tick) implies self.applied@[tick].is_prefix_of(
                self.commands_at(tick),
            ) by {
                if tick != next_time {
                    assert(old(self).applied@.contains_key(tick));
                }
            }
            if old(self).follows(apply, advance) {
                assert forall|tick: u64| 1 <= tick <= self.now() implies advances(
                    apply,
                    advance,
                    self.frames()[(tick - 1) as u64],
                    #[trigger] self.applied()[tick],
                    self.frames()[tick],
                ) by {
                    if tick != next_time {
                        assert(self.applied()[tick] == old(self).applied()[tick]);
                        assert(self.frames()[tick] == old(self).frames()[tick]);
                        assert(self.frames()[(tick - 1) as u64] == old(self).frames()[(tick
                            - 1) as u64]);
                    }
                }
            }
        }
    }
}

/// How long the loop rests after a tick whose work took
/// `time_passed_micros`: what is left of the tick, and nothing when the work
/// took the whole tick or more. A late tick is not made up for.
pub fn tick_remainder_micros(time_passed_micros: u128) -> (remaining: u128)
    ensures
        remaining == if time_passed_micros < TICK_TIME_MICROS {
            TICK_TIME_MICROS - time_passed_micros
        } else {
            0
        },
{
    if time_passed_micros < TICK_TIME_MICROS {
        TICK_TIME_MICROS - time_passed_micros
    } else {
        0
    }
}

/// Under an `apply` that is a function, a frame and a list of commands
/// determine the frame that results.
pub proof fn lemma_applies_all_is_function<G, C, A: Fn(&G, GameObjectId, &C) -> G>(
    apply: A,
    start: G,
    commands: Seq<(GameObjectId, C)>,
    end1: G,
    end2: G,
)
    requires
        apply_is_function::<G, C, A>(apply),
        applies_all(apply, start, commands, end1),
        applies_all(apply, start, commands, end2),
    ensures
        end1 == end2,
    decreases commands.len(),
{
    if commands.len() > 0 {
        let mid1 = choose|mid: G|
            applies_all(apply, start, commands.drop_last(), mid) && #[trigger] call_ensures(
                apply,
                (&mid, commands.last().0, &commands.last().1),
                end1,
            );
        let mid2 = choose|mid: G|
            applies_all(apply, start, commands.drop_last(), mid) && #[trigger] call_ensures(
                apply,
                (&mid, commands.last().0, &commands.last().1),
                end2,
            );
        lemma_applies_all_is_function(apply, start, commands.drop_last(), mid1, mid2);
    }
}

/// Under an `apply` and an `advance` that are functions, a frame and the
/// commands of the next tick determine the next frame.
pub proof fn lemma_advances_is_function<
    G,
    C,
    A: Fn(&G, GameObjectId, &C) -> G,
    S: Fn(&G) -> G,
>(apply: A, advance: S, prev: G, commands: Seq<(GameObjectId, C)>, next1: G, next2: G)
    requires
        apply_is_function::<G, C, A>(apply),
        advance_is_function::<G, S>(advance),
        advances(apply, advance, prev, commands, next1),
        advances(apply, advance, prev, commands, next2),
    ensures
        next1 == next2,
{
    let mid1 = choose|mid: G|
        applies_all(apply, prev, commands, mid) && #[trigger] call_ensures(
            advance,
            (&mid,),
            next1,
        );
    let mid2 = choose|mid: G|
        applies_all(apply, prev, commands, mid) && #[trigger] call_ensures(
            advance,
            (&mid,),
            next2,
        );
    lemma_applies_all_is_function(apply, prev, commands, mid1, mid2);
}

/// Determinism. With a fixed simulation, the frame of a tick depends on
/// the first frame and on the commands that went into each tick up to it,
/// and on nothing else: two timelines that agree on those agree on every
/// frame up to that tick.
pub proof fn lemma_frames_are_determined<
    G,
    C,
    A: Fn(&G, GameObjectId, &C) -> G,
    S: Fn(&G) -> G,
>(a: RollbackableGame<G, C>, b: RollbackableGame<G, C>, apply: A, advance: S, upto: u64)
    requires
        apply_is_function::<G, C, A>(apply),
        advance_is_function::<G, S>(advance),
        a.follows(apply, advance),
        b.follows(apply, advance),
        upto <= a.now(),
        upto <= b.now(),
        a.frames()[0] == b.frames()[0],
        forall|tick: u64| 1 <= tick <= upto ==> a.applied()[tick] == b.applied()[tick],
    ensures
        forall|tick: u64| tick <= upto ==> a.frames()[tick] == b.frames()[tick],
    decreases upto,
{
    if upto > 0 {
        let before = (upto - 1) as u64;
        lemma_frames_are_determined(a, b, apply, advance, before);
        assert(a.frames()[before] == b.frames()[before]);
        assert(a.applied()[upto] == b.applied()[upto]);
        lemma_advances_is_function(
            apply,
            advance,
            a.frames()[before],
            a.applied()[upto],
            a.frames()[upto],
            b.frames()[upto],
        );
    }
}

/// A timeline that has not stepped follows every simulation.
pub proof fn lemma_fresh_timeline_follows<
    G,
    C,
    A: Fn(&G, GameObjectId, &C) -> G,
    S: Fn(&G) -> G,
>(game: RollbackableGame<G, C>, apply: A, advance: S)
    requires
        game.now() == 0,
    ensures
        game.follows(apply, advance),
{
}

/// Scheduling a command keeps a timeline following its simulation.
pub proof fn lemma_schedule_keeps_following<
    G,
    C,
    A: Fn(&G, GameObjectId, &C) -> G,
    S: Fn(&G) -> G,
>(
    before: RollbackableGame<G, C>,
    after: RollbackableGame<G, C>,
    player_id: GameObjectId,
    command: C,
    time: u64,
    apply: A,
    advance: S,
)
    requires
        before.schedules(player_id, command, time, &after),
        before.follows(apply, advance),
    ensures
        after.follows(apply, advance),
{
}

/// A command scheduled for a tick that has been reached changes no frame,
/// neither those that exist nor the next one: with a fixed simulation, the
/// step after it gives the frame it would have given without the command.
pub proof fn lemma_late_command_is_inert<
    G,
    C,
    A: Fn(&G, GameObjectId, &C) -> G,
    S: Fn(&G) -> G,
>(
    before: RollbackableGame<G, C>,
    with: RollbackableGame<G, C>,
    player_id: GameObjectId,
    command: C,
    time: u64,
    apply: A,
    advance: S,
    next_before: RollbackableGame<G, C>,
    next_with: RollbackableGame<G, C>,
)
    requires
        apply_is_function::<G, C, A>(apply),
        advance_is_function::<G, S>(advance),
        before.late(time),
        before.schedules(player_id, command, time, &with),
        before.steps_to(apply, advance, &next_before),
        with.steps_to(apply, advance, &next_with),
    ensures
        with.frames() == before.frames(),
        next_with.frames() == next_before.frames(),
        next_with.applied() == next_before.applied(),
{
    let next = next_before.now();
    assert(with.commands_at(next) == before.commands_at(next));
    lemma_advances_is_function(
        apply,
        advance,
        before.frames()[before.now()],
        before.commands_at(next),
        next_before.frames()[next],
        next_with.frames()[next],
    );
    assert(next_with.frames() =~= next_before.frames());
}

} // verus!
