//! Whole simulation steps: reset, then spawn, then the tick, driven from
//! explicit requests and explicit random values.
//!
//! Everything a step consumes is in its input, so what a step does, and
//! what a whole run does, is a function of the starting state and the
//! inputs.

use vstd::prelude::*;
use crate::brush::ring;
use crate::cell::Cell;
use crate::commit::{committed, staged_moves};
use crate::pixel_types::PixelType;
use crate::resolver::resolution;
use crate::spawn::{spawn_ring, spawned};
use crate::staging::Move;
use crate::systems::{reset_grid, update_particules_with};
use crate::world::{occupancy, Particle, World, WorldView};

verus! {

/// A request to spawn `material` over the brush of `radius` cells around
/// `origin`; it is carried out only when `trigger` is set.
#[derive(Clone, Copy, Debug, PartialEq, Eq, Structural)]
pub struct SpawnRequest {
    pub origin: Cell,
    pub radius: i32,
    pub material: PixelType,
    pub trigger: bool,
}

/// Everything that one step consumes: the two requests, the rolls for the
/// spawn (one per brush cell) and the coins for the tick (one per particle).
pub struct StepInput {
    pub reset: bool,
    pub spawn: SpawnRequest,
    pub rolls: Vec<u32>,
    pub coins: Vec<bool>,
}

/// The mathematical content of a [`StepInput`].
pub struct StepInputView {
    pub reset: bool,
    pub spawn: SpawnRequest,
    pub rolls: Seq<u32>,
    pub coins: Seq<bool>,
}

impl View for StepInput {
    type V = StepInputView;

    open spec fn view(&self) -> StepInputView {
        StepInputView {
            reset: self.reset,
            spawn: self.spawn,
            rolls: self.rolls@,
            coins: self.coins@,
        }
    }
}

/// The well-formed world that holds exactly `particles`.
pub open spec fn world_with(particles: Seq<Particle>, floor_row: i32) -> WorldView {
    WorldView { particles, grid: occupancy(particles), floor_row }
}

/// The store once the requests of a step have been served: cleared if a
/// reset was requested, then spawned over if a spawn was.
pub open spec fn requests_served(particles: Seq<Particle>, input: StepInputView) -> Seq<Particle> {
    let cleared = if input.reset {
        Seq::empty()
    } else {
        particles
    };
    if input.spawn.trigger {
        spawned(
            cleared,
            ring(input.spawn.origin, input.spawn.radius as int),
            input.spawn.material,
            input.rolls,
        )
    } else {
        cleared
    }
}

/// The store after one step.
pub open spec fn stepped(particles: Seq<Particle>, floor_row: i32, input: StepInputView) -> Seq<
    Particle,
> {
    let served = requests_served(particles, input);
    committed(served, resolution(world_with(served, floor_row), input.coins))
}

/// The changes of cell that one step commits.
pub open spec fn step_moves(particles: Seq<Particle>, floor_row: i32, input: StepInputView) -> Seq<
    Move,
> {
    let served = requests_served(particles, input);
    staged_moves(resolution(world_with(served, floor_row), input.coins))
}

/// The store after a run of steps.
pub open spec fn ran(particles: Seq<Particle>, floor_row: i32, inputs: Seq<StepInputView>) -> Seq<
    Particle,
>
    decreases inputs.len(),
{
    if inputs.len() == 0 {
        particles
    } else {
        stepped(ran(particles, floor_row, inputs.drop_last()), floor_row, inputs.last())
    }
}

/// The changes of cell that each step of a run commits.
pub open spec fn run_moves(
    particles: Seq<Particle>,
    floor_row: i32,
    inputs: Seq<StepInputView>,
) -> Seq<Seq<Move>>
    decreases inputs.len(),
{
    if inputs.len() == 0 {
        Seq::empty()
    } else {
        run_moves(particles, floor_row, inputs.drop_last()).push(
            step_moves(ran(particles, floor_row, inputs.drop_last()), floor_row, inputs.last()),
        )
    }
}

/// The mathematical content of a sequence of step inputs.
pub open spec fn inputs_view(inputs: Seq<StepInput>) -> Seq<StepInputView> {
    Seq::new(inputs.len(), |i: int| inputs[i]@)
}

/// The mathematical content of a recorded run.
pub open spec fn trace_view(trace: Seq<Vec<Move>>) -> Seq<Seq<Move>> {
    Seq::new(trace.len(), |i: int| trace[i]@)
}

/// Two runs that start from the same particles over the same floor and
/// consume the same requests, rolls and coins commit the same moves, step
/// for step, and end in the same state.
pub proof fn lemma_runs_agree(
    first: WorldView,
    second: WorldView,
    first_inputs: Seq<StepInputView>,
    second_inputs: Seq<StepInputView>,
)
    requires
        first.wf(),
        second.wf(),
        first.particles == second.particles,
        first.floor_row == second.floor_row,
        first_inputs == second_inputs,
    ensures
        first == second,
        run_moves(first.particles, first.floor_row, first_inputs) == run_moves(
            second.particles,
            second.floor_row,
            second_inputs,
        ),
        ran(first.particles, first.floor_row, first_inputs) == ran(
            second.particles,
            second.floor_row,
            second_inputs,
        ),
{
}

/// One step: serves the reset request, then the spawn request, then
/// resolves and commits one tick. Returns the committed changes of cell, in
/// resolution order.
pub fn step(world: &mut World, input: &StepInput) -> (moves: Vec<Move>)
    ensures
        final(world)@.wf(),
        final(world)@.floor_row == old(world)@.floor_row,
        final(world)@.particles == stepped(old(world)@.particles, old(world)@.floor_row, input@),
        moves@ == step_moves(old(world)@.particles, old(world)@.floor_row, input@),
{
    reset_grid(world, input.reset);
    if input.spawn.trigger {
        spawn_ring(
            world,
            input.spawn.origin,
            input.spawn.radius,
            &input.spawn.material,
            &input.rolls,
        );
    }
    assert(world@ == world_with(world@.particles, world@.floor_row));
    update_particules_with(world, &input.coins)
}

/// A run: one step per input, in order. Returns what each step committed.
pub fn run(world: &mut World, inputs: &Vec<StepInput>) -> (trace: Vec<Vec<Move>>)
    ensures
        final(world)@.wf(),
        final(world)@.floor_row == old(world)@.floor_row,
        final(world)@.particles == ran(
            old(world)@.particles,
            old(world)@.floor_row,
            inputs_view(inputs@),
        ),
        trace_view(trace@) == run_moves(
            old(world)@.particles,
            old(world)@.floor_row,
            inputs_view(inputs@),
        ),
{
    let mut trace: Vec<Vec<Move>> = Vec::new();
    let mut k: usize = 0;
    proof {
        use_type_invariant(&*world);
    }
    assert(inputs_view(inputs@).take(0) =~= Seq::<StepInputView>::empty());
    assert(trace_view(trace@) =~= Seq::<Seq<Move>>::empty());
    while k < inputs.len()
        invariant
            k <= inputs@.len(),
            world@.wf(),
            world@.floor_row == old(world)@.floor_row,
            world@.particles == ran(
                old(world)@.particles,
                old(world)@.floor_row,
                inputs_view(inputs@).take(k as int),
            ),
            trace_view(trace@) == run_moves(
                old(world)@.particles,
                old(world)@.floor_row,
                inputs_view(inputs@).take(k as int),
            ),
        decreases inputs@.len() - k,
    {
        proof {
            let all = inputs_view(inputs@);
            assert(all.take(k + 1).drop_last() =~= all.take(k as int));
            assert(all.take(k + 1).last() == inputs@[k as int]@);
        }
        let ghost recorded = trace_view(trace@);
        let moves = step(world, &inputs[k]);
        let ghost committed = moves@;
        trace.push(moves);
        assert(trace_view(trace@) =~= recorded.push(committed));
        k = k + 1;
    }
    assert(inputs_view(inputs@).take(k as int) =~= inputs_view(inputs@));
    trace
}

} // verus!
