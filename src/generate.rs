//! Pseudo-random drafting of demo tasks from a seed, by a linear
//! congruential generator.

use vstd::prelude::*;

use crate::task::Priority;

verus! {

/// Multiplier of the generator.
pub const SEED_MULTIPLIER: u64 = 1103515245;

/// Increment of the generator.
pub const SEED_INCREMENT: u64 = 12345;

/// Drafted durations run from 1 to this many seconds.
pub const DURATION_LIMIT: u64 = 10;

/// One generator step: the new seed keeps the low 31 bits.
pub open spec fn lcg_next(seed: int) -> int {
    (seed * SEED_MULTIPLIER + SEED_INCREMENT) % 0x8000_0000
}

/// The seed after `n` steps from `seed`.
pub open spec fn seed_after(seed: int, n: nat) -> int
    decreases n,
{
    if n == 0 {
        seed
    } else {
        lcg_next(seed_after(seed, (n - 1) as nat))
    }
}

/// Priority class drawn from a seed.
pub open spec fn priority_of(seed: int) -> Priority {
    if seed % 3 == 0 {
        Priority::High
    } else if seed % 3 == 1 {
        Priority::Medium
    } else {
        Priority::Low
    }
}

/// What a seed decides about a new task: which of the available names it
/// takes, its class and its declared duration.
pub struct TaskDraft {
    pub name_index: usize,
    pub priority: Priority,
    pub duration_secs: u64,
}

/// Whether `d` is the draft that `seed` gives over `name_count` names.
pub open spec fn draft_is(d: TaskDraft, seed: int, name_count: int) -> bool {
    &&& d.name_index == seed % name_count
    &&& d.priority == priority_of(seed)
    &&& d.duration_secs == seed % (DURATION_LIMIT as int) + 1
}

/// One generator step.
pub fn next_seed(seed: u64) -> (r: u64)
    requires
        seed * SEED_MULTIPLIER + SEED_INCREMENT <= u64::MAX,
    ensures
        r == lcg_next(seed as int),
        r < 0x8000_0000,
{
    let x: u64 = seed * SEED_MULTIPLIER + SEED_INCREMENT;
    assert(x & 0x7fff_ffff == x % 0x8000_0000) by (bit_vector);
    x & 0x7fff_ffff
}

/// The draft that `seed` gives over `name_count` names.
pub fn draft_task(seed: u64, name_count: usize) -> (r: TaskDraft)
    requires
        name_count > 0,
    ensures
        draft_is(r, seed as int, name_count as int),
        r.name_index < name_count,
        1 <= r.duration_secs <= DURATION_LIMIT,
{
    let name_index = (seed % (name_count as u64)) as usize;
    let m = seed % 3;
    let priority = if m == 0 {
        Priority::High
    } else if m == 1 {
        Priority::Medium
    } else {
        Priority::Low
    };
    TaskDraft { name_index, priority, duration_secs: seed % DURATION_LIMIT + 1 }
}

/// Drafts `count` tasks: the draft at index `i` comes from the seed after
/// `i + 1` steps from `seed`.
pub fn plan_tasks(seed: u64, count: usize, name_count: usize) -> (r: Vec<TaskDraft>)
    requires
        name_count > 0,
        count > 0 ==> seed * SEED_MULTIPLIER + SEED_INCREMENT <= u64::MAX,
    ensures
        r@.len() == count,
        forall|i: int|
            0 <= i < count ==> draft_is(#[trigger] r@[i], seed_after(seed as int, (i + 1) as nat), name_count as int),
{
    let mut drafts: Vec<TaskDraft> = Vec::new();
    let mut current: u64 = seed;
    let mut i: usize = 0;
    while i < count
        invariant
            name_count > 0,
            i <= count,
            drafts@.len() == i,
            current == seed_after(seed as int, i as nat),
            i > 0 ==> current < 0x8000_0000,
            count > 0 ==> seed * SEED_MULTIPLIER + SEED_INCREMENT <= u64::MAX,
            forall|k: int|
                0 <= k < i ==> draft_is(#[trigger] drafts@[k], seed_after(seed as int, (k + 1) as nat), name_count as int),
        decreases count - i,
    {
        proof {
            if i > 0 {
                assert(current * SEED_MULTIPLIER + SEED_INCREMENT <= u64::MAX) by (nonlinear_arith)
                    requires current < 0x8000_0000;
            }
        }
        current = next_seed(current);
        drafts.push(draft_task(current, name_count));
        i = i + 1;
    }
    drafts
}

} // verus!
