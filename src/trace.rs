use vstd::prelude::*;
use vstd::multiset::Multiset;
use crate::event::{sorted_by_time, TaskEvent, TaskStatus};
use crate::pools::EntityPools;
use crate::scheduler::{all_before, CompletionScheduler};
use crate::random::{draw_range, is_alphanumeric};
use crate::pools::ID_LEN;
use crate::clock::EventClock;
use rand::rngs::StdRng;

verus! {

broadcast use vstd::seq_lib::group_to_multiset_ensures, vstd::multiset::group_multiset_axioms;

/// Largest clock advance of one tick, exclusive.
pub const MAX_ADVANCE: u64 = 10;

/// Largest completion offset, inclusive.
pub const MAX_DURATION: u64 = 30;

/// The random choices of one clock tick: how far the clock moves, the pool
/// entries of the launched task, its fresh id and how long it runs.
pub struct TickDraw {
    pub advance: u64,
    pub framework: usize,
    pub slave: usize,
    pub task_type: usize,
    pub task_id: String,
    pub duration: u64,
}

/// `d` is a possible outcome of one tick's draws against `p`.
pub open spec fn draw_valid(p: EntityPools, d: TickDraw) -> bool {
    &&& d.advance < MAX_ADVANCE
    &&& 1 <= d.duration <= MAX_DURATION
    &&& d.framework < p.frameworks@.len()
    &&& d.slave < p.slaves@.len()
    &&& d.task_type < p.task_types@.len()
}

pub open spec fn draws_valid(p: EntityPools, d: Seq<TickDraw>) -> bool {
    forall|i: int| 0 <= i < d.len() ==> draw_valid(p, #[trigger] d[i])
}

/// Every task id of `d` is `ID_LEN` ASCII letters or digits.
pub open spec fn task_ids_valid(d: Seq<TickDraw>) -> bool {
    forall|i: int|
        0 <= i < d.len() ==> (#[trigger] d[i]).task_id@.len() == ID_LEN && forall|j: int|
            0 <= j < ID_LEN ==> is_alphanumeric(#[trigger] d[i].task_id@[j])
}

/// The clock after the first `n` ticks.
pub open spec fn clock_after(start: int, d: Seq<TickDraw>, n: nat) -> int
    decreases n,
{
    if n == 0 {
        start
    } else {
        clock_after(start, d, (n - 1) as nat) + d[n - 1].advance
    }
}

/// The launch event of tick `i`.
pub open spec fn launch_event(p: EntityPools, start: int, d: Seq<TickDraw>, i: int) -> TaskEvent {
    TaskEvent {
        timestamp: clock_after(start, d, (i + 1) as nat) as u64,
        framework_id: p.frameworks@[d[i].framework as int],
        task_id: d[i].task_id,
        slave_id: p.slaves@[d[i].slave as int],
        task_type: p.task_types@[d[i].task_type as int],
        status: TaskStatus::Launched,
    }
}

/// The finish event of tick `i`: the launch's identifiers, due `duration` later.
pub open spec fn finish_event(p: EntityPools, start: int, d: Seq<TickDraw>, i: int) -> TaskEvent {
    TaskEvent {
        timestamp: (clock_after(start, d, (i + 1) as nat) + d[i].duration) as u64,
        status: TaskStatus::Finished,
        ..launch_event(p, start, d, i)
    }
}

/// The launch and the finish event of each of the first `n` ticks.
pub open spec fn trace_events(p: EntityPools, start: int, d: Seq<TickDraw>, n: nat) -> Multiset<TaskEvent>
    decreases n,
{
    if n == 0 {
        Multiset::empty()
    } else {
        trace_events(p, start, d, (n - 1) as nat).insert(launch_event(p, start, d, n - 1)).insert(
            finish_event(p, start, d, n - 1),
        )
    }
}

/// A finish event never follows a launch event whose timestamp is equal or later.
pub open spec fn finishes_before_launches(s: Seq<TaskEvent>) -> bool {
    forall|a: int, b: int|
        0 <= a < s.len() && 0 <= b < s.len() && s[a].status == TaskStatus::Finished
            && s[b].status == TaskStatus::Launched && #[trigger] s[a].timestamp <= #[trigger] s[b].timestamp
            ==> a < b
}

/// The launch events of `t`, in the order in which they appear.
pub open spec fn launches_of(t: Seq<TaskEvent>) -> Seq<TaskEvent>
    decreases t.len(),
{
    if t.len() == 0 {
        Seq::empty()
    } else if t.last().status == TaskStatus::Launched {
        launches_of(t.drop_last()).push(t.last())
    } else {
        launches_of(t.drop_last())
    }
}

/// The launch events of the first `n` ticks, in tick order.
pub open spec fn tick_launches(p: EntityPools, start: int, d: Seq<TickDraw>, n: nat) -> Seq<TaskEvent> {
    Seq::new(n, |i: int| launch_event(p, start, d, i))
}

/// `t` is the trace of the draws `d` from the clock value `start`: every
/// launch and finish event exactly once, in timestamp order, the launches in
/// tick order, with the finish events due at a tick emitted before that
/// tick's launch.
pub open spec fn is_trace_of(p: EntityPools, start: int, d: Seq<TickDraw>, t: Seq<TaskEvent>) -> bool {
    &&& sorted_by_time(t)
    &&& finishes_before_launches(t)
    &&& launches_of(t) == tick_launches(p, start, d, d.len())
    &&& t.to_multiset() == trace_events(p, start, d, d.len())
}

proof fn lemma_launches_skip_finishes(a: Seq<TaskEvent>, b: Seq<TaskEvent>)
    requires
        forall|k: int| 0 <= k < b.len() ==> (#[trigger] b[k]).status == TaskStatus::Finished,
    ensures
        launches_of(a + b) == launches_of(a),
    decreases b.len(),
{
    if b.len() > 0 {
        assert((a + b).drop_last() =~= a + b.drop_last());
        assert((a + b).last() == b[b.len() - 1]);
        lemma_launches_skip_finishes(a, b.drop_last());
    } else {
        assert(a + b =~= a);
    }
}

proof fn lemma_launches_push(a: Seq<TaskEvent>, l: TaskEvent)
    requires
        l.status == TaskStatus::Launched,
    ensures
        launches_of(a.push(l)) == launches_of(a).push(l),
{
    assert(a.push(l).drop_last() =~= a);
}

proof fn lemma_part_in_whole(a: Seq<TaskEvent>, b: Seq<TaskEvent>, w: Seq<TaskEvent>)
    requires
        a.to_multiset().add(b.to_multiset()) == w.to_multiset(),
    ensures
        forall|k: int| 0 <= k < a.len() ==> w.contains(#[trigger] a[k]),
        forall|k: int| 0 <= k < b.len() ==> w.contains(#[trigger] b[k]),
{
    assert forall|k: int| 0 <= k < a.len() implies w.contains(#[trigger] a[k]) by {
        assert(a.contains(a[k]));
        assert(a.to_multiset().count(a[k]) > 0);
        assert(w.to_multiset().count(a[k]) > 0);
    }
    assert forall|k: int| 0 <= k < b.len() implies w.contains(#[trigger] b[k]) by {
        assert(b.contains(b[k]));
        assert(b.to_multiset().count(b[k]) > 0);
        assert(w.to_multiset().count(b[k]) > 0);
    }
}

proof fn lemma_same_in_whole(a: Seq<TaskEvent>, w: Seq<TaskEvent>)
    requires
        a.to_multiset() == w.to_multiset(),
    ensures
        forall|k: int| 0 <= k < a.len() ==> w.contains(#[trigger] a[k]),
{
    assert forall|k: int| 0 <= k < a.len() implies w.contains(#[trigger] a[k]) by {
        assert(a.contains(a[k]));
        assert(a.to_multiset().count(a[k]) > 0);
    }
}

/// Merges the launches of the ticks `draws` with their pending finish events
/// into one stream: each tick advances the clock, emits every finish event due
/// by then, emits the tick's launch and schedules its finish; after the last
/// tick the remaining finish events follow in order.
pub fn build_trace(start: u64, pools: &EntityPools, draws: &Vec<TickDraw>) -> (r: Vec<TaskEvent>)
    requires
        draws_valid(*pools, draws@),
        start + MAX_ADVANCE * draws@.len() + MAX_DURATION <= u64::MAX,
    ensures
        is_trace_of(*pools, start as int, draws@, r@),
        r@.len() == 2 * draws@.len(),
{
    let mut sched = CompletionScheduler::new();
    let mut out: Vec<TaskEvent> = Vec::new();
    let mut clock = EventClock::new(start);
    let mut now: u64 = start;
    let mut i: usize = 0;
    while i < draws.len()
        invariant
            i <= draws@.len(),
            draws_valid(*pools, draws@),
            start + MAX_ADVANCE * draws@.len() + MAX_DURATION <= u64::MAX,
            now as int == clock_after(start as int, draws@, i as nat),
            clock@ == now,
            now <= start + MAX_ADVANCE * i,
            sorted_by_time(out@),
            finishes_before_launches(out@),
            all_before(out@, sched@),
            forall|k: int| 0 <= k < out@.len() ==> #[trigger] out@[k].timestamp <= now,
            forall|k: int, j: int|
                0 <= k < out@.len() && 0 <= j < sched@.len() && out@[k].status == TaskStatus::Launched
                    ==> #[trigger] out@[k].timestamp < #[trigger] sched@[j].timestamp,
            forall|j: int| 0 <= j < sched@.len() ==> (#[trigger] sched@[j]).status == TaskStatus::Finished,
            launches_of(out@) == tick_launches(*pools, start as int, draws@, i as nat),
            out@.to_multiset().add(sched@.to_multiset()) == trace_events(*pools, start as int, draws@, i as nat),
        decreases draws@.len() - i,
    {
        let d = &draws[i];
        assert(draw_valid(*pools, draws@[i as int]));
        now = clock.advance_by(d.advance);
        let ghost out0 = out@;
        let ghost sched0 = sched@;
        let mut due = sched.drain_due(now);
        proof {
            lemma_part_in_whole(due@, sched@, sched0);
        }
        let ghost due0 = due@;
        out.append(&mut due);
        assert(out@ == out0 + due0);
        proof {
            assert forall|k: int| 0 <= k < due0.len() implies (#[trigger] due0[k]).status == TaskStatus::Finished by {
                assert(sched0.contains(due0[k]));
            }
            lemma_launches_skip_finishes(out0, due0);
        }
        assert forall|a: int, b: int| 0 <= a <= b < out@.len() implies #[trigger] out@[a].timestamp
            <= #[trigger] out@[b].timestamp by {
            if b >= out0.len() && a < out0.len() {
                assert(sched0.contains(due0[b - out0.len()]));
            }
        }
        assert forall|a: int, b: int|
            0 <= a < out@.len() && 0 <= b < out@.len() && out@[a].status == TaskStatus::Finished
                && out@[b].status == TaskStatus::Launched && #[trigger] out@[a].timestamp
                <= #[trigger] out@[b].timestamp implies a < b by {
            if a >= out0.len() {
                assert(sched0.contains(due0[a - out0.len()]));
            }
            if b >= out0.len() {
                assert(sched0.contains(due0[b - out0.len()]));
            }
        }
        let launch = TaskEvent::new(
            now,
            pools.frameworks[d.framework].clone(),
            d.task_id.clone(),
            pools.slaves[d.slave].clone(),
            pools.task_types[d.task_type].clone(),
            TaskStatus::Launched,
        );
        let finish = launch.finish_at(now + d.duration);
        assert(launch == launch_event(*pools, start as int, draws@, i as int));
        assert(finish == finish_event(*pools, start as int, draws@, i as int));
        let ghost out1 = out@;
        let ghost sched1 = sched@;
        out.push(launch);
        sched.schedule(finish);
        proof {
            lemma_launches_push(out1, launch);
            assert(tick_launches(*pools, start as int, draws@, i as nat).push(launch) =~= tick_launches(
                *pools,
                start as int,
                draws@,
                (i + 1) as nat,
            ));
        }
        assert(out@.to_multiset().add(sched@.to_multiset()) =~= trace_events(
            *pools,
            start as int,
            draws@,
            (i + 1) as nat,
        )) by {
            assert(out1.push(launch).to_multiset() == out1.to_multiset().insert(launch));
            assert(sched1.push(finish).to_multiset() == sched1.to_multiset().insert(finish));
            vstd::seq_lib::lemma_multiset_commutative(out0, due0);
        }
        i = i + 1;
    }
    let ghost out0 = out@;
    let ghost sched0 = sched@;
    let mut rest = sched.drain_all();
    proof {
        lemma_same_in_whole(rest@, sched0);
        vstd::seq_lib::lemma_multiset_commutative(out0, rest@);
    }
    let ghost rest0 = rest@;
    out.append(&mut rest);
    assert(out@ == out0 + rest0);
    proof {
        assert forall|k: int| 0 <= k < rest0.len() implies (#[trigger] rest0[k]).status == TaskStatus::Finished by {
            assert(sched0.contains(rest0[k]));
        }
        lemma_launches_skip_finishes(out0, rest0);
    }
    assert forall|a: int, b: int| 0 <= a <= b < out@.len() implies #[trigger] out@[a].timestamp
        <= #[trigger] out@[b].timestamp by {
        if b >= out0.len() && a < out0.len() {
            assert(sched0.contains(rest0[b - out0.len()]));
        }
    }
    assert forall|a: int, b: int|
        0 <= a < out@.len() && 0 <= b < out@.len() && out@[a].status == TaskStatus::Finished
            && out@[b].status == TaskStatus::Launched && #[trigger] out@[a].timestamp
            <= #[trigger] out@[b].timestamp implies a < b by {
        if a >= out0.len() {
            assert(sched0.contains(rest0[a - out0.len()]));
        }
        if b >= out0.len() {
            assert(sched0.contains(rest0[b - out0.len()]));
        }
    }
    assert(out@.to_multiset() =~= trace_events(*pools, start as int, draws@, draws@.len()));
    proof {
        lemma_trace_events_len(*pools, start as int, draws@, draws@.len());
    }
    out
}

proof fn lemma_trace_events_len(p: EntityPools, start: int, d: Seq<TickDraw>, n: nat)
    ensures
        trace_events(p, start, d, n).len() == 2 * n,
    decreases n,
{
    if n > 0 {
        lemma_trace_events_len(p, start, d, (n - 1) as nat);
    }
}

} // verus!

verus! {

proof fn lemma_clock_bound(start: int, d: Seq<TickDraw>, p: EntityPools, n: nat)
    requires
        draws_valid(p, d),
        n <= d.len(),
    ensures
        start <= clock_after(start, d, n) <= start + MAX_ADVANCE * n,
    decreases n,
{
    if n > 0 {
        lemma_clock_bound(start, d, p, (n - 1) as nat);
        assert(draw_valid(p, d[n - 1]));
    }
}

proof fn lemma_trace_events_hold(p: EntityPools, start: int, d: Seq<TickDraw>, n: nat, i: int)
    requires
        0 <= i < n,
    ensures
        trace_events(p, start, d, n).count(launch_event(p, start, d, i)) > 0,
        trace_events(p, start, d, n).count(finish_event(p, start, d, i)) > 0,
    decreases n,
{
    if i < n - 1 {
        lemma_trace_events_hold(p, start, d, (n - 1) as nat, i);
    }
}

/// A finish event is due at least one and at most `MAX_DURATION` time units
/// after its launch, and carries the launch's task id, framework, slave and
/// task type.
pub proof fn finish_follows_launch(p: EntityPools, start: int, d: Seq<TickDraw>, i: int)
    requires
        draws_valid(p, d),
        0 <= i < d.len(),
        0 <= start,
        start + MAX_ADVANCE * d.len() + MAX_DURATION <= u64::MAX,
    ensures
        launch_event(p, start, d, i).timestamp + 1 <= finish_event(p, start, d, i).timestamp
            <= launch_event(p, start, d, i).timestamp + MAX_DURATION,
        finish_event(p, start, d, i).task_id == launch_event(p, start, d, i).task_id,
        finish_event(p, start, d, i).framework_id == launch_event(p, start, d, i).framework_id,
        finish_event(p, start, d, i).slave_id == launch_event(p, start, d, i).slave_id,
        finish_event(p, start, d, i).task_type == launch_event(p, start, d, i).task_type,
{
    lemma_clock_bound(start, d, p, (i + 1) as nat);
    assert(draw_valid(p, d[i]));
    assert(MAX_ADVANCE * (i + 1) <= MAX_ADVANCE * d.len()) by (nonlinear_arith)
        requires
            i + 1 <= d.len(),
    ;
}

/// In a trace, each tick's launch event appears, and its finish event appears
/// at a later position, with the same task id, framework, slave and task type.
pub proof fn trace_pairs_launches(p: EntityPools, start: int, d: Seq<TickDraw>, t: Seq<TaskEvent>, i: int)
    requires
        draws_valid(p, d),
        0 <= i < d.len(),
        0 <= start,
        start + MAX_ADVANCE * d.len() + MAX_DURATION <= u64::MAX,
        is_trace_of(p, start, d, t),
    ensures
        exists|a: int, b: int|
            0 <= a < b < t.len() && t[a] == launch_event(p, start, d, i) && t[b] == finish_event(p, start, d, i)
                && t[b].status == TaskStatus::Finished && t[a].status == TaskStatus::Launched
                && t[b].task_id == t[a].task_id && t[b].framework_id == t[a].framework_id
                && t[b].slave_id == t[a].slave_id && t[b].task_type == t[a].task_type,
{
    let l = launch_event(p, start, d, i);
    let f = finish_event(p, start, d, i);
    lemma_trace_events_hold(p, start, d, d.len(), i);
    finish_follows_launch(p, start, d, i);
    assert(t.contains(l));
    assert(t.contains(f));
    let a = choose|a: int| 0 <= a < t.len() && t[a] == l;
    let b = choose|b: int| 0 <= b < t.len() && t[b] == f;
    if b <= a {
        assert(t[b].timestamp <= t[a].timestamp);
    }
    assert(a < b);
}

} // verus!

verus! {

/// Pools from which every tick can draw.
pub open spec fn pools_ready(p: EntityPools) -> bool {
    &&& p.frameworks@.len() > 0
    &&& p.slaves@.len() > 0
    &&& p.task_types@.len() > 0
}

fn draw_index(rng: &mut StdRng, len: usize) -> (r: usize)
    requires
        len > 0,
    ensures
        r < len,
{
    draw_range(rng, 0, len as u64) as usize
}

/// Draws one tick: a clock step below `MAX_ADVANCE`, pool entries chosen with
/// replacement, a fresh task id and a duration from 1 to `MAX_DURATION`.
pub fn draw_tick(rng: &mut StdRng, pools: &EntityPools) -> (d: TickDraw)
    requires
        pools_ready(*pools),
    ensures
        draw_valid(*pools, d),
        d.task_id@.len() == ID_LEN,
        forall|j: int| 0 <= j < ID_LEN ==> is_alphanumeric(#[trigger] d.task_id@[j]),
{
    let advance = draw_range(rng, 0, MAX_ADVANCE);
    let task_type = draw_index(rng, pools.task_types.len());
    let framework = draw_index(rng, pools.frameworks.len());
    let slave = draw_index(rng, pools.slaves.len());
    let task_id = crate::random::random_id(rng, ID_LEN);
    let duration = draw_range(rng, 1, MAX_DURATION + 1);
    TickDraw { advance, framework, slave, task_type, task_id, duration }
}

/// Generates the trace of `event_count` ticks from the clock value `start`:
/// whatever the draws, the result is the trace of some valid draws.
pub fn generate_trace(rng: &mut StdRng, pools: &EntityPools, event_count: usize, start: u64) -> (r: Vec<TaskEvent>)
    requires
        pools_ready(*pools),
        start + MAX_ADVANCE * event_count + MAX_DURATION <= u64::MAX,
    ensures
        exists|d: Seq<TickDraw>|
            d.len() == event_count && draws_valid(*pools, d) && task_ids_valid(d) && is_trace_of(
                *pools,
                start as int,
                d,
                r@,
            ),
        r@.len() == 2 * event_count,
{
    let mut draws: Vec<TickDraw> = Vec::new();
    let mut k: usize = 0;
    while k < event_count
        invariant
            k <= event_count,
            pools_ready(*pools),
            draws@.len() == k,
            draws_valid(*pools, draws@),
            task_ids_valid(draws@),
        decreases event_count - k,
    {
        let d = draw_tick(rng, pools);
        draws.push(d);
        k = k + 1;
    }
    build_trace(start, pools, &draws)
}

} // verus!

verus! {

/// A finish event due no later than a launch's tick comes before that launch
/// in the trace, wherever either stands.
pub proof fn due_finish_precedes_launch(
    p: EntityPools,
    start: int,
    d: Seq<TickDraw>,
    t: Seq<TaskEvent>,
    i: int,
    j: int,
    a: int,
    b: int,
)
    requires
        is_trace_of(p, start, d, t),
        0 <= a < t.len(),
        0 <= b < t.len(),
        t[a] == finish_event(p, start, d, j),
        t[b] == launch_event(p, start, d, i),
        finish_event(p, start, d, j).timestamp <= launch_event(p, start, d, i).timestamp,
    ensures
        a < b,
{
    assert(t[a].timestamp <= t[b].timestamp);
}

} // verus!

verus! {

/// The task ids of the draws `d` are pairwise distinct.
pub open spec fn distinct_task_ids(d: Seq<TickDraw>) -> bool {
    forall|j: int, k: int| 0 <= j < d.len() && 0 <= k < d.len() && j != k ==> #[trigger] d[j].task_id != #[trigger] d[k].task_id
}

proof fn lemma_trace_events_members(p: EntityPools, start: int, d: Seq<TickDraw>, n: nat, x: TaskEvent)
    requires
        trace_events(p, start, d, n).count(x) > 0,
    ensures
        exists|j: int| 0 <= j < n && (x == launch_event(p, start, d, j) || x == finish_event(p, start, d, j)),
    decreases n,
{
    if n > 0 {
        let j = n - 1;
        if x != launch_event(p, start, d, j) && x != finish_event(p, start, d, j) {
            lemma_trace_events_members(p, start, d, (n - 1) as nat, x);
        }
    }
}

proof fn lemma_finish_count(p: EntityPools, start: int, d: Seq<TickDraw>, n: nat, i: int)
    requires
        distinct_task_ids(d),
        0 <= i < n <= d.len(),
    ensures
        trace_events(p, start, d, n).count(finish_event(p, start, d, i)) == 1,
    decreases n,
{
    let f = finish_event(p, start, d, i);
    let j = n - 1;
    if j != i {
        lemma_finish_count(p, start, d, (n - 1) as nat, i);
        assert(d[j].task_id != d[i].task_id);
    } else {
        lemma_finish_absent(p, start, d, (n - 1) as nat, i);
    }
}

proof fn lemma_finish_absent(p: EntityPools, start: int, d: Seq<TickDraw>, n: nat, i: int)
    requires
        distinct_task_ids(d),
        0 <= n <= i < d.len(),
    ensures
        trace_events(p, start, d, n).count(finish_event(p, start, d, i)) == 0,
    decreases n,
{
    if n > 0 {
        lemma_finish_absent(p, start, d, (n - 1) as nat, i);
        assert(d[n - 1].task_id != d[i].task_id);
    }
}

proof fn lemma_single_position(t: Seq<TaskEvent>, x: TaskEvent, a: int, b: int)
    requires
        t.to_multiset().count(x) == 1,
        0 <= a < t.len(),
        0 <= b < t.len(),
        t[a] == x,
        t[b] == x,
    ensures
        a == b,
{
    if a != b {
        let r = t.remove(a);
        assert(r.to_multiset() == t.to_multiset().remove(x));
        assert(r.to_multiset().count(x) == 0);
        let k = if b < a { b } else { b - 1 };
        assert(r[k] == x);
        assert(r.contains(x));
    }
}

/// Where the draws' task ids are distinct, a finish event of the trace that
/// carries the task id of tick `i` is that tick's finish event, and no other
/// finish event of the trace carries that id.
pub proof fn trace_finish_unique(p: EntityPools, start: int, d: Seq<TickDraw>, t: Seq<TaskEvent>, i: int, b: int)
    requires
        is_trace_of(p, start, d, t),
        distinct_task_ids(d),
        0 <= i < d.len(),
        0 <= b < t.len(),
        t[b].status == TaskStatus::Finished,
        t[b].task_id == d[i].task_id,
    ensures
        t[b] == finish_event(p, start, d, i),
        forall|c: int|
            0 <= c < t.len() && (#[trigger] t[c]).status == TaskStatus::Finished && t[c].task_id == d[i].task_id
                ==> c == b,
{
    assert forall|c: int|
        0 <= c < t.len() && (#[trigger] t[c]).status == TaskStatus::Finished && t[c].task_id == d[i].task_id
            implies t[c] == finish_event(p, start, d, i) by {
        assert(t.contains(t[c]));
        lemma_trace_events_members(p, start, d, d.len(), t[c]);
        let j = choose|j: int|
            0 <= j < d.len() && (t[c] == launch_event(p, start, d, j) || t[c] == finish_event(p, start, d, j));
        assert(j == i);
    }
    lemma_finish_count(p, start, d, d.len(), i);
    assert forall|c: int|
        0 <= c < t.len() && (#[trigger] t[c]).status == TaskStatus::Finished && t[c].task_id == d[i].task_id
            implies c == b by {
        lemma_single_position(t, finish_event(p, start, d, i), b, c);
    }
}

} // verus!

verus! {

proof fn lemma_last_launch(t: Seq<TaskEvent>)
    requires
        launches_of(t).len() > 0,
    ensures
        exists|m: int|
            0 <= m < t.len() && t[m] == launches_of(t).last() && t[m].status == TaskStatus::Launched && forall|b: int|
                m < b < t.len() ==> (#[trigger] t[b]).status != TaskStatus::Launched,
    decreases t.len(),
{
    if t.last().status == TaskStatus::Launched {
        assert(t[t.len() - 1] == launches_of(t).last());
    } else {
        lemma_last_launch(t.drop_last());
        let m = choose|m: int|
            0 <= m < t.drop_last().len() && t.drop_last()[m] == launches_of(t.drop_last()).last()
                && t.drop_last()[m].status == TaskStatus::Launched && forall|b: int|
                m < b < t.drop_last().len() ==> (#[trigger] t.drop_last()[b]).status != TaskStatus::Launched;
        assert(t[m] == launches_of(t).last());
        assert forall|b: int| m < b < t.len() implies (#[trigger] t[b]).status != TaskStatus::Launched by {
            if b < t.len() - 1 {
                assert(t.drop_last()[b] == t[b]);
            }
        }
    }
}

/// The final flush: the last tick's launch stands at some position `m`, and
/// the events after it are exactly the finish events of the trace due later
/// than that launch, in timestamp order.
pub proof fn trace_ends_with_flush(p: EntityPools, start: int, d: Seq<TickDraw>, t: Seq<TaskEvent>)
    requires
        is_trace_of(p, start, d, t),
        d.len() > 0,
    ensures
        exists|m: int|
            0 <= m < t.len() && t[m] == launch_event(p, start, d, d.len() - 1) && sorted_by_time(
                t.subrange(m + 1, t.len() as int),
            ) && forall|b: int|
                0 <= b < t.len() ==> (m < b <==> (#[trigger] t[b]).status == TaskStatus::Finished
                    && t[b].timestamp > t[m].timestamp),
{
    assert(launches_of(t).len() == d.len());
    lemma_last_launch(t);
    let m = choose|m: int|
        0 <= m < t.len() && t[m] == launches_of(t).last() && t[m].status == TaskStatus::Launched && forall|b: int|
            m < b < t.len() ==> (#[trigger] t[b]).status != TaskStatus::Launched;
    assert(launches_of(t).last() == launch_event(p, start, d, d.len() - 1));
    assert forall|b: int|
        0 <= b < t.len() implies (m < b <==> (#[trigger] t[b]).status == TaskStatus::Finished && t[b].timestamp
            > t[m].timestamp) by {
        if m < b {
            if t[b].timestamp <= t[m].timestamp {
                assert(b < m);
            }
        } else if b < m {
            assert(t[b].timestamp <= t[m].timestamp);
        }
    }
    let tail = t.subrange(m + 1, t.len() as int);
    assert forall|i: int, j: int| 0 <= i <= j < tail.len() implies #[trigger] tail[i].timestamp
        <= #[trigger] tail[j].timestamp by {
        assert(tail[i] == t[m + 1 + i] && tail[j] == t[m + 1 + j]);
    }
}

} // verus!

verus! {

/// Where the draws' task ids are distinct, each launch event of the trace is
/// followed by exactly one finish event with its task id; that finish carries
/// the same framework, slave and task type and is due 1 to `MAX_DURATION`
/// time units after the launch.
pub proof fn trace_launch_has_unique_finish(
    p: EntityPools,
    start: int,
    d: Seq<TickDraw>,
    t: Seq<TaskEvent>,
    a: int,
)
    requires
        is_trace_of(p, start, d, t),
        draws_valid(p, d),
        distinct_task_ids(d),
        0 <= start,
        start + MAX_ADVANCE * d.len() + MAX_DURATION <= u64::MAX,
        0 <= a < t.len(),
        t[a].status == TaskStatus::Launched,
    ensures
        exists|b: int|
            a < b < t.len() && t[b].status == TaskStatus::Finished && t[b].task_id == t[a].task_id
                && t[b].framework_id == t[a].framework_id && t[b].slave_id == t[a].slave_id
                && t[b].task_type == t[a].task_type && t[a].timestamp + 1 <= t[b].timestamp <= t[a].timestamp
                + MAX_DURATION && forall|c: int|
                0 <= c < t.len() && (#[trigger] t[c]).status == TaskStatus::Finished && t[c].task_id
                    == t[a].task_id ==> c == b,
{
    assert(t.contains(t[a]));
    lemma_trace_events_members(p, start, d, d.len(), t[a]);
    let i = choose|i: int|
        0 <= i < d.len() && (t[a] == launch_event(p, start, d, i) || t[a] == finish_event(p, start, d, i));
    assert(t[a] == launch_event(p, start, d, i));
    trace_pairs_launches(p, start, d, t, i);
    finish_follows_launch(p, start, d, i);
    let (a2, b) = choose|a2: int, b: int|
        0 <= a2 < b < t.len() && t[a2] == launch_event(p, start, d, i) && t[b] == finish_event(p, start, d, i)
            && t[b].status == TaskStatus::Finished && t[a2].status == TaskStatus::Launched
            && t[b].task_id == t[a2].task_id && t[b].framework_id == t[a2].framework_id
            && t[b].slave_id == t[a2].slave_id && t[b].task_type == t[a2].task_type;
    trace_finish_unique(p, start, d, t, i, b);
    if b <= a {
        assert(t[b].timestamp <= t[a].timestamp);
    }
}

} // verus!
