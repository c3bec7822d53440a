use rand::rngs::StdRng;
use rand::SeedableRng;
use trace_gen::clock::EventClock;
use trace_gen::args::{parse_event_count, ArgError};
use trace_gen::event::{header_line, render_trace, TaskEvent, TaskStatus};
use trace_gen::pools::{decimal_text, task_type_label, EntityPools};
use trace_gen::scheduler::CompletionScheduler;
use trace_gen::trace::{build_trace, generate_trace, TickDraw};

fn pools() -> EntityPools {
    EntityPools {
        frameworks: vec!["fw0".to_string(), "fw1".to_string()],
        slaves: vec!["sl0".to_string(), "sl1".to_string()],
        task_types: vec!["TASK_TYPE_0".to_string(), "TASK_TYPE_1".to_string()],
    }
}

fn draw(advance: u64, task_id: &str, duration: u64) -> TickDraw {
    TickDraw { advance, framework: 1, slave: 0, task_type: 1, task_id: task_id.to_string(), duration }
}

fn finish(ts: u64, id: &str) -> TaskEvent {
    TaskEvent::new(ts, "f".to_string(), id.to_string(), "s".to_string(), "t".to_string(), TaskStatus::Finished)
}

const START: u64 = 1_000_000;

#[test]
fn empty_run_emits_only_header() {
    let t = build_trace(START, &pools(), &Vec::new());
    assert!(t.is_empty());
    let lines = render_trace(&t);
    assert_eq!(lines, vec![header_line()]);
    assert_eq!(
        lines[0],
        "HEADER: <timestamp> <framework-id> <task-id> <slave-id> [<label-key>:<label-value>]..."
    );
}

#[test]
fn one_event_gives_launch_then_finish() {
    let t = build_trace(START, &pools(), &vec![draw(3, "abc", 7)]);
    assert_eq!(t.len(), 2);
    assert_eq!(t[0].status, TaskStatus::Launched);
    assert_eq!(t[1].status, TaskStatus::Finished);
    assert_eq!(t[0].timestamp, START + 3);
    assert_eq!(t[1].timestamp, START + 10);
    assert_eq!(t[0].task_id, "abc");
    assert_eq!(t[1].task_id, "abc");
    assert_eq!(t[1].framework_id, "fw1");
    assert_eq!(t[1].slave_id, "sl0");
    assert_eq!(t[1].task_type, "TASK_TYPE_1");
}

#[test]
fn due_finish_precedes_same_tick_launch() {
    // The first task finishes at START + 5, exactly when the second launches.
    let t = build_trace(START, &pools(), &vec![draw(0, "a", 5), draw(5, "b", 1)]);
    let ids: Vec<(&str, TaskStatus, u64)> =
        t.iter().map(|e| (e.task_id.as_str(), e.status, e.timestamp)).collect();
    assert_eq!(
        ids,
        vec![
            ("a", TaskStatus::Launched, START),
            ("a", TaskStatus::Finished, START + 5),
            ("b", TaskStatus::Launched, START + 5),
            ("b", TaskStatus::Finished, START + 6),
        ]
    );
}

#[test]
fn long_task_finishes_after_short_later_one() {
    let t = build_trace(START, &pools(), &vec![draw(1, "long", 30), draw(1, "short", 1)]);
    let ids: Vec<(&str, TaskStatus)> = t.iter().map(|e| (e.task_id.as_str(), e.status)).collect();
    assert_eq!(
        ids,
        vec![
            ("long", TaskStatus::Launched),
            ("short", TaskStatus::Launched),
            ("short", TaskStatus::Finished),
            ("long", TaskStatus::Finished),
        ]
    );
}

fn generated(seed: u64, n: usize) -> (EntityPools, Vec<TaskEvent>) {
    let mut rng = StdRng::seed_from_u64(seed);
    let p = EntityPools::generate(&mut rng, 100, 100, 10);
    let t = generate_trace(&mut rng, &p, n, START);
    (p, t)
}

#[test]
fn generated_trace_is_monotonic() {
    let (_, t) = generated(7, 500);
    assert_eq!(t.len(), 1000);
    for w in t.windows(2) {
        assert!(w[0].timestamp <= w[1].timestamp);
    }
}

#[test]
fn generated_launches_pair_with_later_finish() {
    let (_, t) = generated(11, 300);
    for (a, l) in t.iter().enumerate() {
        if l.status != TaskStatus::Launched {
            continue;
        }
        let matches: Vec<usize> = (0..t.len())
            .filter(|&b| {
                t[b].status == TaskStatus::Finished
                    && t[b].task_id == l.task_id
                    && t[b].framework_id == l.framework_id
                    && t[b].slave_id == l.slave_id
                    && t[b].task_type == l.task_type
            })
            .collect();
        assert_eq!(matches.len(), 1);
        let b = matches[0];
        assert!(b > a);
        assert!(t[b].timestamp >= l.timestamp + 1);
        assert!(t[b].timestamp <= l.timestamp + 30);
    }
}

#[test]
fn generated_same_seed_same_trace() {
    let (_, a) = generated(5, 50);
    let (_, b) = generated(5, 50);
    let la: Vec<String> = a.iter().map(|e| e.to_line()).collect();
    let lb: Vec<String> = b.iter().map(|e| e.to_line()).collect();
    assert_eq!(la, lb);
}

#[test]
fn pools_have_sized_alphanumeric_ids() {
    let mut rng = StdRng::seed_from_u64(3);
    let p = EntityPools::generate(&mut rng, 100, 100, 10);
    assert_eq!(p.frameworks.len(), 100);
    assert_eq!(p.slaves.len(), 100);
    for id in p.frameworks.iter().chain(p.slaves.iter()) {
        assert_eq!(id.len(), 24);
        assert!(id.chars().all(|c| c.is_ascii_alphanumeric()));
    }
    assert_eq!(p.task_types[0], "TASK_TYPE_0");
    assert_eq!(p.task_types[9], "TASK_TYPE_9");
}

#[test]
fn decimal_and_task_type_names() {
    assert_eq!(decimal_text(0), "0");
    assert_eq!(decimal_text(10), "10");
    assert_eq!(decimal_text(18446744073709551615), "18446744073709551615");
    assert_eq!(task_type_label(7), "TASK_TYPE_7");
    assert_eq!(task_type_label(42), "TASK_TYPE_42");
}

#[test]
fn line_format() {
    let e = TaskEvent::new(
        0,
        "fw".to_string(),
        "task".to_string(),
        "slave".to_string(),
        "TASK_TYPE_3".to_string(),
        TaskStatus::Launched,
    );
    assert_eq!(e.to_line(), "1970-01-01T00:00:00Z fw task slave TASK_TYPE:TASK_TYPE_3 TASK_STATUS:LAUNCHED");
    assert_eq!(e.render_line("T"), "T fw task slave TASK_TYPE:TASK_TYPE_3 TASK_STATUS:LAUNCHED");
    let f = e.finish_at(1_234_567_890);
    assert_eq!(f.to_line(), "2009-02-13T23:31:30Z fw task slave TASK_TYPE:TASK_TYPE_3 TASK_STATUS:FINISHED");
    let labels = f.labels();
    assert_eq!(
        labels,
        vec![
            ("TASK_TYPE".to_string(), "TASK_TYPE_3".to_string()),
            ("TASK_STATUS".to_string(), "FINISHED".to_string())
        ]
    );
}

#[test]
fn scheduler_drains_due_in_order() {
    let mut s = CompletionScheduler::new();
    s.schedule(finish(30, "c"));
    s.schedule(finish(10, "a"));
    s.schedule(finish(20, "b"));
    assert_eq!(s.len(), 3);
    assert!(s.pop_due(9).is_none());
    assert_eq!(s.len(), 3);
    let due = s.drain_due(20);
    let ids: Vec<&str> = due.iter().map(|e| e.task_id.as_str()).collect();
    assert_eq!(ids, vec!["a", "b"]);
    assert_eq!(s.len(), 1);
    assert_eq!(s.pop_min().unwrap().task_id, "c");
    assert!(s.pop_min().is_none());
    assert!(s.is_empty());
}

#[test]
fn final_flush_drains_everything_in_order() {
    let mut s = CompletionScheduler::new();
    for (ts, id) in [(5, "e"), (1, "a"), (3, "c"), (3, "d"), (2, "b")] {
        s.schedule(finish(ts, id));
    }
    let n = s.len();
    let rest = s.drain_all();
    assert_eq!(rest.len(), n);
    let ts: Vec<u64> = rest.iter().map(|e| e.timestamp).collect();
    assert_eq!(ts, vec![1, 2, 3, 3, 5]);
    assert!(s.is_empty());
}

#[test]
fn event_count_parsing() {
    assert_eq!(parse_event_count("0"), Ok(0));
    assert_eq!(parse_event_count("1"), Ok(1));
    assert_eq!(parse_event_count("250"), Ok(250));
    assert_eq!(parse_event_count("18446744073709551615"), Ok(u64::MAX));
    assert_eq!(parse_event_count("18446744073709551616"), Err(ArgError::TooLarge));
    assert_eq!(parse_event_count("abc"), Err(ArgError::NotANumber));
    assert_eq!(parse_event_count("-5"), Err(ArgError::NotANumber));
    assert_eq!(parse_event_count("+5"), Err(ArgError::NotANumber));
    assert_eq!(parse_event_count(""), Err(ArgError::Empty));
}

#[test]
fn clock_moves_forward() {
    let mut c = EventClock::new(100);
    assert_eq!(c.advance_by(4), 104);
    let mut rng = StdRng::seed_from_u64(1);
    for _ in 0..100 {
        let before = c.now();
        let now = c.advance(&mut rng);
        assert!(now >= before && now < before + 10);
    }
}

#[test]
fn zero_events_render_header_only() {
    let (_, t) = generated(2, 0);
    let lines = render_trace(&t);
    assert_eq!(lines.len(), 1);
    assert!(lines[0].starts_with("HEADER: "));
}

#[test]
fn one_event_renders_launch_then_finish() {
    let (_, t) = generated(4, 1);
    let lines = render_trace(&t);
    assert_eq!(lines.len(), 3);
    assert!(lines[1].ends_with(" TASK_STATUS:LAUNCHED"));
    assert!(lines[2].ends_with(" TASK_STATUS:FINISHED"));
    let l: Vec<&str> = lines[1].split(' ').collect();
    let f: Vec<&str> = lines[2].split(' ').collect();
    assert_eq!(l[1..5], f[1..5]);
    assert!(t[1].timestamp > t[0].timestamp);
    assert!(l[0] < f[0]);
}

#[test]
fn equal_time_launches_keep_tick_order() {
    let t = build_trace(START, &pools(), &vec![draw(2, "x", 9), draw(0, "y", 3), draw(0, "z", 1)]);
    let launches: Vec<&str> = t
        .iter()
        .filter(|e| e.status == TaskStatus::Launched)
        .map(|e| e.task_id.as_str())
        .collect();
    assert_eq!(launches, vec!["x", "y", "z"]);
    assert!(t[..3].iter().all(|e| e.timestamp == START + 2));
}

#[test]
fn generated_task_ids_are_alphanumeric() {
    let (_, t) = generated(9, 200);
    for e in &t {
        assert_eq!(e.task_id.len(), 24);
        assert!(e.task_id.chars().all(|c| c.is_ascii_alphanumeric()));
    }
}

#[test]
fn flush_after_last_launch_holds_only_later_finishes() {
    let (_, t) = generated(13, 100);
    let m = t.iter().rposition(|e| e.status == TaskStatus::Launched).unwrap();
    let last = t[m].timestamp;
    let later = t.iter().filter(|e| e.status == TaskStatus::Finished && e.timestamp > last).count();
    assert_eq!(t.len() - m - 1, later);
    for w in t[m + 1..].windows(2) {
        assert!(w[0].timestamp <= w[1].timestamp);
    }
}

#[test]
fn rendered_timestamps_have_utc_shape() {
    let (_, t) = generated(21, 20);
    for line in render_trace(&t).iter().skip(1) {
        let ts: Vec<char> = line.split(' ').next().unwrap().chars().collect();
        assert_eq!(ts.len(), 20);
        assert_eq!((ts[4], ts[7], ts[10], ts[13], ts[16], ts[19]), ('-', '-', 'T', ':', ':', 'Z'));
    }
}
