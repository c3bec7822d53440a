use vstd::prelude::*;

verus! {

/// Lifecycle status carried by an event's `TASK_STATUS` label.
#[derive(Clone, Copy, Debug, PartialEq, Eq, Structural)]
pub enum TaskStatus {
    Launched,
    Finished,
}

/// One line of the trace: a launch or a finish of a task.
#[derive(Debug)]
pub struct TaskEvent {
    /// Seconds since the Unix epoch.
    pub timestamp: u64,
    pub framework_id: String,
    pub task_id: String,
    pub slave_id: String,
    pub task_type: String,
    pub status: TaskStatus,
}

/// The events of `s` appear in non-decreasing timestamp order.
pub open spec fn sorted_by_time(s: Seq<TaskEvent>) -> bool {
    forall|i: int, j: int| 0 <= i <= j < s.len() ==> #[trigger] s[i].timestamp <= #[trigger] s[j].timestamp
}

/// The text of a status label's value.
pub open spec fn status_text(s: TaskStatus) -> Seq<char> {
    match s {
        TaskStatus::Launched => "LAUNCHED"@,
        TaskStatus::Finished => "FINISHED"@,
    }
}

/// The line for `e`, given the textual form `ts` of its timestamp.
pub open spec fn line_of(e: TaskEvent, ts: Seq<char>) -> Seq<char> {
    ts + " "@ + e.framework_id@ + " "@ + e.task_id@ + " "@ + e.slave_id@ + " TASK_TYPE:"@
        + e.task_type@ + " TASK_STATUS:"@ + status_text(e.status)
}

impl TaskStatus {
    /// The label value of this status.
    pub fn label(&self) -> (r: &'static str)
        ensures
            r@ == status_text(*self),
    {
        match self {
            TaskStatus::Launched => "LAUNCHED",
            TaskStatus::Finished => "FINISHED",
        }
    }
}

impl TaskEvent {
    pub fn new(
        timestamp: u64,
        framework_id: String,
        task_id: String,
        slave_id: String,
        task_type: String,
        status: TaskStatus,
    ) -> (r: TaskEvent)
        ensures
            r == (TaskEvent { timestamp, framework_id, task_id, slave_id, task_type, status }),
    {
        TaskEvent { timestamp, framework_id, task_id, slave_id, task_type, status }
    }

    /// The finish event paired with this launch, due at `due`: the same task id,
    /// framework, slave and task type.
    pub fn finish_at(&self, due: u64) -> (r: TaskEvent)
        ensures
            r == (TaskEvent { timestamp: due, status: TaskStatus::Finished, ..*self }),
    {
        TaskEvent {
            timestamp: due,
            framework_id: self.framework_id.clone(),
            task_id: self.task_id.clone(),
            slave_id: self.slave_id.clone(),
            task_type: self.task_type.clone(),
            status: TaskStatus::Finished,
        }
    }

    /// The labels in order: `TASK_TYPE`, then `TASK_STATUS`.
    pub fn labels(&self) -> (r: Vec<(String, String)>)
        ensures
            r@.len() == 2,
            r@[0].0@ == "TASK_TYPE"@,
            r@[0].1@ == self.task_type@,
            r@[1].0@ == "TASK_STATUS"@,
            r@[1].1@ == status_text(self.status),
    {
        let mut r: Vec<(String, String)> = Vec::new();
        r.push((String::from_str("TASK_TYPE"), self.task_type.clone()));
        r.push((String::from_str("TASK_STATUS"), String::from_str(self.status.label())));
        r
    }

    /// Renders the line, with `ts` as the timestamp's text: the timestamp, the
    /// three identifiers, then each label as `key:value`, separated by spaces.
    pub fn render_line(&self, ts: &str) -> (r: String)
        ensures
            r@ == line_of(*self, ts@),
    {
        let mut r = String::from_str(ts);
        r.append(" ");
        r.append(self.framework_id.as_str());
        r.append(" ");
        r.append(self.task_id.as_str());
        r.append(" ");
        r.append(self.slave_id.as_str());
        r.append(" TASK_TYPE:");
        r.append(self.task_type.as_str());
        r.append(" TASK_STATUS:");
        r.append(self.status.label());
        r
    }
}

/// RFC 3339 text of a UTC time to the second: `dddd-dd-ddTdd:dd:ddZ`.
pub open spec fn is_utc_timestamp_text(s: Seq<char>) -> bool {
    &&& s.len() == 20
    &&& s[4] == '-' && s[7] == '-' && s[10] == 'T' && s[13] == ':' && s[16] == ':' && s[19] == 'Z'
    &&& forall|i: int|
        0 <= i < 20 && i != 4 && i != 7 && i != 10 && i != 13 && i != 16 && i != 19 ==> '0' <= #[trigger] s[i]
            && s[i] <= '9'
}

/// `line` is the line of `e`, its timestamp written as RFC 3339 text in UTC.
pub open spec fn is_trace_line(line: Seq<char>, e: TaskEvent) -> bool {
    exists|ts: Seq<char>| is_utc_timestamp_text(ts) && line == line_of(e, ts)
}

/// Latest second, 9999-12-31T23:59:59Z, whose RFC 3339 text has a four-digit year.
pub const MAX_TIMESTAMP: u64 = 253402300799;

/// Relies on time::at_utc and time::Tm::rfc3339: the UTC calendar time of
/// `secs`, written `%Y-%m-%dT%H:%M:%SZ`. From 1970 to year 9999 the year has
/// four digits and every other field two.
#[verifier::external_body]
fn rfc3339_text(secs: u64) -> (r: String)
    requires
        secs <= MAX_TIMESTAMP,
    ensures
        is_utc_timestamp_text(r@),
{
    time::at_utc(time::Timespec::new(secs as i64, 0)).rfc3339().to_string()
}

impl TaskEvent {
    /// The trace line of this event, its timestamp written as RFC 3339 text in UTC.
    pub fn to_line(&self) -> (r: String)
        requires
            self.timestamp <= MAX_TIMESTAMP,
        ensures
            is_trace_line(r@, *self),
    {
        let ts = rfc3339_text(self.timestamp);
        self.render_line(ts.as_str())
    }
}

/// The header line, then one line for each event of `events`, in order.
pub fn render_trace(events: &Vec<TaskEvent>) -> (r: Vec<String>)
    requires
        forall|k: int| 0 <= k < events@.len() ==> #[trigger] events@[k].timestamp <= MAX_TIMESTAMP,
    ensures
        r@.len() == events@.len() + 1,
        r@[0]@ == header_text(),
        forall|k: int| 0 <= k < events@.len() ==> is_trace_line(#[trigger] r@[k + 1]@, events@[k]),
{
    let mut r: Vec<String> = Vec::new();
    r.push(header_line());
    let mut k: usize = 0;
    while k < events.len()
        invariant
            k <= events@.len(),
            r@.len() == k + 1,
            r@[0]@ == header_text(),
            forall|j: int| 0 <= j < events@.len() ==> #[trigger] events@[j].timestamp <= MAX_TIMESTAMP,
            forall|j: int| 0 <= j < k ==> is_trace_line(#[trigger] r@[j + 1]@, events@[j]),
        decreases events@.len() - k,
    {
        r.push(events[k].to_line());
        k = k + 1;
    }
    r
}

pub open spec fn header_text() -> Seq<char> {
    "HEADER: <timestamp> <framework-id> <task-id> <slave-id> [<label-key>:<label-value>]..."@
}

/// The line that precedes the trace and names its columns.
pub fn header_line() -> (r: String)
    ensures
        r@ == header_text(),
{
    String::from_str("HEADER: <timestamp> <framework-id> <task-id> <slave-id> [<label-key>:<label-value>]...")
}

} // verus!
