//! Domain types of the tracker: priorities, statuses, calendar timestamps and
//! the task record itself.

use vstd::prelude::*;

use chrono::Datelike;
use chrono::Timelike;
use vstd::string::StringExecFns;

use crate::text::lowercase;

verus! {

/// Priority band of a task. `Urgent` sorts first, `Low` last.
#[derive(Debug, Clone, Copy, PartialEq, Eq, Structural)]
pub enum Priority {
    Low,
    Medium,
    High,
    Urgent,
}

impl Priority {
    /// Sort rank of the band: the most urgent band has the smallest rank.
    pub open spec fn spec_rank(self) -> u8 {
        match self {
            Priority::Urgent => 0,
            Priority::High => 1,
            Priority::Medium => 2,
            Priority::Low => 3,
        }
    }

    /// Numeric rank used as the primary sort key of task listings.
    #[verifier::when_used_as_spec(spec_rank)]
    pub fn rank(self) -> (r: u8)
        ensures
            r == self.spec_rank(),
    {
        match self {
            Priority::Urgent => 0,
            Priority::High => 1,
            Priority::Medium => 2,
            Priority::Low => 3,
        }
    }

    /// Short display code of the band.
    pub fn as_str(self) -> (r: &'static str)
        ensures
            self == Priority::Low ==> r@ == "LOW"@,
            self == Priority::Medium ==> r@ == "MED"@,
            self == Priority::High ==> r@ == "HIGH"@,
            self == Priority::Urgent ==> r@ == "URGENT"@,
    {
        match self {
            Priority::Low => "LOW",
            Priority::Medium => "MED",
            Priority::High => "HIGH",
            Priority::Urgent => "URGENT",
        }
    }
}


impl core::str::FromStr for Priority {
    type Err = String;

    /// Reads a band from its name or one-letter code, ignoring case.
    fn from_str(s: &str) -> Result<Priority, String> {
        let low = lowercase(s);
        if low == "low".to_owned() || low == "l".to_owned() {
            Ok(Priority::Low)
        } else if low == "medium".to_owned() || low == "med".to_owned() || low == "m".to_owned() {
            Ok(Priority::Medium)
        } else if low == "high".to_owned() || low == "h".to_owned() {
            Ok(Priority::High)
        } else if low == "urgent".to_owned() || low == "u".to_owned() {
            Ok(Priority::Urgent)
        } else {
            Err("Unknown priority: ".to_owned().concat(s))
        }
    }
}

/// Progress state of a task. Any state may be set at any time; none is
/// terminal.
#[derive(Debug, Clone, Copy, PartialEq, Eq, Structural)]
pub enum Status {
    Pending,
    InProgress,
    Completed,
    Cancelled,
}

impl Status {
    /// Display code of the state.
    pub fn as_str(self) -> (r: &'static str)
        ensures
            self == Status::Pending ==> r@ == "PENDING"@,
            self == Status::InProgress ==> r@ == "IN_PROGRESS"@,
            self == Status::Completed ==> r@ == "COMPLETED"@,
            self == Status::Cancelled ==> r@ == "CANCELLED"@,
    {
        match self {
            Status::Pending => "PENDING",
            Status::InProgress => "IN_PROGRESS",
            Status::Completed => "COMPLETED",
            Status::Cancelled => "CANCELLED",
        }
    }

    /// One-glyph symbol of the state, for terminal listings.
    pub fn symbol(self) -> (r: &'static str)
        ensures
            self == Status::Pending ==> r@ == "⏳"@,
            self == Status::InProgress ==> r@ == "🔄"@,
            self == Status::Completed ==> r@ == "✅"@,
            self == Status::Cancelled ==> r@ == "❌"@,
    {
        match self {
            Status::Pending => "⏳",
            Status::InProgress => "🔄",
            Status::Completed => "✅",
            Status::Cancelled => "❌",
        }
    }
}

/// A calendar timestamp with one-second precision, kept as plain civil
/// fields so that every comparison and every byte of the stored form is
/// fixed by the fields alone.
#[derive(Debug, Clone, Copy, PartialEq, Eq, Structural)]
pub struct Timestamp {
    pub year: u16,
    pub month: u8,
    pub day: u8,
    pub hour: u8,
    pub minute: u8,
    pub second: u8,
}

impl Timestamp {
    /// Field bounds: four-digit year, calendar month and day, clock time.
    pub open spec fn wf(self) -> bool {
        &&& self.year <= 9999
        &&& 1 <= self.month <= 12
        &&& 1 <= self.day <= 31
        &&& self.hour <= 23
        &&& self.minute <= 59
        &&& self.second <= 59
    }

    /// Chronological order of two timestamps: lexicographic on the fields.
    pub open spec fn spec_le(self, other: Self) -> bool {
        if self.year != other.year {
            self.year < other.year
        } else if self.month != other.month {
            self.month < other.month
        } else if self.day != other.day {
            self.day < other.day
        } else if self.hour != other.hour {
            self.hour < other.hour
        } else if self.minute != other.minute {
            self.minute < other.minute
        } else {
            self.second <= other.second
        }
    }

    /// Decides `spec_le`: is `self` at or before `other`?
    pub fn le(&self, other: &Self) -> (r: bool)
        ensures
            r == self.spec_le(*other),
    {
        if self.year != other.year {
            self.year < other.year
        } else if self.month != other.month {
            self.month < other.month
        } else if self.day != other.day {
            self.day < other.day
        } else if self.hour != other.hour {
            self.hour < other.hour
        } else if self.minute != other.minute {
            self.minute < other.minute
        } else {
            self.second <= other.second
        }
    }

    /// The current local time. Whatever the clock reports, the result is a
    /// well-formed timestamp: fields outside the representable range are
    /// clamped.
    pub fn now() -> (t: Timestamp)
        ensures
            t.wf(),
    {
        let (year, month, day, hour, minute, second) = clock_now_fields();
        let y: u16 = if year < 0 {
            0
        } else if year > 9999 {
            9999
        } else {
            year as u16
        };
        Timestamp {
            year: y,
            month: month as u8,
            day: day as u8,
            hour: hour as u8,
            minute: minute as u8,
            second: second as u8,
        }
    }
}

/// Reads the machine clock. Relies on `chrono::Local::now` together with the
/// `Datelike` and `Timelike` accessors, whose documentation fixes the ranges:
/// month 1..=12, day 1..=31, hour 0..=23, minute and second 0..=59. The year
/// is unbounded and nothing else can be promised of a clock reading.
#[verifier::external_body]
fn clock_now_fields() -> (r: (i32, u32, u32, u32, u32, u32))
    ensures
        1 <= r.1 <= 12,
        1 <= r.2 <= 31,
        r.3 <= 23,
        r.4 <= 59,
        r.5 <= 59,
{
    let now = chrono::Local::now();
    (now.year(), now.month(), now.day(), now.hour(), now.minute(), now.second())
}

/// Ghost image of a task: every field as a mathematical value.
#[verifier::ext_equal]
pub struct TaskView {
    pub id: u64,
    pub title: Seq<char>,
    pub description: Option<Seq<char>>,
    pub priority: Priority,
    pub status: Status,
    pub tags: Seq<Seq<char>>,
    pub created_at: Timestamp,
    pub updated_at: Timestamp,
    pub completed_at: Option<Timestamp>,
    pub due_date: Option<Timestamp>,
}

/// A single to-do item. Identifiers are assigned by the store; timestamps
/// come from the clock at construction and at each state change.
#[derive(Debug)]
pub struct Task {
    pub id: u64,
    pub title: String,
    pub description: Option<String>,
    pub priority: Priority,
    pub status: Status,
    pub tags: Vec<String>,
    pub created_at: Timestamp,
    pub updated_at: Timestamp,
    pub completed_at: Option<Timestamp>,
    pub due_date: Option<Timestamp>,
}

impl View for Task {
    type V = TaskView;

    open spec fn view(&self) -> TaskView {
        TaskView {
            id: self.id,
            title: self.title@,
            description: match self.description {
                Some(d) => Some(d@),
                None => None,
            },
            priority: self.priority,
            status: self.status,
            tags: self.tags.deep_view(),
            created_at: self.created_at,
            updated_at: self.updated_at,
            completed_at: self.completed_at,
            due_date: self.due_date,
        }
    }
}

impl DeepView for Task {
    type V = TaskView;

    open spec fn deep_view(&self) -> TaskView {
        self.view()
    }
}

impl TaskView {
    /// Timestamps are well-formed and a task is never updated before it was
    /// created.
    pub open spec fn wf(self) -> bool {
        &&& self.created_at.wf()
        &&& self.updated_at.wf()
        &&& self.created_at.spec_le(self.updated_at)
        &&& match self.completed_at {
            Some(t) => t.wf(),
            None => true,
        }
        &&& match self.due_date {
            Some(t) => t.wf(),
            None => true,
        }
    }
}

impl Task {
    /// A fresh task: pending, untagged, created and last updated now.
    /// The identifier is provisional; the store overwrites it on insert.
    pub fn new(id: u64, title: &str, priority: Priority) -> (t: Task)
        ensures
            t@.wf(),
            t@.id == id,
            t@.title == title@,
            t@.description is None,
            t@.priority == priority,
            t@.status == Status::Pending,
            t@.tags == Seq::<Seq<char>>::empty(),
            t@.created_at == t@.updated_at,
            t@.completed_at is None,
            t@.due_date is None,
    {
        let now = Timestamp::now();
        let t = Task {
            id,
            title: title.to_owned(),
            description: None,
            priority,
            status: Status::Pending,
            tags: Vec::new(),
            created_at: now,
            updated_at: now,
            completed_at: None,
            due_date: None,
        };
        proof {
            assert(t@.tags =~= Seq::<Seq<char>>::empty());
        }
        t
    }

    /// Builder step: sets the description. Nothing is validated.
    pub fn with_description(self, desc: &str) -> (t: Task)
        ensures
            t@ == (TaskView { description: Some(desc@), ..self@ }),
    {
        let ghost sv = self@;
        let mut t = self;
        t.description = Some(desc.to_owned());
        proof {
            assert(t@ =~= (TaskView { description: Some(desc@), ..sv }));
        }
        t
    }

    /// Builder step: replaces the tag list. Order is kept; duplicates and
    /// empty tags are accepted.
    pub fn with_tags(self, tags: Vec<String>) -> (t: Task)
        ensures
            t@ == (TaskView { tags: tags.deep_view(), ..self@ }),
    {
        let mut t = self;
        t.tags = tags;
        t
    }

    /// Builder step: sets the due date. Past dates are accepted.
    pub fn with_due_date(self, due: Timestamp) -> (t: Task)
        ensures
            t@ == (TaskView { due_date: Some(due), ..self@ }),
    {
        let mut t = self;
        t.due_date = Some(due);
        t
    }

    /// Marks the task completed and records the completion time. No previous
    /// state is required; repeating the call only refreshes the timestamps.
    pub fn complete(&mut self)
        ensures
            final(self)@ == (TaskView {
                status: Status::Completed,
                completed_at: Some(final(self)@.updated_at),
                updated_at: final(self)@.updated_at,
                ..old(self)@
            }),
            old(self).created_at.spec_le(final(self)@.updated_at),
            old(self)@.wf() ==> final(self)@.wf(),
    {
        let now = Timestamp::now();
        let stamp = if self.created_at.le(&now) {
            now
        } else {
            self.created_at
        };
        self.status = Status::Completed;
        self.completed_at = Some(stamp);
        self.updated_at = stamp;
    }

    /// Marks the task in progress. No previous state is required.
    pub fn start(&mut self)
        ensures
            final(self)@ == (TaskView {
                status: Status::InProgress,
                updated_at: final(self)@.updated_at,
                ..old(self)@
            }),
            old(self).created_at.spec_le(final(self)@.updated_at),
            old(self)@.wf() ==> final(self)@.wf(),
    {
        let now = Timestamp::now();
        let stamp = if self.created_at.le(&now) {
            now
        } else {
            self.created_at
        };
        self.status = Status::InProgress;
        self.updated_at = stamp;
    }

    /// Marks the task cancelled. No previous state is required, and a
    /// recorded completion time is never cleared.
    pub fn cancel(&mut self)
        ensures
            final(self)@ == (TaskView {
                status: Status::Cancelled,
                updated_at: final(self)@.updated_at,
                ..old(self)@
            }),
            old(self).created_at.spec_le(final(self)@.updated_at),
            old(self)@.wf() ==> final(self)@.wf(),
    {
        let now = Timestamp::now();
        let stamp = if self.created_at.le(&now) {
            now
        } else {
            self.created_at
        };
        self.status = Status::Cancelled;
        self.updated_at = stamp;
    }
}

} // verus!
