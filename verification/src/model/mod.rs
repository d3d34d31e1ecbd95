//! The core types of the tracker.
//!
//! - [`Issue`]: a work item
//! - [`Status`], [`IssueType`], [`Priority`]: where it stands, what it is and
//!   how much it matters
//! - [`Dependency`], [`Comment`]: what hangs on it

use crate::error::{BeadsError, BeadsErrorView};
use crate::order;
use crate::order::{
    rank_numbers, rank_optionals, rank_texts, sort_distinct, stable_sort, Rank, Ranked,
};
use crate::text;
use crate::text::{read_digits, same_optional, same_text, signed_decimal_of, to_lower, to_upper};
use crate::time;
use crate::time::Timestamp;
use vstd::prelude::*;
use vstd::string::*;

pub mod search;
pub mod sort;

verus! {

broadcast use vstd::string::group_string_axioms;

/// Issue lifecycle status.
#[derive(Debug, Clone, PartialEq, Eq, Hash)]
pub enum Status {
    Open,
    InProgress,
    Blocked,
    Deferred,
    Draft,
    Closed,
    Tombstone,
    Pinned,
    Custom(String),
}

/// What contracts say of a [`Status`].
pub enum StatusView {
    Open,
    InProgress,
    Blocked,
    Deferred,
    Draft,
    Closed,
    Tombstone,
    Pinned,
    Custom(Seq<char>),
}

impl View for Status {
    type V = StatusView;

    open spec fn view(&self) -> StatusView {
        match self {
            Status::Open => StatusView::Open,
            Status::InProgress => StatusView::InProgress,
            Status::Blocked => StatusView::Blocked,
            Status::Deferred => StatusView::Deferred,
            Status::Draft => StatusView::Draft,
            Status::Closed => StatusView::Closed,
            Status::Tombstone => StatusView::Tombstone,
            Status::Pinned => StatusView::Pinned,
            Status::Custom(value) => StatusView::Custom(value@),
        }
    }
}

/// The status that the lowercase text `s` names, if it names a known one.
pub open spec fn status_named(s: Seq<char>) -> Option<StatusView> {
    if s == "open"@ {
        Some(StatusView::Open)
    } else if s == "in_progress"@ || s == "inprogress"@ {
        Some(StatusView::InProgress)
    } else if s == "blocked"@ {
        Some(StatusView::Blocked)
    } else if s == "deferred"@ {
        Some(StatusView::Deferred)
    } else if s == "draft"@ {
        Some(StatusView::Draft)
    } else if s == "closed"@ {
        Some(StatusView::Closed)
    } else if s == "tombstone"@ {
        Some(StatusView::Tombstone)
    } else if s == "pinned"@ {
        Some(StatusView::Pinned)
    } else {
        None
    }
}

/// The name of a status.
pub open spec fn status_name(s: StatusView) -> Seq<char> {
    match s {
        StatusView::Open => "open"@,
        StatusView::InProgress => "in_progress"@,
        StatusView::Blocked => "blocked"@,
        StatusView::Deferred => "deferred"@,
        StatusView::Draft => "draft"@,
        StatusView::Closed => "closed"@,
        StatusView::Tombstone => "tombstone"@,
        StatusView::Pinned => "pinned"@,
        StatusView::Custom(value) => value,
    }
}

/// The place of a status in the sort order.
pub open spec fn status_rank(s: StatusView) -> int {
    match s {
        StatusView::Open => 0,
        StatusView::InProgress => 1,
        StatusView::Blocked => 2,
        StatusView::Deferred => 3,
        StatusView::Draft => 4,
        StatusView::Closed => 5,
        StatusView::Tombstone => 6,
        StatusView::Pinned => 7,
        StatusView::Custom(_) => 99,
    }
}

/// The status that a lowercase text stands for: a known one, or a custom one
/// under that text.
pub open spec fn status_for(lower: Seq<char>) -> StatusView {
    match status_named(lower) {
        Some(known) => known,
        None => StatusView::Custom(lower),
    }
}

impl Status {
    /// The status that a text names in any letter case, if it is a known one.
    pub fn known_value(value: &str) -> (r: Option<Status>)
        ensures
            text::seen(r) == status_named(text::lower(value@)),
    {
        Status::known_lowercase(to_lower(value).as_str())
    }

    /// The status that a lowercase text names, if it is a known one.
    pub fn known_lowercase(lower: &str) -> (r: Option<Status>)
        ensures
            text::seen(r) == status_named(lower@),
    {
        if same_text(lower, "open") {
            Some(Status::Open)
        } else if same_text(lower, "in_progress") || same_text(lower, "inprogress") {
            Some(Status::InProgress)
        } else if same_text(lower, "blocked") {
            Some(Status::Blocked)
        } else if same_text(lower, "deferred") {
            Some(Status::Deferred)
        } else if same_text(lower, "draft") {
            Some(Status::Draft)
        } else if same_text(lower, "closed") {
            Some(Status::Closed)
        } else if same_text(lower, "tombstone") {
            Some(Status::Tombstone)
        } else if same_text(lower, "pinned") {
            Some(Status::Pinned)
        } else {
            None
        }
    }

    /// The name of this status.
    pub fn as_str(&self) -> (r: &str)
        ensures
            r@ == status_name(self@),
    {
        match self {
            Status::Open => "open",
            Status::InProgress => "in_progress",
            Status::Blocked => "blocked",
            Status::Deferred => "deferred",
            Status::Draft => "draft",
            Status::Closed => "closed",
            Status::Tombstone => "tombstone",
            Status::Pinned => "pinned",
            Status::Custom(value) => value.as_str(),
        }
    }

    /// Rank table for sorting, in declaration order.
    pub const SORT_RANKS: [(&'static str, u8); 8] = [
        ("open", 0),
        ("in_progress", 1),
        ("blocked", 2),
        ("deferred", 3),
        ("draft", 4),
        ("closed", 5),
        ("tombstone", 6),
        ("pinned", 7),
    ];

    /// Rank shared by every custom status, so they sort after all known ones.
    pub const CUSTOM_SORT_RANK: u8 = 99;

    /// Sort position of this status.
    pub fn sort_rank(&self) -> (r: u8)
        ensures
            r == status_rank(self@),
    {
        match self {
            Status::Open => 0,
            Status::InProgress => 1,
            Status::Blocked => 2,
            Status::Deferred => 3,
            Status::Draft => 4,
            Status::Closed => 5,
            Status::Tombstone => 6,
            Status::Pinned => 7,
            Status::Custom(_) => Status::CUSTOM_SORT_RANK,
        }
    }

    /// Whether nothing further happens to an issue in this status.
    pub fn is_terminal(&self) -> (r: bool)
        ensures
            r == (self@ is Closed || self@ is Tombstone),
    {
        matches!(self, Status::Closed | Status::Tombstone)
    }

    /// Whether an issue in this status is being worked on or waits to be.
    pub fn is_active(&self) -> (r: bool)
        ensures
            r == (self@ is Open || self@ is InProgress),
    {
        matches!(self, Status::Open | Status::InProgress)
    }

    /// The name of this status, as an owned text.
    pub fn to_string(&self) -> (r: String)
        ensures
            r@ == status_name(self@),
    {
        self.as_str().to_owned()
    }

    /// The status that a text stands for: a known one in any letter case, or
    /// a custom one under the lowercase text. No text is refused.
    pub fn from_str(s: &str) -> (r: Result<Status, BeadsError>)
        ensures
            r is Ok,
            r->Ok_0@ == status_for(text::lower(s@)),
    {
        Ok(Status::from_lowercase(to_lower(s)))
    }

    /// The status that a lowercase text stands for.
    pub fn from_lowercase(lower: String) -> (r: Status)
        ensures
            r@ == status_for(lower@),
    {
        match Status::known_lowercase(lower.as_str()) {
            Some(status) => status,
            None => Status::Custom(lower),
        }
    }

    /// Whether two statuses are the same.
    pub fn same(&self, other: &Status) -> (r: bool)
        ensures
            r == (self@ == other@),
    {
        match (self, other) {
            (Status::Open, Status::Open) => true,
            (Status::InProgress, Status::InProgress) => true,
            (Status::Blocked, Status::Blocked) => true,
            (Status::Deferred, Status::Deferred) => true,
            (Status::Draft, Status::Draft) => true,
            (Status::Closed, Status::Closed) => true,
            (Status::Tombstone, Status::Tombstone) => true,
            (Status::Pinned, Status::Pinned) => true,
            (Status::Custom(a), Status::Custom(b)) => *a == *b,
            _ => false,
        }
    }

    /// An equal status.
    pub fn copy(&self) -> (r: Status)
        ensures
            r@ == self@,
    {
        match self {
            Status::Open => Status::Open,
            Status::InProgress => Status::InProgress,
            Status::Blocked => Status::Blocked,
            Status::Deferred => Status::Deferred,
            Status::Draft => Status::Draft,
            Status::Closed => Status::Closed,
            Status::Tombstone => Status::Tombstone,
            Status::Pinned => Status::Pinned,
            Status::Custom(value) => Status::Custom(value.clone()),
        }
    }
}

impl Default for Status {
    fn default() -> (r: Status)
        ensures
            r@ is Open,
    {
        Status::Open
    }
}

impl std::str::FromStr for Status {
    type Err = BeadsError;

    fn from_str(s: &str) -> Result<Status, BeadsError> {
        Status::from_str(s)
    }
}

/// Issue type category.
#[derive(Debug, Clone, PartialEq, Eq, Hash)]
pub enum IssueType {
    Task,
    Bug,
    Feature,
    Epic,
    Chore,
    Docs,
    Question,
    Custom(String),
}

/// What contracts say of [`IssueType`].
pub enum IssueTypeView {
    Task,
    Bug,
    Feature,
    Epic,
    Chore,
    Docs,
    Question,
    Custom(Seq<char>),
}

impl View for IssueType {
    type V = IssueTypeView;

    open spec fn view(&self) -> IssueTypeView {
        match self {
            IssueType::Task => IssueTypeView::Task,
            IssueType::Bug => IssueTypeView::Bug,
            IssueType::Feature => IssueTypeView::Feature,
            IssueType::Epic => IssueTypeView::Epic,
            IssueType::Chore => IssueTypeView::Chore,
            IssueType::Docs => IssueTypeView::Docs,
            IssueType::Question => IssueTypeView::Question,
            IssueType::Custom(value) => IssueTypeView::Custom(value@),
        }
    }
}

/// The issue_type that the lowercase text `s` names, if it names a known one.
pub open spec fn issue_type_named(s: Seq<char>) -> Option<IssueTypeView> {
    if s == "task"@ {
        Some(IssueTypeView::Task)
    } else if s == "bug"@ {
        Some(IssueTypeView::Bug)
    } else if s == "feature"@ {
        Some(IssueTypeView::Feature)
    } else if s == "epic"@ {
        Some(IssueTypeView::Epic)
    } else if s == "chore"@ {
        Some(IssueTypeView::Chore)
    } else if s == "docs"@ {
        Some(IssueTypeView::Docs)
    } else if s == "question"@ {
        Some(IssueTypeView::Question)
    } else {
        None
    }
}

/// The name of a issue_type.
pub open spec fn issue_type_name(s: IssueTypeView) -> Seq<char> {
    match s {
        IssueTypeView::Task => "task"@,
        IssueTypeView::Bug => "bug"@,
        IssueTypeView::Feature => "feature"@,
        IssueTypeView::Epic => "epic"@,
        IssueTypeView::Chore => "chore"@,
        IssueTypeView::Docs => "docs"@,
        IssueTypeView::Question => "question"@,
        IssueTypeView::Custom(value) => value,
    }
}

/// The issue_type that a lowercase text stands for: a known one, or a custom one
/// under that text.
pub open spec fn issue_type_for(lower: Seq<char>) -> IssueTypeView {
    match issue_type_named(lower) {
        Some(known) => known,
        None => IssueTypeView::Custom(lower),
    }
}

/// The place of an issue type in the sort order.
pub open spec fn issue_type_rank(s: IssueTypeView) -> int {
    match s {
        IssueTypeView::Task => 0,
        IssueTypeView::Bug => 1,
        IssueTypeView::Feature => 2,
        IssueTypeView::Epic => 3,
        IssueTypeView::Chore => 4,
        IssueTypeView::Docs => 5,
        IssueTypeView::Question => 6,
        IssueTypeView::Custom(_) => 99,
    }
}

impl IssueType {
    /// The type that a text names in any letter case, if it is a known one.
    pub fn known_value(value: &str) -> (r: Option<IssueType>)
        ensures
            text::seen(r) == issue_type_named(text::lower(value@)),
    {
        IssueType::known_lowercase(to_lower(value).as_str())
    }

    /// The one that a lowercase text names, if it is a known one.
    pub fn known_lowercase(lower: &str) -> (r: Option<IssueType>)
        ensures
            text::seen(r) == issue_type_named(lower@),
    {
        if same_text(lower, "task") {
            Some(IssueType::Task)
        } else if same_text(lower, "bug") {
            Some(IssueType::Bug)
        } else if same_text(lower, "feature") {
            Some(IssueType::Feature)
        } else if same_text(lower, "epic") {
            Some(IssueType::Epic)
        } else if same_text(lower, "chore") {
            Some(IssueType::Chore)
        } else if same_text(lower, "docs") {
            Some(IssueType::Docs)
        } else if same_text(lower, "question") {
            Some(IssueType::Question)
        } else {
            None
        }
    }

    /// Its name.
    pub fn as_str(&self) -> (r: &str)
        ensures
            r@ == issue_type_name(self@),
    {
        match self {
            IssueType::Task => "task",
            IssueType::Bug => "bug",
            IssueType::Feature => "feature",
            IssueType::Epic => "epic",
            IssueType::Chore => "chore",
            IssueType::Docs => "docs",
            IssueType::Question => "question",
            IssueType::Custom(value) => value.as_str(),
        }
    }

    /// Rank table for sorting, in declaration order.
    pub const SORT_RANKS: [(&'static str, u8); 7] = [
        ("task", 0),
        ("bug", 1),
        ("feature", 2),
        ("epic", 3),
        ("chore", 4),
        ("docs", 5),
        ("question", 6),
    ];

    /// Rank shared by every custom type, so they sort after all known ones.
    pub const CUSTOM_SORT_RANK: u8 = 99;

    /// Sort position of this type.
    pub fn sort_rank(&self) -> (r: u8)
        ensures
            r == issue_type_rank(self@),
    {
        match self {
            IssueType::Task => 0,
            IssueType::Bug => 1,
            IssueType::Feature => 2,
            IssueType::Epic => 3,
            IssueType::Chore => 4,
            IssueType::Docs => 5,
            IssueType::Question => 6,
            IssueType::Custom(_) => IssueType::CUSTOM_SORT_RANK,
        }
    }

    /// Its name, as an owned text.
    pub fn to_string(&self) -> (r: String)
        ensures
            r@ == issue_type_name(self@),
    {
        self.as_str().to_owned()
    }

    /// The one that a text stands for: a known one in any letter case, or a
    /// custom one under the lowercase text. No text is refused.
    pub fn from_str(s: &str) -> (r: Result<IssueType, BeadsError>)
        ensures
            r is Ok,
            r->Ok_0@ == issue_type_for(text::lower(s@)),
    {
        Ok(IssueType::from_lowercase(to_lower(s)))
    }

    /// The one that a lowercase text stands for.
    pub fn from_lowercase(lower: String) -> (r: IssueType)
        ensures
            r@ == issue_type_for(lower@),
    {
        match IssueType::known_lowercase(lower.as_str()) {
            Some(known) => known,
            None => IssueType::Custom(lower),
        }
    }

    /// Whether the two are the same.
    pub fn same(&self, other: &IssueType) -> (r: bool)
        ensures
            r == (self@ == other@),
    {
        match (self, other) {
            (IssueType::Task, IssueType::Task) => true,
            (IssueType::Bug, IssueType::Bug) => true,
            (IssueType::Feature, IssueType::Feature) => true,
            (IssueType::Epic, IssueType::Epic) => true,
            (IssueType::Chore, IssueType::Chore) => true,
            (IssueType::Docs, IssueType::Docs) => true,
            (IssueType::Question, IssueType::Question) => true,
            (IssueType::Custom(a), IssueType::Custom(b)) => *a == *b,
            _ => false,
        }
    }

    /// An equal one.
    pub fn copy(&self) -> (r: IssueType)
        ensures
            r@ == self@,
    {
        match self {
            IssueType::Task => IssueType::Task,
            IssueType::Bug => IssueType::Bug,
            IssueType::Feature => IssueType::Feature,
            IssueType::Epic => IssueType::Epic,
            IssueType::Chore => IssueType::Chore,
            IssueType::Docs => IssueType::Docs,
            IssueType::Question => IssueType::Question,
            IssueType::Custom(value) => IssueType::Custom(value.clone()),
        }
    }
}

impl std::str::FromStr for IssueType {
    type Err = BeadsError;

    fn from_str(s: &str) -> Result<IssueType, BeadsError> {
        IssueType::from_str(s)
    }
}

impl Default for IssueType {
    fn default() -> (r: IssueType)
        ensures
            r@ is Task,
    {
        IssueType::Task
    }
}

/// Issue priority (0=Critical, 4=Backlog).
#[derive(Debug, Clone, Copy, PartialEq, Eq, PartialOrd, Ord, Structural)]
pub struct Priority(pub i32);

impl Default for Priority {
    fn default() -> (r: Priority)
        ensures
            r == Priority(2),
    {
        Priority::medium()
    }
}

/// The number that `s` writes: a sign or none, then one or more digits.
pub open spec fn written_number(s: Seq<char>) -> Option<int> {
    if s.len() > 0 && s[0] == '-' {
        match text::digits_value(s.drop_first()) {
            Some(n) => Some(-n),
            None => None,
        }
    } else if s.len() > 0 && s[0] == '+' {
        text::digits_value(s.drop_first())
    } else {
        text::digits_value(s)
    }
}

/// What a trimmed capital text says of a priority: with or without a leading
/// `P`, a number from 0 to 4.
pub open spec fn priority_written(upper: Seq<char>) -> Result<Priority, BeadsErrorView> {
    let number = if upper.len() > 0 && upper[0] == 'P' {
        upper.drop_first()
    } else {
        upper
    };
    match written_number(number) {
        Some(n) if 0 <= n <= 4 => Ok(Priority(n as i32)),
        Some(n) if i32::MIN <= n <= i32::MAX => Err(
            BeadsErrorView::InvalidPriority { priority: text::decimal(n) },
        ),
        _ => Err(BeadsErrorView::InvalidPriority { priority: number }),
    }
}

/// What contracts say of a refused or granted result.
pub open spec fn outcome<T, E: View>(r: Result<T, E>) -> Result<T, E::V> {
    match r {
        Ok(x) => Ok(x),
        Err(e) => Err(e@),
    }
}

impl Priority {
    /// The most urgent priority.
    pub fn critical() -> (r: Priority)
        ensures
            r == Priority(0),
    {
        Priority(0)
    }

    /// Urgent priority.
    pub fn high() -> (r: Priority)
        ensures
            r == Priority(1),
    {
        Priority(1)
    }

    /// The usual priority.
    pub fn medium() -> (r: Priority)
        ensures
            r == Priority(2),
    {
        Priority(2)
    }

    /// Not urgent priority.
    pub fn low() -> (r: Priority)
        ensures
            r == Priority(3),
    {
        Priority(3)
    }

    /// The least urgent priority.
    pub fn backlog() -> (r: Priority)
        ensures
            r == Priority(4),
    {
        Priority(4)
    }

    /// `P` and the number.
    pub fn to_string(&self) -> (r: String)
        ensures
            r@ == "P"@ + text::decimal(self.0 as int),
    {
        let mut out = "P".to_owned();
        out.append(signed_decimal_of(self.0 as i64).as_str());
        out
    }

    /// Reads a priority from a text, whatever its letter case and with white
    /// space around it.
    pub fn from_str(s: &str) -> (r: Result<Priority, BeadsError>)
        ensures
            outcome(r) == priority_written(text::upper(text::trimmed(s@))),
    {
        Priority::from_uppercase(to_upper(text::trim(s)).as_str())
    }

    /// Reads a priority from a trimmed text in capitals.
    pub fn from_uppercase(upper: &str) -> (r: Result<Priority, BeadsError>)
        ensures
            outcome(r) == priority_written(upper@),
    {
        let len = upper.unicode_len();
        let number = if len > 0 && upper.get_char(0) == 'P' {
            upper.substring_char(1, len)
        } else {
            upper
        };
        assert(upper@.len() > 0 ==> upper@.drop_first() =~= upper@.subrange(1, len as int));
        match read_number(number) {
            Some(n) => {
                if 0 <= n && n <= 4 {
                    Ok(Priority(n))
                } else {
                    Err(BeadsError::InvalidPriority { priority: signed_decimal_of(n as i64) })
                }
            },
            None => Err(BeadsError::InvalidPriority { priority: number.to_owned() }),
        }
    }
}

impl std::str::FromStr for Priority {
    type Err = BeadsError;

    fn from_str(s: &str) -> Result<Priority, BeadsError> {
        Priority::from_str(s)
    }
}

/// The number that `s` writes, where it fits.
fn read_number(s: &str) -> (r: Option<i32>)
    ensures
        r == (match written_number(s@) {
            Some(n) if i32::MIN <= n <= i32::MAX => Some(n as i32),
            _ => None,
        }),
{
    let len = s.unicode_len();
    if len == 0 {
        return None;
    }
    let first = s.get_char(0);
    assert(s@.drop_first() =~= s@.subrange(1, len as int));
    if first == '-' {
        match read_digits(s.substring_char(1, len)) {
            Some(n) => {
                if n <= 2_147_483_648 {
                    Some((0 - (n as i64)) as i32)
                } else {
                    None
                }
            },
            None => None,
        }
    } else {
        let row = if first == '+' { s.substring_char(1, len) } else { s };
        match read_digits(row) {
            Some(n) => {
                if n <= 2_147_483_647 {
                    Some(n as i32)
                } else {
                    None
                }
            },
            None => None,
        }
    }
}

/// Dependency relationship type.
#[derive(Debug, Clone, PartialEq, Eq, Hash)]
pub enum DependencyType {
    Blocks,
    ParentChild,
    ConditionalBlocks,
    WaitsFor,
    Related,
    DiscoveredFrom,
    RepliesTo,
    RelatesTo,
    Duplicates,
    Supersedes,
    CausedBy,
    Custom(String),
}

/// What contracts say of [`DependencyType`].
pub enum DependencyTypeView {
    Blocks,
    ParentChild,
    ConditionalBlocks,
    WaitsFor,
    Related,
    DiscoveredFrom,
    RepliesTo,
    RelatesTo,
    Duplicates,
    Supersedes,
    CausedBy,
    Custom(Seq<char>),
}

impl View for DependencyType {
    type V = DependencyTypeView;

    open spec fn view(&self) -> DependencyTypeView {
        match self {
            DependencyType::Blocks => DependencyTypeView::Blocks,
            DependencyType::ParentChild => DependencyTypeView::ParentChild,
            DependencyType::ConditionalBlocks => DependencyTypeView::ConditionalBlocks,
            DependencyType::WaitsFor => DependencyTypeView::WaitsFor,
            DependencyType::Related => DependencyTypeView::Related,
            DependencyType::DiscoveredFrom => DependencyTypeView::DiscoveredFrom,
            DependencyType::RepliesTo => DependencyTypeView::RepliesTo,
            DependencyType::RelatesTo => DependencyTypeView::RelatesTo,
            DependencyType::Duplicates => DependencyTypeView::Duplicates,
            DependencyType::Supersedes => DependencyTypeView::Supersedes,
            DependencyType::CausedBy => DependencyTypeView::CausedBy,
            DependencyType::Custom(value) => DependencyTypeView::Custom(value@),
        }
    }
}

/// The dependency_type that the lowercase text `s` names, if it names a known one.
pub open spec fn dependency_type_named(s: Seq<char>) -> Option<DependencyTypeView> {
    if s == "blocks"@ {
        Some(DependencyTypeView::Blocks)
    } else if s == "parent-child"@ {
        Some(DependencyTypeView::ParentChild)
    } else if s == "conditional-blocks"@ {
        Some(DependencyTypeView::ConditionalBlocks)
    } else if s == "waits-for"@ {
        Some(DependencyTypeView::WaitsFor)
    } else if s == "related"@ {
        Some(DependencyTypeView::Related)
    } else if s == "discovered-from"@ {
        Some(DependencyTypeView::DiscoveredFrom)
    } else if s == "replies-to"@ {
        Some(DependencyTypeView::RepliesTo)
    } else if s == "relates-to"@ {
        Some(DependencyTypeView::RelatesTo)
    } else if s == "duplicates"@ {
        Some(DependencyTypeView::Duplicates)
    } else if s == "supersedes"@ {
        Some(DependencyTypeView::Supersedes)
    } else if s == "caused-by"@ {
        Some(DependencyTypeView::CausedBy)
    } else {
        None
    }
}

/// The name of a dependency_type.
pub open spec fn dependency_type_name(s: DependencyTypeView) -> Seq<char> {
    match s {
        DependencyTypeView::Blocks => "blocks"@,
        DependencyTypeView::ParentChild => "parent-child"@,
        DependencyTypeView::ConditionalBlocks => "conditional-blocks"@,
        DependencyTypeView::WaitsFor => "waits-for"@,
        DependencyTypeView::Related => "related"@,
        DependencyTypeView::DiscoveredFrom => "discovered-from"@,
        DependencyTypeView::RepliesTo => "replies-to"@,
        DependencyTypeView::RelatesTo => "relates-to"@,
        DependencyTypeView::Duplicates => "duplicates"@,
        DependencyTypeView::Supersedes => "supersedes"@,
        DependencyTypeView::CausedBy => "caused-by"@,
        DependencyTypeView::Custom(value) => value,
    }
}

/// The dependency_type that a lowercase text stands for: a known one, or a custom one
/// under that text.
pub open spec fn dependency_type_for(lower: Seq<char>) -> DependencyTypeView {
    match dependency_type_named(lower) {
        Some(known) => known,
        None => DependencyTypeView::Custom(lower),
    }
}

impl DependencyType {
    /// The one that a lowercase text names, if it is a known one.
    pub fn known_lowercase(lower: &str) -> (r: Option<DependencyType>)
        ensures
            text::seen(r) == dependency_type_named(lower@),
    {
        if same_text(lower, "blocks") {
            Some(DependencyType::Blocks)
        } else if same_text(lower, "parent-child") {
            Some(DependencyType::ParentChild)
        } else if same_text(lower, "conditional-blocks") {
            Some(DependencyType::ConditionalBlocks)
        } else if same_text(lower, "waits-for") {
            Some(DependencyType::WaitsFor)
        } else if same_text(lower, "related") {
            Some(DependencyType::Related)
        } else if same_text(lower, "discovered-from") {
            Some(DependencyType::DiscoveredFrom)
        } else if same_text(lower, "replies-to") {
            Some(DependencyType::RepliesTo)
        } else if same_text(lower, "relates-to") {
            Some(DependencyType::RelatesTo)
        } else if same_text(lower, "duplicates") {
            Some(DependencyType::Duplicates)
        } else if same_text(lower, "supersedes") {
            Some(DependencyType::Supersedes)
        } else if same_text(lower, "caused-by") {
            Some(DependencyType::CausedBy)
        } else {
            None
        }
    }

    /// Its name.
    pub fn as_str(&self) -> (r: &str)
        ensures
            r@ == dependency_type_name(self@),
    {
        match self {
            DependencyType::Blocks => "blocks",
            DependencyType::ParentChild => "parent-child",
            DependencyType::ConditionalBlocks => "conditional-blocks",
            DependencyType::WaitsFor => "waits-for",
            DependencyType::Related => "related",
            DependencyType::DiscoveredFrom => "discovered-from",
            DependencyType::RepliesTo => "replies-to",
            DependencyType::RelatesTo => "relates-to",
            DependencyType::Duplicates => "duplicates",
            DependencyType::Supersedes => "supersedes",
            DependencyType::CausedBy => "caused-by",
            DependencyType::Custom(value) => value.as_str(),
        }
    }

    /// Whether a dependency of this type holds its issue up.
    pub fn is_blocking(&self) -> (r: bool)
        ensures
            r == blocks_work(self@),
    {
        matches!(
            self,
            DependencyType::Blocks | DependencyType::ParentChild
                | DependencyType::ConditionalBlocks | DependencyType::WaitsFor
        )
    }

    /// Its name, as an owned text.
    pub fn to_string(&self) -> (r: String)
        ensures
            r@ == dependency_type_name(self@),
    {
        self.as_str().to_owned()
    }

    /// The one that a text stands for: a known one in any letter case, or a
    /// custom one under the lowercase text. No text is refused.
    pub fn from_str(s: &str) -> (r: Result<DependencyType, BeadsError>)
        ensures
            r is Ok,
            r->Ok_0@ == dependency_type_for(text::lower(s@)),
    {
        Ok(DependencyType::from_lowercase(to_lower(s)))
    }

    /// The one that a lowercase text stands for.
    pub fn from_lowercase(lower: String) -> (r: DependencyType)
        ensures
            r@ == dependency_type_for(lower@),
    {
        match DependencyType::known_lowercase(lower.as_str()) {
            Some(known) => known,
            None => DependencyType::Custom(lower),
        }
    }

    /// Whether the two are the same.
    pub fn same(&self, other: &DependencyType) -> (r: bool)
        ensures
            r == (self@ == other@),
    {
        match (self, other) {
            (DependencyType::Blocks, DependencyType::Blocks) => true,
            (DependencyType::ParentChild, DependencyType::ParentChild) => true,
            (DependencyType::ConditionalBlocks, DependencyType::ConditionalBlocks) => true,
            (DependencyType::WaitsFor, DependencyType::WaitsFor) => true,
            (DependencyType::Related, DependencyType::Related) => true,
            (DependencyType::DiscoveredFrom, DependencyType::DiscoveredFrom) => true,
            (DependencyType::RepliesTo, DependencyType::RepliesTo) => true,
            (DependencyType::RelatesTo, DependencyType::RelatesTo) => true,
            (DependencyType::Duplicates, DependencyType::Duplicates) => true,
            (DependencyType::Supersedes, DependencyType::Supersedes) => true,
            (DependencyType::CausedBy, DependencyType::CausedBy) => true,
            (DependencyType::Custom(a), DependencyType::Custom(b)) => *a == *b,
            _ => false,
        }
    }

    /// An equal one.
    pub fn copy(&self) -> (r: DependencyType)
        ensures
            r@ == self@,
    {
        match self {
            DependencyType::Blocks => DependencyType::Blocks,
            DependencyType::ParentChild => DependencyType::ParentChild,
            DependencyType::ConditionalBlocks => DependencyType::ConditionalBlocks,
            DependencyType::WaitsFor => DependencyType::WaitsFor,
            DependencyType::Related => DependencyType::Related,
            DependencyType::DiscoveredFrom => DependencyType::DiscoveredFrom,
            DependencyType::RepliesTo => DependencyType::RepliesTo,
            DependencyType::RelatesTo => DependencyType::RelatesTo,
            DependencyType::Duplicates => DependencyType::Duplicates,
            DependencyType::Supersedes => DependencyType::Supersedes,
            DependencyType::CausedBy => DependencyType::CausedBy,
            DependencyType::Custom(value) => DependencyType::Custom(value.clone()),
        }
    }
}

impl std::str::FromStr for DependencyType {
    type Err = BeadsError;

    fn from_str(s: &str) -> Result<DependencyType, BeadsError> {
        DependencyType::from_str(s)
    }
}

/// Whether a dependency of this type holds its issue up.
pub open spec fn blocks_work(t: DependencyTypeView) -> bool {
    t is Blocks || t is ParentChild || t is ConditionalBlocks || t is WaitsFor
}

/// The primary issue entity.
#[derive(Debug, Clone, PartialEq, Eq)]
pub struct Issue {
    /// Unique ID (e.g., "bd-abc123").
    pub id: String,
    /// Content hash for deduplication and sync.
    pub content_hash: Option<String>,
    /// Title (1-500 chars).
    pub title: String,
    /// Detailed description.
    pub description: Option<String>,
    /// Technical design notes.
    pub design: Option<String>,
    /// Acceptance criteria.
    pub acceptance_criteria: Option<String>,
    /// Additional notes.
    pub notes: Option<String>,
    /// Workflow status.
    pub status: Status,
    /// Priority (0=Critical, 4=Backlog).
    pub priority: Priority,
    /// Issue type (bug, feature, etc.).
    pub issue_type: IssueType,
    /// Issue owner.
    pub owner: Option<String>,
    /// Creation timestamp.
    pub created_at: Timestamp,
    /// Creator username.
    pub created_by: Option<String>,
    /// Last update timestamp.
    pub updated_at: Timestamp,
    /// Closure timestamp.
    pub closed_at: Option<Timestamp>,
    /// Reason for closure.
    pub close_reason: Option<String>,
    /// Defer until date.
    pub defer_until: Option<Timestamp>,
    /// External reference (e.g., JIRA-123).
    pub external_ref: Option<String>,
    /// Source repository, by the name of its directory.
    pub source_repo: Option<String>,
    pub deleted_at: Option<Timestamp>,
    pub deleted_by: Option<String>,
    pub delete_reason: Option<String>,
    pub original_type: Option<String>,
    /// Every ID this issue has previously held, oldest first.
    pub former_ids: Vec<String>,
    pub labels: Vec<String>,
    pub dependencies: Vec<Dependency>,
    pub comments: Vec<Comment>,
}

/// Epic completion status with child counts.
#[derive(Debug, Clone, PartialEq, Eq)]
pub struct EpicStatus {
    pub epic: Issue,
    pub total_children: usize,
    pub closed_children: usize,
    pub eligible_for_close: bool,
}

/// Relationship between two issues.
#[derive(Debug, Clone, PartialEq, Eq)]
pub struct Dependency {
    /// The issue that has the dependency (source).
    pub issue_id: String,
    /// The issue being depended on (target).
    pub depends_on_id: String,
    /// Type of dependency.
    pub dep_type: DependencyType,
    /// Creation timestamp.
    pub created_at: Timestamp,
    /// Creator.
    pub created_by: Option<String>,
    /// Optional metadata (JSON). See [`optional_metadata`].
    pub metadata: Option<String>,
    /// Thread ID for conversation linking.
    pub thread_id: Option<String>,
}

/// A comment on an issue.
#[derive(Debug, Clone, PartialEq, Eq)]
pub struct Comment {
    pub id: i64,
    pub issue_id: String,
    pub author: String,
    pub body: String,
    pub created_at: Timestamp,
}

/// What contracts say of a [`Dependency`].
pub struct DependencyView {
    pub issue_id: Seq<char>,
    pub depends_on_id: Seq<char>,
    pub dep_type: DependencyTypeView,
    pub created_at: Timestamp,
    pub created_by: Option<Seq<char>>,
    pub metadata: Option<Seq<char>>,
    pub thread_id: Option<Seq<char>>,
}

impl View for Dependency {
    type V = DependencyView;

    open spec fn view(&self) -> DependencyView {
        DependencyView {
            issue_id: self.issue_id@,
            depends_on_id: self.depends_on_id@,
            dep_type: self.dep_type@,
            created_at: self.created_at,
            created_by: text::seen(self.created_by),
            metadata: text::seen(self.metadata),
            thread_id: text::seen(self.thread_id),
        }
    }
}

/// What contracts say of a [`Comment`].
pub struct CommentView {
    pub id: int,
    pub issue_id: Seq<char>,
    pub author: Seq<char>,
    pub body: Seq<char>,
    pub created_at: Timestamp,
}

impl View for Comment {
    type V = CommentView;

    open spec fn view(&self) -> CommentView {
        CommentView {
            id: self.id as int,
            issue_id: self.issue_id@,
            author: self.author@,
            body: self.body@,
            created_at: self.created_at,
        }
    }
}

/// How dependencies rank: by source, target, type name, age, creator,
/// metadata and thread, in this order.
pub open spec fn dependency_rank(a: DependencyView, b: DependencyView) -> Rank {
    order::refined(
        order::text_rank(a.issue_id, b.issue_id),
        order::refined(
            order::text_rank(a.depends_on_id, b.depends_on_id),
            order::refined(
                order::text_rank(
                    dependency_type_name(a.dep_type),
                    dependency_type_name(b.dep_type),
                ),
                order::refined(
                    time::time_rank(a.created_at, b.created_at),
                    order::refined(
                        order::optional_rank(a.created_by, b.created_by),
                        order::refined(
                            order::optional_rank(a.metadata, b.metadata),
                            order::optional_rank(a.thread_id, b.thread_id),
                        ),
                    ),
                ),
            ),
        ),
    )
}

/// How comments rank: by issue, age, author, body and number, in this order.
pub open spec fn comment_rank(a: CommentView, b: CommentView) -> Rank {
    order::refined(
        order::text_rank(a.issue_id, b.issue_id),
        order::refined(
            time::time_rank(a.created_at, b.created_at),
            order::refined(
                order::text_rank(a.author, b.author),
                order::refined(
                    order::text_rank(a.body, b.body),
                    order::number_rank(a.id, b.id),
                ),
            ),
        ),
    )
}

proof fn dependency_rank_facts(a: DependencyView, b: DependencyView, c: DependencyView)
    ensures
        dependency_rank(a, b) is Same <==> a.issue_id == b.issue_id && a.depends_on_id
            == b.depends_on_id && dependency_type_name(a.dep_type) == dependency_type_name(
            b.dep_type,
        ) && a.created_at == b.created_at && a.created_by == b.created_by && a.metadata
            == b.metadata && a.thread_id == b.thread_id,
        dependency_rank(b, a) == order::turned(dependency_rank(a, b)),
        order::consistent(dependency_rank(a, b), dependency_rank(b, c), dependency_rank(a, c)),
{
    order::text_rank_facts(a.issue_id, b.issue_id, c.issue_id);
    order::text_rank_facts(a.depends_on_id, b.depends_on_id, c.depends_on_id);
    order::text_rank_facts(
        dependency_type_name(a.dep_type),
        dependency_type_name(b.dep_type),
        dependency_type_name(c.dep_type),
    );
    time::time_rank_facts(a.created_at, b.created_at, c.created_at);
    order::optional_rank_facts(a.created_by, b.created_by, c.created_by);
    order::optional_rank_facts(a.metadata, b.metadata, c.metadata);
    order::optional_rank_facts(a.thread_id, b.thread_id, c.thread_id);
}

proof fn comment_rank_facts(a: CommentView, b: CommentView, c: CommentView)
    ensures
        comment_rank(a, b) is Same <==> a == b,
        comment_rank(b, a) == order::turned(comment_rank(a, b)),
        order::consistent(comment_rank(a, b), comment_rank(b, c), comment_rank(a, c)),
{
    order::text_rank_facts(a.issue_id, b.issue_id, c.issue_id);
    time::time_rank_facts(a.created_at, b.created_at, c.created_at);
    order::text_rank_facts(a.author, b.author, c.author);
    order::text_rank_facts(a.body, b.body, c.body);
}

impl Ranked for Dependency {
    open spec fn at_most(a: DependencyView, b: DependencyView) -> bool {
        !(dependency_rank(a, b) is After)
    }

    proof fn at_most_total(a: DependencyView, b: DependencyView) {
        dependency_rank_facts(a, b, b);
    }

    proof fn at_most_transitive(a: DependencyView, b: DependencyView, c: DependencyView) {
        dependency_rank_facts(a, b, c);
    }

    fn is_at_most(&self, other: &Dependency) -> (r: bool) {
        let rank = rank_texts(self.issue_id.as_str(), other.issue_id.as_str()).refine(
            rank_texts(self.depends_on_id.as_str(), other.depends_on_id.as_str()).refine(
                rank_texts(self.dep_type.as_str(), other.dep_type.as_str()).refine(
                    self.created_at.rank(&other.created_at).refine(
                        rank_optionals(&self.created_by, &other.created_by).refine(
                            rank_optionals(&self.metadata, &other.metadata).refine(
                                rank_optionals(&self.thread_id, &other.thread_id),
                            ),
                        ),
                    ),
                ),
            ),
        );
        !matches!(rank, Rank::After)
    }
}

impl Ranked for Comment {
    open spec fn at_most(a: CommentView, b: CommentView) -> bool {
        !(comment_rank(a, b) is After)
    }

    proof fn at_most_total(a: CommentView, b: CommentView) {
        comment_rank_facts(a, b, b);
    }

    proof fn at_most_transitive(a: CommentView, b: CommentView, c: CommentView) {
        comment_rank_facts(a, b, c);
    }

    fn is_at_most(&self, other: &Comment) -> (r: bool) {
        let rank = rank_texts(self.issue_id.as_str(), other.issue_id.as_str()).refine(
            self.created_at.rank(&other.created_at).refine(
                rank_texts(self.author.as_str(), other.author.as_str()).refine(
                    rank_texts(self.body.as_str(), other.body.as_str()).refine(
                        rank_numbers(self.id, other.id),
                    ),
                ),
            ),
        );
        !matches!(rank, Rank::After)
    }
}

impl Dependency {
    /// Whether the two agree in every field.
    pub fn same(&self, other: &Dependency) -> (r: bool)
        ensures
            r == (self@ == other@),
    {
        self.issue_id == other.issue_id && self.depends_on_id == other.depends_on_id
            && self.dep_type.same(&other.dep_type) && self.created_at == other.created_at
            && same_optional(&self.created_by, &other.created_by) && same_optional(
            &self.metadata,
            &other.metadata,
        ) && same_optional(&self.thread_id, &other.thread_id)
    }
}

impl Comment {
    /// Whether the two agree in every field.
    pub fn same(&self, other: &Comment) -> (r: bool)
        ensures
            r == (self@ == other@),
    {
        self.id == other.id && self.issue_id == other.issue_id && self.author == other.author
            && self.body == other.body && self.created_at == other.created_at
    }
}

/// The plain fields that two issues must agree in to count as synced.
pub struct SyncedFields {
    pub id: Seq<char>,
    pub title: Seq<char>,
    pub description: Option<Seq<char>>,
    pub design: Option<Seq<char>>,
    pub acceptance_criteria: Option<Seq<char>>,
    pub notes: Option<Seq<char>>,
    pub status: StatusView,
    pub priority: Priority,
    pub issue_type: IssueTypeView,
    pub owner: Option<Seq<char>>,
    pub created_by: Option<Seq<char>>,
    pub closed_at: Option<Timestamp>,
    pub close_reason: Option<Seq<char>>,
    pub defer_until: Option<Timestamp>,
    pub external_ref: Option<Seq<char>>,
    pub source_repo: Option<Seq<char>>,
    pub deleted_at: Option<Timestamp>,
    pub deleted_by: Option<Seq<char>>,
    pub delete_reason: Option<Seq<char>>,
    pub original_type: Option<Seq<char>>,
    pub former_ids: Seq<Seq<char>>,
}

pub open spec fn synced_fields(i: Issue) -> SyncedFields {
    SyncedFields {
        id: i.id@,
        title: i.title@,
        description: text::seen(i.description),
        design: text::seen(i.design),
        acceptance_criteria: text::seen(i.acceptance_criteria),
        notes: text::seen(i.notes),
        status: i.status@,
        priority: i.priority,
        issue_type: i.issue_type@,
        owner: text::seen(i.owner),
        created_by: text::seen(i.created_by),
        closed_at: i.closed_at,
        close_reason: text::seen(i.close_reason),
        defer_until: i.defer_until,
        external_ref: text::seen(i.external_ref),
        source_repo: text::seen(i.source_repo),
        deleted_at: i.deleted_at,
        deleted_by: text::seen(i.deleted_by),
        delete_reason: text::seen(i.delete_reason),
        original_type: text::seen(i.original_type),
        former_ids: text::views(i.former_ids@),
    }
}

/// The dependencies of an issue in sort order.
pub open spec fn sorted_dependencies(i: Issue) -> Seq<DependencyView> {
    order::stable_sorted(
        text::views(i.dependencies@),
        |a: DependencyView, b: DependencyView| <Dependency as Ranked>::at_most(a, b),
    )
}

/// The two issues carry the same payload: equal plain fields, the same set of
/// labels, the same dependencies once sorted, and the same comments, each as
/// often. Hashes and the audit timestamps do not count.
pub open spec fn sync_equal(a: Issue, b: Issue) -> bool {
    &&& synced_fields(a) == synced_fields(b)
    &&& text::views(a.labels@).to_set() == text::views(b.labels@).to_set()
    &&& sorted_dependencies(a) == sorted_dependencies(b)
    &&& text::views(a.comments@).to_multiset() == text::views(b.comments@).to_multiset()
}

fn same_texts(a: &Vec<String>, b: &Vec<String>) -> (r: bool)
    ensures
        r == (text::views(a@) == text::views(b@)),
{
    if a.len() != b.len() {
        assert(text::views(a@).len() != text::views(b@).len());
        return false;
    }
    let mut i: usize = 0;
    while i < a.len()
        invariant
            i <= a@.len(),
            a@.len() == b@.len(),
            forall|j: int| 0 <= j < i ==> text::views(a@)[j] == text::views(b@)[j],
        decreases a@.len() - i,
    {
        if a[i] != b[i] {
            assert(text::views(a@)[i as int] != text::views(b@)[i as int]);
            return false;
        }
        i += 1;
    }
    assert(text::views(a@) =~= text::views(b@));
    true
}

fn same_time(a: &Option<Timestamp>, b: &Option<Timestamp>) -> (r: bool)
    ensures
        r == (*a == *b),
{
    match (a, b) {
        (Some(x), Some(y)) => *x == *y,
        (None, None) => true,
        _ => false,
    }
}

fn same_dependencies(a: &Vec<&Dependency>, b: &Vec<&Dependency>) -> (r: bool)
    ensures
        r == (text::views(a@) == text::views(b@)),
{
    if a.len() != b.len() {
        assert(text::views(a@).len() != text::views(b@).len());
        return false;
    }
    let mut i: usize = 0;
    while i < a.len()
        invariant
            i <= a@.len(),
            a@.len() == b@.len(),
            forall|j: int| 0 <= j < i ==> text::views(a@)[j] == text::views(b@)[j],
        decreases a@.len() - i,
    {
        if !a[i].same(b[i]) {
            assert(text::views(a@)[i as int] != text::views(b@)[i as int]);
            return false;
        }
        i += 1;
    }
    assert(text::views(a@) =~= text::views(b@));
    true
}

fn same_comments(a: &Vec<&Comment>, b: &Vec<&Comment>) -> (r: bool)
    ensures
        r == (text::views(a@) == text::views(b@)),
{
    if a.len() != b.len() {
        assert(text::views(a@).len() != text::views(b@).len());
        return false;
    }
    let mut i: usize = 0;
    while i < a.len()
        invariant
            i <= a@.len(),
            a@.len() == b@.len(),
            forall|j: int| 0 <= j < i ==> text::views(a@)[j] == text::views(b@)[j],
        decreases a@.len() - i,
    {
        if !a[i].same(b[i]) {
            assert(text::views(a@)[i as int] != text::views(b@)[i as int]);
            return false;
        }
        i += 1;
    }
    assert(text::views(a@) =~= text::views(b@));
    true
}

proof fn comment_order_ranks_all()
    ensures
        order::ranks_all(|a: CommentView, b: CommentView| <Comment as Ranked>::at_most(a, b)),
{
    let le = |a: CommentView, b: CommentView| <Comment as Ranked>::at_most(a, b);
    assert forall|a: CommentView, b: CommentView| #[trigger] le(a, b) || le(b, a) by {
        comment_rank_facts(a, b, b);
    }
    assert forall|a: CommentView, b: CommentView, c: CommentView|
        #[trigger] le(a, b) && #[trigger] le(b, c) implies le(a, c) by {
        comment_rank_facts(a, b, c);
    }
}

proof fn dependency_order_ranks_all()
    ensures
        order::ranks_all(
            |a: DependencyView, b: DependencyView| <Dependency as Ranked>::at_most(a, b),
        ),
{
    let le = |a: DependencyView, b: DependencyView| <Dependency as Ranked>::at_most(a, b);
    assert forall|a: DependencyView, b: DependencyView| #[trigger] le(a, b) || le(b, a) by {
        dependency_rank_facts(a, b, b);
    }
    assert forall|a: DependencyView, b: DependencyView, c: DependencyView|
        #[trigger] le(a, b) && #[trigger] le(b, c) implies le(a, c) by {
        dependency_rank_facts(a, b, c);
    }
}

/// Comments sort alike exactly where they are the same comments.
proof fn sorted_comments_decide(s: Seq<CommentView>, t: Seq<CommentView>)
    ensures
        ({
            let le = |a: CommentView, b: CommentView| <Comment as Ranked>::at_most(a, b);
            order::stable_sorted(s, le) == order::stable_sorted(t, le) <==> s.to_multiset()
                == t.to_multiset()
        }),
{
    let le = |a: CommentView, b: CommentView| <Comment as Ranked>::at_most(a, b);
    comment_order_ranks_all();
    order::stable_sorted_keeps_items(s, le);
    order::stable_sorted_keeps_items(t, le);
    if s.to_multiset() == t.to_multiset() {
        assert forall|i: int, j: int|
            0 <= i < s.len() && 0 <= j < s.len() && le(#[trigger] s[i], #[trigger] s[j]) && le(
                s[j],
                s[i],
            ) implies s[i] == s[j] by {
            comment_rank_facts(s[i], s[j], s[j]);
        }
        order::stable_sorted_of_same_items(s, t, le);
    }
}

/// How long after its deletion a tombstone may be dropped: the wanted number
/// of days, at most a thousand years of them.
pub open spec fn kept_days(days: u64) -> int {
    if days > 365_000 {
        365_000
    } else {
        days as int
    }
}

/// The instant after which a tombstone deleted at `deleted_at` has expired.
pub open spec fn expiry(deleted_at: Timestamp, days: u64) -> Timestamp {
    Timestamp {
        secs: (deleted_at.secs + kept_days(days) * time::DAY) as i64,
        nanos: if deleted_at.nanos >= 1_000_000_000 {
            (deleted_at.nanos - 1_000_000_000) as u32
        } else {
            deleted_at.nanos
        },
    }
}

/// Whether the issue is a tombstone whose time is over at `now`.
pub open spec fn expired_at(i: Issue, retention_days: Option<u64>, now: Timestamp) -> bool {
    &&& i.status@ is Tombstone
    &&& retention_days is Some
    &&& retention_days->0 != 0
    &&& i.deleted_at is Some
    &&& time::time_rank(now, expiry(i.deleted_at->0, retention_days->0)) is After
}

/// Whether the calendar still holds the instant at which the tombstone
/// expires, where there is one.
pub open spec fn expiry_in_calendar(i: Issue, retention_days: Option<u64>) -> bool {
    i.status@ is Tombstone && retention_days is Some && retention_days->0 != 0 && i.deleted_at
        is Some ==> i.deleted_at->0.secs + kept_days(retention_days->0) * time::DAY
        <= time::LAST_SECOND
}

impl Issue {
    /// Compares two issues by what they carry rather than field by field.
    ///
    /// The hash and the timestamps of creation and update do not count. The
    /// order of labels, dependencies and comments does not count, nor does
    /// how often a label occurs. `former_ids` is a history, so its order
    /// does.
    pub fn sync_equals(&self, other: &Issue) -> (r: bool)
        ensures
            r == sync_equal(*self, *other),
    {
        if self.id != other.id || self.title != other.title || !same_optional(
            &self.description,
            &other.description,
        ) || !same_optional(&self.design, &other.design) || !same_optional(
            &self.acceptance_criteria,
            &other.acceptance_criteria,
        ) || !same_optional(&self.notes, &other.notes) || !self.status.same(&other.status)
            || self.priority != other.priority || !self.issue_type.same(&other.issue_type)
            || !same_optional(&self.owner, &other.owner) || !same_optional(
            &self.created_by,
            &other.created_by,
        ) || !same_time(&self.closed_at, &other.closed_at) || !same_optional(
            &self.close_reason,
            &other.close_reason,
        ) || !same_time(&self.defer_until, &other.defer_until) || !same_optional(
            &self.external_ref,
            &other.external_ref,
        ) || !same_optional(&self.source_repo, &other.source_repo) || !same_time(
            &self.deleted_at,
            &other.deleted_at,
        ) || !same_optional(&self.deleted_by, &other.deleted_by) || !same_optional(
            &self.delete_reason,
            &other.delete_reason,
        ) || !same_optional(&self.original_type, &other.original_type) || !same_texts(
            &self.former_ids,
            &other.former_ids,
        ) {
            assert(synced_fields(*self) != synced_fields(*other));
            return false;
        }
        if !Issue::labels_equal(&self.labels, &other.labels) {
            return false;
        }
        if !same_dependencies(
            &stable_sort(&self.dependencies),
            &stable_sort(&other.dependencies),
        ) {
            return false;
        }
        proof {
            sorted_comments_decide(text::views(self.comments@), text::views(other.comments@));
        }
        same_comments(&stable_sort(&self.comments), &stable_sort(&other.comments))
    }

    /// Whether two lists hold the same labels, whatever their order and
    /// however often each occurs.
    pub fn labels_equal(left: &Vec<String>, right: &Vec<String>) -> (r: bool)
        ensures
            r == (text::views(left@).to_set() == text::views(right@).to_set()),
    {
        proof {
            order::distinct_sorted_facts(text::views(left@));
            order::distinct_sorted_facts(text::views(right@));
            if text::views(left@).to_set() == text::views(right@).to_set() {
                order::rising_list_is_unique(
                    order::distinct_sorted(text::views(left@)),
                    order::distinct_sorted(text::views(right@)),
                );
            }
        }
        same_texts(&sort_distinct(left), &sort_distinct(right))
    }

    /// Whether this issue is a tombstone that has outlived its retention.
    ///
    /// The answer depends on the clock; [`Issue::is_expired_tombstone_at`]
    /// says what it is at a given instant. It is never yes for an issue that
    /// is no tombstone, has no deletion time, or is to be kept for ever.
    pub fn is_expired_tombstone(&self, retention_days: Option<u64>) -> (r: bool)
        requires
            expiry_in_calendar(*self, retention_days),
        ensures
            r ==> self.status@ is Tombstone && retention_days is Some && retention_days->0 != 0
                && self.deleted_at is Some,
            exists|now: Timestamp| r == #[trigger] expired_at(*self, retention_days, now),
    {
        self.is_expired_tombstone_at(retention_days, time::now())
    }

    /// Whether this issue is a tombstone that has outlived its retention at
    /// the instant `now`.
    pub fn is_expired_tombstone_at(&self, retention_days: Option<u64>, now: Timestamp) -> (r: bool)
        requires
            expiry_in_calendar(*self, retention_days),
        ensures
            r == expired_at(*self, retention_days, now),
    {
        if !matches!(self.status, Status::Tombstone) {
            return false;
        }
        let days: u64 = match retention_days {
            Some(days) => days,
            None => {
                return false;
            },
        };
        if days == 0 {
            return false;
        }
        let deleted_at = match self.deleted_at {
            Some(at) => at,
            None => {
                return false;
            },
        };
        let kept: i64 = if days > 365_000 { 365_000 } else { days as i64 };
        let nanos: u32 = if deleted_at.nanos >= 1_000_000_000 {
            deleted_at.nanos - 1_000_000_000
        } else {
            deleted_at.nanos
        };
        let end = Timestamp { secs: deleted_at.secs + kept * time::DAY, nanos };
        matches!(now.rank(&end), Rank::After)
    }
}

impl Default for Issue {
    /// An empty issue, made now.
    fn default() -> (r: Issue)
        ensures
            r.id@.len() == 0,
            r.title@.len() == 0,
            r.content_hash is None,
            r.description is None,
            r.design is None,
            r.acceptance_criteria is None,
            r.notes is None,
            r.status@ is Open,
            r.priority == Priority(2),
            r.issue_type@ is Task,
            r.owner is None,
            r.created_by is None,
            r.closed_at is None,
            r.close_reason is None,
            r.defer_until is None,
            r.external_ref is None,
            r.source_repo is None,
            r.deleted_at is None,
            r.deleted_by is None,
            r.delete_reason is None,
            r.original_type is None,
            r.former_ids@.len() == 0,
            r.labels@.len() == 0,
            r.dependencies@.len() == 0,
            r.comments@.len() == 0,
    {
        Issue {
            id: String::new(),
            content_hash: None,
            title: String::new(),
            description: None,
            design: None,
            acceptance_criteria: None,
            notes: None,
            status: Status::Open,
            priority: Priority(2),
            issue_type: IssueType::Task,
            owner: None,
            created_at: time::now(),
            created_by: None,
            updated_at: time::now(),
            closed_at: None,
            close_reason: None,
            defer_until: None,
            external_ref: None,
            source_repo: None,
            deleted_at: None,
            deleted_by: None,
            delete_reason: None,
            original_type: None,
            former_ids: Vec::new(),
            labels: Vec::new(),
            dependencies: Vec::new(),
            comments: Vec::new(),
        }
    }
}

/// Metadata as it is kept: a text that is blank counts as absent, any other
/// is kept as it is.
pub fn optional_metadata(value: Option<String>) -> (r: Option<String>)
    ensures
        text::seen(r) == (match value {
            Some(s) if text::trimmed(s@).len() == 0 => None,
            other => text::seen(other),
        }),
{
    match value {
        Some(s) => {
            if text::trim(s.as_str()).is_empty() {
                None
            } else {
                Some(s)
            }
        },
        None => None,
    }
}

/// A text of small letters, underscores and hyphens.
spec fn is_small(s: Seq<char>) -> bool {
    forall|i: int|
        0 <= i < s.len() ==> ('a' <= #[trigger] s[i] && s[i] <= 'z') || s[i] == '_' || s[i] == '-'
}

proof fn small_stays(s: Seq<char>)
    requires
        is_small(s),
    ensures
        text::lower(s) == s,
{
    assert(text::ascii_lowered(s) =~= s);
}

/// Reading the name of a status gives the status back; for a custom one, if
/// its name is in small letters and none of the known ones, as that of every
/// custom status is that was read.
pub proof fn status_reads_back(s: StatusView)
    requires
        s matches StatusView::Custom(name) ==> text::lower(name) == name && status_named(name)
            is None,
    ensures
        status_for(text::lower(status_name(s))) == s,
{
    reveal_strlit("open");
    reveal_strlit("in_progress");
    reveal_strlit("inprogress");
    reveal_strlit("blocked");
    reveal_strlit("deferred");
    reveal_strlit("draft");
    reveal_strlit("closed");
    reveal_strlit("tombstone");
    reveal_strlit("pinned");
    if !(s is Custom) {
        let name = status_name(s);
        assert(is_small(name));
        small_stays(name);
        assert("open"@[0] == 'o' && "in_progress"@[0] == 'i' && "inprogress"@[0] == 'i');
        assert("blocked"@[0] == 'b' && "closed"@[0] == 'c' && "tombstone"@[0] == 't');
        assert("pinned"@[0] == 'p' && "deferred"@[1] == 'e' && "draft"@[1] == 'r');
    }
}

/// Reading the name of a type gives the type back, under the same condition
/// for a custom one.
pub proof fn issue_type_reads_back(t: IssueTypeView)
    requires
        t matches IssueTypeView::Custom(name) ==> text::lower(name) == name && issue_type_named(name)
            is None,
    ensures
        issue_type_for(text::lower(issue_type_name(t))) == t,
{
    reveal_strlit("task");
    reveal_strlit("bug");
    reveal_strlit("feature");
    reveal_strlit("epic");
    reveal_strlit("chore");
    reveal_strlit("docs");
    reveal_strlit("question");
    if !(t is Custom) {
        let name = issue_type_name(t);
        assert(is_small(name));
        small_stays(name);
        assert("task"@[0] == 't' && "bug"@[0] == 'b' && "feature"@[0] == 'f');
        assert("epic"@[0] == 'e' && "chore"@[0] == 'c' && "docs"@[0] == 'd');
    }
}

/// Reading the name of a type of dependency gives the type back, under the
/// same condition for a custom one.
pub proof fn dependency_type_reads_back(t: DependencyTypeView)
    requires
        t matches DependencyTypeView::Custom(name) ==> text::lower(name) == name
            && dependency_type_named(name) is None,
    ensures
        dependency_type_for(text::lower(dependency_type_name(t))) == t,
{
    reveal_strlit("blocks");
    reveal_strlit("parent-child");
    reveal_strlit("conditional-blocks");
    reveal_strlit("waits-for");
    reveal_strlit("related");
    reveal_strlit("discovered-from");
    reveal_strlit("replies-to");
    reveal_strlit("relates-to");
    reveal_strlit("duplicates");
    reveal_strlit("supersedes");
    reveal_strlit("caused-by");
    if !(t is Custom) {
        let name = dependency_type_name(t);
        assert(is_small(name));
        small_stays(name);
        assert("blocks"@[0] == 'b' && "parent-child"@[0] == 'p' && "waits-for"@[0] == 'w');
        assert("related"@[0] == 'r' && "discovered-from"@[1] == 'i' && "duplicates"@[1] == 'u');
        assert("conditional-blocks"@[1] == 'o' && "caused-by"@[1] == 'a');
        assert("supersedes"@[0] == 's' && "replies-to"@[2] == 'p' && "relates-to"@[2] == 'l');
    }
}

/// Being equal for a sync is an equivalence.
pub proof fn sync_equality_is_an_equivalence(a: Issue, b: Issue, c: Issue)
    ensures
        sync_equal(a, a),
        sync_equal(a, b) ==> sync_equal(b, a),
        sync_equal(a, b) && sync_equal(b, c) ==> sync_equal(a, c),
{
}

/// The hash and the audit timestamps do not count for a sync.
pub proof fn audit_fields_do_not_count(
    a: Issue,
    content_hash: Option<String>,
    created_at: Timestamp,
    updated_at: Timestamp,
)
    ensures
        sync_equal(a, Issue { content_hash, created_at, updated_at, ..a }),
{
}

/// The order of labels, dependencies and comments does not count for a sync,
/// as long as no two dependencies tie that differ: a custom type may bear the
/// name of a known one.
pub proof fn order_does_not_count(a: Issue, b: Issue)
    requires
        synced_fields(a) == synced_fields(b),
        text::views(a.labels@).to_set() == text::views(b.labels@).to_set(),
        text::views(a.dependencies@).to_multiset() == text::views(b.dependencies@).to_multiset(),
        text::views(a.comments@).to_multiset() == text::views(b.comments@).to_multiset(),
        forall|i: int, j: int|
            0 <= i < a.dependencies@.len() && 0 <= j < a.dependencies@.len() && dependency_rank(
                #[trigger] text::views(a.dependencies@)[i],
                #[trigger] text::views(a.dependencies@)[j],
            ) is Same ==> text::views(a.dependencies@)[i] == text::views(a.dependencies@)[j],
    ensures
        sync_equal(a, b),
{
    let s = text::views(a.dependencies@);
    let t = text::views(b.dependencies@);
    let le = |x: DependencyView, y: DependencyView| <Dependency as Ranked>::at_most(x, y);
    dependency_order_ranks_all();
    assert forall|i: int, j: int|
        0 <= i < s.len() && 0 <= j < s.len() && le(#[trigger] s[i], #[trigger] s[j]) && le(
            s[j],
            s[i],
        ) implies s[i] == s[j] by {
        dependency_rank_facts(s[i], s[j], s[j]);
    }
    order::stable_sorted_of_same_items(s, t, le);
}

/// The table of ranks holds every known status, each under its name and with
/// its rank, and custom ones come behind all of them.
pub proof fn status_ranks_agree(i: int, s: StatusView)
    requires
        0 <= i < Status::SORT_RANKS@.len(),
    ensures
        status_named(Status::SORT_RANKS@[i].0@) is Some,
        status_rank(status_named(Status::SORT_RANKS@[i].0@)->0) == Status::SORT_RANKS@[i].1,
        Status::SORT_RANKS@[i].1 == i,
        Status::SORT_RANKS@[i].1 < Status::CUSTOM_SORT_RANK,
        !(s is Custom) ==> 0 <= status_rank(s) < Status::SORT_RANKS@.len()
            && Status::SORT_RANKS@[status_rank(s)].0@ == status_name(s),
{
    status_reads_back(StatusView::Open);
    status_reads_back(StatusView::InProgress);
    status_reads_back(StatusView::Blocked);
    status_reads_back(StatusView::Deferred);
    status_reads_back(StatusView::Draft);
    status_reads_back(StatusView::Closed);
    status_reads_back(StatusView::Tombstone);
    status_reads_back(StatusView::Pinned);
    small_names();
}

proof fn small_names()
    ensures
        forall|s: StatusView| !(s is Custom) ==> text::lower(#[trigger] status_name(s)) == status_name(
            s,
        ),
        forall|t: IssueTypeView|
            !(t is Custom) ==> text::lower(#[trigger] issue_type_name(t)) == issue_type_name(t),
{
    reveal_strlit("open");
    reveal_strlit("in_progress");
    reveal_strlit("blocked");
    reveal_strlit("deferred");
    reveal_strlit("draft");
    reveal_strlit("closed");
    reveal_strlit("tombstone");
    reveal_strlit("pinned");
    reveal_strlit("task");
    reveal_strlit("bug");
    reveal_strlit("feature");
    reveal_strlit("epic");
    reveal_strlit("chore");
    reveal_strlit("docs");
    reveal_strlit("question");
    assert forall|s: StatusView| !(s is Custom) implies text::lower(#[trigger] status_name(s))
        == status_name(s) by {
        assert(is_small(status_name(s)));
        small_stays(status_name(s));
    }
    assert forall|t: IssueTypeView| !(t is Custom) implies text::lower(#[trigger] issue_type_name(t))
        == issue_type_name(t) by {
        assert(is_small(issue_type_name(t)));
        small_stays(issue_type_name(t));
    }
}

/// The table of ranks holds every known type, each under its name and with
/// its rank, and custom ones come behind all of them.
pub proof fn issue_type_ranks_agree(i: int, t: IssueTypeView)
    requires
        0 <= i < IssueType::SORT_RANKS@.len(),
    ensures
        issue_type_named(IssueType::SORT_RANKS@[i].0@) is Some,
        issue_type_rank(issue_type_named(IssueType::SORT_RANKS@[i].0@)->0)
            == IssueType::SORT_RANKS@[i].1,
        IssueType::SORT_RANKS@[i].1 == i,
        IssueType::SORT_RANKS@[i].1 < IssueType::CUSTOM_SORT_RANK,
        !(t is Custom) ==> 0 <= issue_type_rank(t) < IssueType::SORT_RANKS@.len()
            && IssueType::SORT_RANKS@[issue_type_rank(t)].0@ == issue_type_name(t),
{
    issue_type_reads_back(IssueTypeView::Task);
    issue_type_reads_back(IssueTypeView::Bug);
    issue_type_reads_back(IssueTypeView::Feature);
    issue_type_reads_back(IssueTypeView::Epic);
    issue_type_reads_back(IssueTypeView::Chore);
    issue_type_reads_back(IssueTypeView::Docs);
    issue_type_reads_back(IssueTypeView::Question);
    small_names();
}

/// Reading the text of one of the five priorities gives it back.
pub proof fn priority_reads_back(p: Priority)
    requires
        0 <= p.0 <= 4,
    ensures
        priority_written("P"@ + text::decimal(p.0 as int)) == Ok::<Priority, BeadsErrorView>(p),
        text::digits_value(text::decimal(p.0 as int)) == Some(p.0 as int),
        text::decimal(p.0 as int)[0] != '+',
{
    reveal_strlit("P");
    let number = text::decimal(p.0 as int);
    let written = "P"@ + number;
    assert(number =~= seq![text::digit(p.0 as int)]);
    assert(written[0] == 'P');
    assert(written.drop_first() =~= number);
    let d = number[0];
    assert(d == '0' || d == '1' || d == '2' || d == '3' || d == '4');
}

/// A priority that is read is one of the five.
pub proof fn granted_priority_is_one_of_five(s: Seq<char>)
    ensures
        priority_written(s) matches Ok(p) ==> 0 <= p.0 <= 4,
{
}

proof fn spelled_priority(p: Priority, s: Seq<char>, a: Seq<char>, b: Seq<char>)
    requires
        0 <= p.0 <= 4,
        text::all_blank(a),
        text::all_blank(b),
        s == text::decimal(p.0 as int) || s == "p"@ + text::decimal(p.0 as int) || s == "P"@
            + text::decimal(p.0 as int),
    ensures
        priority_written(text::upper(text::trimmed(a + s + b))) == Ok::<Priority, BeadsErrorView>(
            p,
        ),
{
    reveal_strlit("p");
    reveal_strlit("P");
    let number = text::decimal(p.0 as int);
    assert(number =~= seq![text::digit(p.0 as int)]);
    let d = number[0];
    assert(d == '0' || d == '1' || d == '2' || d == '3' || d == '4');
    text::trimmed_between(a, s, b);
    assert(text::all_ascii(s));
    let raised = text::upper(s);
    priority_reads_back(p);
    if s == number {
        assert(raised =~= number);
    } else {
        assert(raised =~= "P"@ + number);
    }
}

/// The number of a priority, alone or behind a small or a capital `p`, and
/// with white space around it, reads as that priority.
pub proof fn priority_spellings_agree(p: Priority, before: Seq<char>, after: Seq<char>)
    requires
        0 <= p.0 <= 4,
        text::all_blank(before),
        text::all_blank(after),
    ensures
        ({
            let number = text::decimal(p.0 as int);
            let read = |s: Seq<char>| priority_written(text::upper(text::trimmed(s)));
            &&& read(before + number + after) == Ok::<Priority, BeadsErrorView>(p)
            &&& read(before + ("p"@ + number) + after) == Ok::<Priority, BeadsErrorView>(p)
            &&& read(before + ("P"@ + number) + after) == Ok::<Priority, BeadsErrorView>(p)
        }),
{
    let number = text::decimal(p.0 as int);
    spelled_priority(p, number, before, after);
    spelled_priority(p, "p"@ + number, before, after);
    spelled_priority(p, "P"@ + number, before, after);
}

/// Two issues that count as synced agree in every field that is exported, bear
/// the same labels, and have the same dependencies and the same comments, each
/// as often. Two that differ in any of these do not count as synced.
pub proof fn synced_issues_agree(a: Issue, b: Issue)
    requires
        sync_equal(a, b),
    ensures
        a.id@ == b.id@,
        a.title@ == b.title@,
        text::seen(a.description) == text::seen(b.description),
        text::seen(a.design) == text::seen(b.design),
        text::seen(a.acceptance_criteria) == text::seen(b.acceptance_criteria),
        text::seen(a.notes) == text::seen(b.notes),
        a.status@ == b.status@,
        a.priority == b.priority,
        a.issue_type@ == b.issue_type@,
        text::seen(a.owner) == text::seen(b.owner),
        text::seen(a.created_by) == text::seen(b.created_by),
        a.closed_at == b.closed_at,
        text::seen(a.close_reason) == text::seen(b.close_reason),
        a.defer_until == b.defer_until,
        text::seen(a.external_ref) == text::seen(b.external_ref),
        text::seen(a.source_repo) == text::seen(b.source_repo),
        a.deleted_at == b.deleted_at,
        text::seen(a.deleted_by) == text::seen(b.deleted_by),
        text::seen(a.delete_reason) == text::seen(b.delete_reason),
        text::seen(a.original_type) == text::seen(b.original_type),
        text::views(a.former_ids@) == text::views(b.former_ids@),
        forall|label: Seq<char>|
            text::views(a.labels@).contains(label) <==> #[trigger] text::views(
                b.labels@,
            ).contains(label),
        text::views(a.dependencies@).to_multiset() == text::views(b.dependencies@).to_multiset(),
        text::views(a.comments@).to_multiset() == text::views(b.comments@).to_multiset(),
{
    let le = |x: DependencyView, y: DependencyView| <Dependency as Ranked>::at_most(x, y);
    order::stable_sorted_keeps_items(text::views(a.dependencies@), le);
    order::stable_sorted_keeps_items(text::views(b.dependencies@), le);
    assert forall|label: Seq<char>|
        text::views(a.labels@).contains(label) <==> #[trigger] text::views(b.labels@).contains(
            label,
        ) by {
        assert(text::views(a.labels@).to_set().contains(label) == text::views(
            b.labels@,
        ).to_set().contains(label));
    }
}

/// A status, a type and a kind of dependency are read from their names alone,
/// and a text that is none of the known names stands for itself.
pub proof fn names_stand_for_themselves(name: Seq<char>)
    ensures
        status_for(name) is Open <==> name == "open"@,
        status_for(name) is InProgress <==> name == "in_progress"@ || name == "inprogress"@,
        status_for(name) is Blocked <==> name == "blocked"@,
        status_for(name) is Deferred <==> name == "deferred"@,
        status_for(name) is Draft <==> name == "draft"@,
        status_for(name) is Closed <==> name == "closed"@,
        status_for(name) is Tombstone <==> name == "tombstone"@,
        status_for(name) is Pinned <==> name == "pinned"@,
        status_for(name) matches StatusView::Custom(value) ==> value == name,
        issue_type_for(name) is Task <==> name == "task"@,
        issue_type_for(name) is Bug <==> name == "bug"@,
        issue_type_for(name) is Feature <==> name == "feature"@,
        issue_type_for(name) is Epic <==> name == "epic"@,
        issue_type_for(name) is Chore <==> name == "chore"@,
        issue_type_for(name) is Docs <==> name == "docs"@,
        issue_type_for(name) is Question <==> name == "question"@,
        issue_type_for(name) matches IssueTypeView::Custom(value) ==> value == name,
        dependency_type_for(name) matches DependencyTypeView::Custom(value) ==> value == name,
        dependency_type_for(name) is Blocks <==> name == "blocks"@,
        dependency_type_for(name) is ParentChild <==> name == "parent-child"@,
        dependency_type_for(name) is ConditionalBlocks <==> name == "conditional-blocks"@,
        dependency_type_for(name) is WaitsFor <==> name == "waits-for"@,
        dependency_type_for(name) is Related <==> name == "related"@,
        dependency_type_for(name) is DiscoveredFrom <==> name == "discovered-from"@,
        dependency_type_for(name) is RepliesTo <==> name == "replies-to"@,
        dependency_type_for(name) is RelatesTo <==> name == "relates-to"@,
        dependency_type_for(name) is Duplicates <==> name == "duplicates"@,
        dependency_type_for(name) is Supersedes <==> name == "supersedes"@,
        dependency_type_for(name) is CausedBy <==> name == "caused-by"@,
{
    status_reads_back(StatusView::Open);
    status_reads_back(StatusView::InProgress);
    status_reads_back(StatusView::Blocked);
    status_reads_back(StatusView::Deferred);
    status_reads_back(StatusView::Draft);
    status_reads_back(StatusView::Closed);
    status_reads_back(StatusView::Tombstone);
    status_reads_back(StatusView::Pinned);
    issue_type_reads_back(IssueTypeView::Task);
    issue_type_reads_back(IssueTypeView::Bug);
    issue_type_reads_back(IssueTypeView::Feature);
    issue_type_reads_back(IssueTypeView::Epic);
    issue_type_reads_back(IssueTypeView::Chore);
    issue_type_reads_back(IssueTypeView::Docs);
    issue_type_reads_back(IssueTypeView::Question);
    dependency_type_reads_back(DependencyTypeView::Blocks);
    dependency_type_reads_back(DependencyTypeView::ParentChild);
    dependency_type_reads_back(DependencyTypeView::ConditionalBlocks);
    dependency_type_reads_back(DependencyTypeView::WaitsFor);
    dependency_type_reads_back(DependencyTypeView::Related);
    dependency_type_reads_back(DependencyTypeView::DiscoveredFrom);
    dependency_type_reads_back(DependencyTypeView::RepliesTo);
    dependency_type_reads_back(DependencyTypeView::RelatesTo);
    dependency_type_reads_back(DependencyTypeView::Duplicates);
    dependency_type_reads_back(DependencyTypeView::Supersedes);
    dependency_type_reads_back(DependencyTypeView::CausedBy);
    small_names();
    small_dependency_names();
    reveal_strlit("open");
    reveal_strlit("in_progress");
    reveal_strlit("inprogress");
    assert("open"@[0] == 'o' && "in_progress"@[2] == '_' && "inprogress"@[2] == 'p');
    assert("inprogress"@[0] == 'i');
}

proof fn small_dependency_names()
    ensures
        forall|t: DependencyTypeView|
            !(t is Custom) ==> text::lower(#[trigger] dependency_type_name(t))
                == dependency_type_name(t),
{
    reveal_strlit("blocks");
    reveal_strlit("parent-child");
    reveal_strlit("conditional-blocks");
    reveal_strlit("waits-for");
    reveal_strlit("related");
    reveal_strlit("discovered-from");
    reveal_strlit("replies-to");
    reveal_strlit("relates-to");
    reveal_strlit("duplicates");
    reveal_strlit("supersedes");
    reveal_strlit("caused-by");
    assert forall|t: DependencyTypeView| !(t is Custom) implies text::lower(
        #[trigger] dependency_type_name(t),
    ) == dependency_type_name(t) by {
        assert(is_small(dependency_type_name(t)));
        small_stays(dependency_type_name(t));
    }
}

/// A tombstone has expired exactly where it was deleted longer ago than it is
/// kept, a thousand years of days at most; and where nothing is said of how
/// long, or no time at all, it is kept for good. Nothing but a tombstone
/// expires.
pub proof fn tombstones_expire_after_their_days(
    i: Issue,
    retention_days: Option<u64>,
    now: Timestamp,
    deleted: Timestamp,
    days: u64,
)
    requires
        0 <= deleted.nanos < 1_000_000_000,
        -0x1_0000_0000_0000 <= deleted.secs <= 0x1_0000_0000_0000,
    ensures
        expired_at(i, retention_days, now) ==> i.status@ is Tombstone && i.deleted_at is Some
            && retention_days is Some && retention_days != Some(0u64),
        i.status@ is Tombstone && i.deleted_at == Some(deleted) && retention_days == Some(days)
            && days > 0 && days <= 365_000 ==> (expired_at(i, retention_days, now) <==> now.secs
            > deleted.secs + days * 86_400 || (now.secs == deleted.secs + days * 86_400 && now.nanos
            > deleted.nanos)),
        i.status@ is Tombstone && i.deleted_at == Some(deleted) && retention_days == Some(days)
            && days > 365_000 ==> (expired_at(i, retention_days, now) <==> now.secs > deleted.secs
            + 365_000 * 86_400 || (now.secs == deleted.secs + 365_000 * 86_400 && now.nanos
            > deleted.nanos)),
{
}

/// Dependencies rank by their parts, one after the other: by source, target,
/// the name of the type, age, creator, metadata and thread. A part counts only
/// where the parts before it tie.
pub proof fn dependencies_rank_by_their_parts(a: DependencyView, b: DependencyView)
    ensures
        ({
            let r = dependency_rank(a, b);
            let same_ends = a.issue_id == b.issue_id && a.depends_on_id == b.depends_on_id;
            let same_type = same_ends && dependency_type_name(a.dep_type) == dependency_type_name(
                b.dep_type,
            );
            let same_age = same_type && a.created_at == b.created_at;
            let same_maker = same_age && a.created_by == b.created_by;
            &&& text::before(a.issue_id, b.issue_id) ==> r is Before
            &&& a.issue_id == b.issue_id && text::before(a.depends_on_id, b.depends_on_id)
                ==> r is Before
            &&& same_ends && text::before(
                dependency_type_name(a.dep_type),
                dependency_type_name(b.dep_type),
            ) ==> r is Before
            &&& same_type && time::time_rank(a.created_at, b.created_at) is Before ==> r is Before
            &&& same_age && order::optional_rank(a.created_by, b.created_by) is Before
                ==> r is Before
            &&& same_maker && order::optional_rank(a.metadata, b.metadata) is Before ==> r is Before
            &&& same_maker && a.metadata == b.metadata && order::optional_rank(
                a.thread_id,
                b.thread_id,
            ) is Before ==> r is Before
            &&& r is Same <==> same_maker && a.metadata == b.metadata && a.thread_id == b.thread_id
        }),
{
    order::text_rank_facts(a.issue_id, b.issue_id, b.issue_id);
    order::text_rank_facts(a.depends_on_id, b.depends_on_id, b.depends_on_id);
    order::text_rank_facts(
        dependency_type_name(a.dep_type),
        dependency_type_name(b.dep_type),
        dependency_type_name(b.dep_type),
    );
    time::time_rank_facts(a.created_at, b.created_at, b.created_at);
    order::optional_rank_facts(a.created_by, b.created_by, b.created_by);
    order::optional_rank_facts(a.metadata, b.metadata, b.metadata);
    order::optional_rank_facts(a.thread_id, b.thread_id, b.thread_id);
    text::order_total(a.issue_id, b.issue_id);
    text::order_total(a.depends_on_id, b.depends_on_id);
    text::order_total(dependency_type_name(a.dep_type), dependency_type_name(b.dep_type));
}

/// Comments rank by issue, age, author, body and number. A part counts only
/// where the parts before it tie.
pub proof fn comments_rank_by_their_parts(a: CommentView, b: CommentView)
    ensures
        ({
            let r = comment_rank(a, b);
            let same_age = a.issue_id == b.issue_id && a.created_at == b.created_at;
            let same_author = same_age && a.author == b.author;
            &&& text::before(a.issue_id, b.issue_id) ==> r is Before
            &&& a.issue_id == b.issue_id && time::time_rank(a.created_at, b.created_at) is Before
                ==> r is Before
            &&& same_age && text::before(a.author, b.author) ==> r is Before
            &&& same_author && text::before(a.body, b.body) ==> r is Before
            &&& same_author && a.body == b.body && a.id < b.id ==> r is Before
            &&& r is Same <==> same_author && a.body == b.body && a.id == b.id
        }),
{
    order::text_rank_facts(a.issue_id, b.issue_id, b.issue_id);
    order::text_rank_facts(a.author, b.author, b.author);
    order::text_rank_facts(a.body, b.body, b.body);
    time::time_rank_facts(a.created_at, b.created_at, b.created_at);
    text::order_total(a.issue_id, b.issue_id);
    text::order_total(a.author, b.author);
    text::order_total(a.body, b.body);
}

/// An issue is held up by what blocks it, by its parent, by what blocks it on
/// a condition, and by what it waits for, and by nothing else.
pub proof fn names_tell_what_holds_up(name: Seq<char>)
    ensures
        blocks_work(dependency_type_for(name)) <==> name == "blocks"@ || name == "parent-child"@
            || name == "conditional-blocks"@ || name == "waits-for"@,
{
    reveal_strlit("blocks");
    reveal_strlit("parent-child");
    reveal_strlit("conditional-blocks");
    reveal_strlit("waits-for");
}

} // verus!
