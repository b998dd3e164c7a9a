//! The records that the issue tracker hands out and takes in.
//!
//! Hours are held as whole hundredths of an hour.

use vstd::prelude::*;
use vstd::string::StringExecFns;

verus! {

/// A page of time entries.
#[derive(Debug, Clone)]
pub struct TimeEntries {
    pub time_entries: Vec<TimeEntry>,
    pub offset: i32,
    pub limit: i32,
    pub total_count: i32,
}

/// A reference to a record of the tracker: its id and, where known, its name.
#[derive(Debug, Clone, PartialEq, Eq)]
pub struct Named {
    pub id: i32,
    pub name: Option<String>,
}

/// Copies an optional text; the copy equals it.
pub fn copy_text(t: &Option<String>) -> (r: Option<String>)
    ensures
        r == *t,
{
    match t {
        Some(s) => Some(s.clone()),
        None => None,
    }
}

impl Named {
    /// A copy of this reference, equal to it.
    pub fn duplicate(&self) -> (r: Named)
        ensures
            r == *self,
    {
        Named { id: self.id, name: copy_text(&self.name) }
    }
}

/// Copies an optional reference; the copy equals it.
pub fn copy_named(n: &Option<Named>) -> (r: Option<Named>)
    ensures
        r == *n,
{
    match n {
        Some(x) => Some(x.duplicate()),
        None => None,
    }
}

/// Hours booked by a user on a project, and possibly on an issue of it.
#[derive(Debug, Clone, PartialEq)]
pub struct TimeEntry {
    pub id: i32,
    pub user: Named,
    pub project: Named,
    pub issue: Option<Named>,
    /// Hundredths of an hour.
    pub hours: u64,
    pub comments: Option<String>,
    /// The day the hours were spent on, written `YYYY-MM-DD`.
    pub spent_on: String,
    pub custom_fields: Vec<CustomValue>,
}

/// A time entry with its custom values as a sequence.
pub struct TimeEntryView {
    pub id: i32,
    pub user: Named,
    pub project: Named,
    pub issue: Option<Named>,
    pub hours: u64,
    pub comments: Option<String>,
    pub spent_on: String,
    pub custom_fields: Seq<CustomValue>,
}

impl View for TimeEntry {
    type V = TimeEntryView;

    open spec fn view(&self) -> TimeEntryView {
        TimeEntryView {
            id: self.id,
            user: self.user,
            project: self.project,
            issue: self.issue,
            hours: self.hours,
            comments: self.comments,
            spent_on: self.spent_on,
            custom_fields: self.custom_fields@,
        }
    }
}

impl TimeEntry {
    /// A copy of this entry, equal to it field by field.
    pub fn duplicate(&self) -> (r: TimeEntry)
        ensures
            r@ == self@,
    {
        let mut fields: Vec<CustomValue> = Vec::new();
        let mut i: usize = 0;
        while i < self.custom_fields.len()
            invariant
                i <= self.custom_fields@.len(),
                fields@ == self.custom_fields@.take(i as int),
            decreases self.custom_fields@.len() - i,
        {
            fields.push(self.custom_fields[i].duplicate());
            i = i + 1;
            proof {
                assert(fields@ =~= self.custom_fields@.take(i as int));
            }
        }
        proof {
            assert(fields@ =~= self.custom_fields@);
        }
        TimeEntry {
            id: self.id,
            user: self.user.duplicate(),
            project: self.project.duplicate(),
            issue: copy_named(&self.issue),
            hours: self.hours,
            comments: copy_text(&self.comments),
            spent_on: self.spent_on.clone(),
            custom_fields: fields,
        }
    }
}

/// The payload that books a new time entry.
#[derive(Debug, Clone)]
pub struct NewTimeEntries {
    pub time_entry: NewTimeEntry,
}

/// A time entry to be booked.
#[derive(Debug, Clone)]
pub struct NewTimeEntry {
    pub issue_id: Option<i32>,
    pub project_id: Option<i32>,
    pub spent_on: String,
    /// Hundredths of an hour.
    pub hours: u64,
    pub activity_id: i32,
    pub comments: String,
    pub custom_fields: Vec<CustomValue>,
}

/// A page of projects.
#[derive(Debug, Clone)]
pub struct Projects {
    pub projects: Vec<Project>,
    pub offset: i32,
    pub limit: i32,
    pub total_count: i32,
}

#[derive(Debug, Clone)]
pub struct Project {
    pub id: i32,
    pub name: String,
    pub identifier: String,
    pub parent: Option<Named>,
}

/// A page of issues.
#[derive(Debug, Clone)]
pub struct Issues {
    pub issues: Vec<Issue>,
    pub offset: i32,
    pub limit: i32,
    pub total_count: i32,
}

/// A page of search results.
#[derive(Debug, Clone)]
pub struct Results {
    pub results: Vec<Result>,
    pub offset: i32,
    pub limit: i32,
    pub total_count: i32,
}

/// One search result.
#[derive(Debug, Clone)]
pub struct Result {
    pub id: i32,
    pub title: String,
    pub url: String,
}

#[derive(Debug, Clone)]
pub struct Issue {
    pub id: i32,
    pub subject: String,
    pub project: Named,
}

/// The activities a time entry can be booked under.
#[derive(Debug, Clone)]
pub struct Activities {
    pub activities: Vec<Activity>,
}

#[derive(Debug, Clone)]
pub struct Activity {
    pub id: i32,
    pub name: String,
    pub is_default: Option<bool>,
}

#[derive(Debug, Clone)]
pub struct CustomFields {
    pub custom_fields: Vec<CustomField>,
}

/// A custom field defined on the tracker.
#[derive(Debug, Clone, Hash)]
pub struct CustomField {
    pub id: i32,
    pub name: String,
    pub is_required: Option<bool>,
    pub field_format: String,
    pub customized_type: String,
}

impl CustomField {
    /// Whether the field belongs to time entries.
    pub fn is_for_time_entry(&self) -> (r: bool)
        ensures
            r == (self.customized_type@ == "time_entry"@),
    {
        let kind = String::from_str("time_entry");
        self.customized_type == kind
    }

    /// Whether a value must be given for the field; unknown counts as not required.
    pub fn is_required(&self) -> (r: bool)
        ensures
            r == (self.is_required == Some(true)),
    {
        match self.is_required {
            Some(b) => b,
            None => false,
        }
    }
}

/// The value of a custom field on a time entry.
#[derive(Debug, Clone, PartialEq)]
pub struct CustomValue {
    pub id: i32,
    pub name: String,
    pub value: Option<String>,
}

impl CustomValue {
    /// A copy of this value, equal to it.
    pub fn duplicate(&self) -> (r: CustomValue)
        ensures
            r == *self,
    {
        CustomValue { id: self.id, name: self.name.clone(), value: copy_text(&self.value) }
    }
}

#[derive(Debug, Clone)]
pub struct UserResponse {
    pub user: User,
}

/// The account of a user of the tracker.
#[derive(Debug, Clone)]
pub struct User {
    pub id: i32,
    pub login: String,
    pub firstname: String,
    pub lastname: String,
    pub api_key: Option<String>,
}

} // verus!
