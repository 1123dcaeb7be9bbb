use vstd::prelude::*;

verus! {

/// One continuous interval during which an application was observed running.
///
/// Times are whole seconds since the Unix epoch, UTC. `end_time` is `None`
/// while the session is open and is set once, when it closes.
#[derive(Debug, Clone)]
pub struct AppSession {
    pub id: String,
    pub exe_name: String,
    pub category: String,
    pub start_time: i64,
    pub end_time: Option<i64>,
    pub total_seconds: u64,
    pub date: String,
}

/// A mapping entry from an executable name to its category label.
#[derive(Debug, Clone)]
pub struct AppCategory {
    pub name: String,
    pub category: String,
}

/// The foreground window: its title, executable name and process id.
#[derive(Debug, Clone)]
pub struct WindowInfo {
    pub title: String,
    pub exe_name: String,
    pub process_id: u32,
}

/// The session as it stands once closed at `now`.
pub open spec fn closed_at(s: AppSession, now: i64) -> AppSession {
    AppSession { end_time: Some(now), ..s }
}

impl AppSession {
    /// A field-by-field copy.
    pub fn copied(&self) -> (r: AppSession)
        ensures
            r == *self,
    {
        AppSession {
            id: self.id.clone(),
            exe_name: self.exe_name.clone(),
            category: self.category.clone(),
            start_time: self.start_time,
            end_time: self.end_time,
            total_seconds: self.total_seconds,
            date: self.date.clone(),
        }
    }
}

impl AppCategory {
    /// A field-by-field copy.
    pub fn copied(&self) -> (r: AppCategory)
        ensures
            r == *self,
    {
        AppCategory { name: self.name.clone(), category: self.category.clone() }
    }
}

} // verus!
