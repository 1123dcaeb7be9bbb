use vstd::prelude::*;
use vstd::string::StringExecFns;
use crate::session::{AppCategory, AppSession};

verus! {

/// Whether some string of `v` reads `n`.
pub open spec fn has_name(v: Seq<String>, n: Seq<char>) -> bool {
    exists|i: int| 0 <= i < v.len() && #[trigger] v[i]@ == n
}

/// Whether some session of `v` belongs to the executable `n`.
pub open spec fn has_session(v: Seq<AppSession>, n: Seq<char>) -> bool {
    exists|i: int| 0 <= i < v.len() && #[trigger] v[i].exe_name@ == n
}

/// At most one session per executable name.
pub open spec fn names_distinct(v: Seq<AppSession>) -> bool {
    forall|i: int, j: int|
        0 <= i < v.len() && 0 <= j < v.len() && i != j ==> #[trigger] v[i].exe_name@ != #[trigger] v[j].exe_name@
}

/// Every session of `v` is open.
pub open spec fn all_open(v: Seq<AppSession>) -> bool {
    forall|i: int| 0 <= i < v.len() ==> (#[trigger] v[i]).end_time is None
}

pub open spec fn fallback_category() -> Seq<char> {
    seq!['u', 't', 'i', 'l', 'i', 't', 'i', 'e', 's']
}

/// The category of an executable: the label of its first entry in `cats`,
/// or "utilities" where it has none.
pub open spec fn category_for(cats: Seq<AppCategory>, n: Seq<char>) -> Seq<char>
    decreases cats.len(),
{
    if cats.len() == 0 {
        fallback_category()
    } else if cats[0].name@ == n {
        cats[0].category@
    } else {
        category_for(cats.drop_first(), n)
    }
}

/// The tracker's shared state.
///
/// `active_sessions` holds the open sessions, at most one per executable;
/// `tracking_active` is the signal that keeps the tracking loop going, and
/// `tracking_thread_running` the guard that admits one loop at a time.
pub struct AppState {
    pub active_sessions: Vec<AppSession>,
    pub app_categories: Vec<AppCategory>,
    pub tracked_apps: Vec<(String, u64)>,
    pub tracking_active: bool,
    pub registered_apps: Vec<String>,
    pub tracking_thread_running: bool,
}

fn category_entry(name: &str, category: &str) -> (r: AppCategory)
    ensures
        r.name@ == name@,
        r.category@ == category@,
{
    AppCategory { name: String::from_str(name), category: String::from_str(category) }
}

/// The mapping a fresh state starts with: the editor counts as
/// productivity; the chat client and two games as entertainment.
pub open spec fn is_default_categories(c: Seq<AppCategory>) -> bool {
    &&& c.len() == 4
    &&& c[0].name@ == "Code.exe"@ && c[0].category@ == "productivity"@
    &&& c[1].name@ == "Discord.exe"@ && c[1].category@ == "entertainment"@
    &&& c[2].name@ == "CivilizationVI.exe"@ && c[2].category@ == "entertainment"@
    &&& c[3].name@ == "javaw.exe"@ && c[3].category@ == "entertainment"@
}

/// The category mapping that a fresh state starts with.
pub fn get_default_categories() -> (r: Vec<AppCategory>)
    ensures
        is_default_categories(r@),
{
    let mut v = Vec::new();
    v.push(category_entry("Code.exe", "productivity"));
    v.push(category_entry("Discord.exe", "entertainment"));
    v.push(category_entry("CivilizationVI.exe", "entertainment"));
    v.push(category_entry("javaw.exe", "entertainment"));
    v
}

impl Default for AppState {
    /// A state with no sessions, nothing registered, tracking off, no loop
    /// running, and the default categories.
    fn default() -> (r: AppState)
        ensures
            r.wf(),
            r.active_sessions@.len() == 0,
            r.tracked_apps@.len() == 0,
            r.registered_apps@.len() == 0,
            !r.tracking_active,
            !r.tracking_thread_running,
            is_default_categories(r.app_categories@),
    {
        AppState {
            active_sessions: Vec::new(),
            app_categories: get_default_categories(),
            tracked_apps: Vec::new(),
            tracking_active: false,
            registered_apps: Vec::new(),
            tracking_thread_running: false,
        }
    }
}

impl AppState {
    /// Sessions distinct by executable, all open.
    pub open spec fn wf(&self) -> bool {
        names_distinct(self.active_sessions@) && all_open(self.active_sessions@)
    }

    /// Replaces the registered applications wholesale.
    pub fn set_registered_apps(&mut self, apps: Vec<String>)
        ensures
            final(self).registered_apps == apps,
            final(self).active_sessions == old(self).active_sessions,
            final(self).app_categories == old(self).app_categories,
            final(self).tracked_apps == old(self).tracked_apps,
            final(self).tracking_active == old(self).tracking_active,
            final(self).tracking_thread_running == old(self).tracking_thread_running,
    {
        self.registered_apps = apps;
    }

    /// Sets or clears the signal that keeps the tracking loop going.
    pub fn set_tracking_active(&mut self, active: bool)
        ensures
            final(self).tracking_active == active,
            final(self).registered_apps == old(self).registered_apps,
            final(self).active_sessions == old(self).active_sessions,
            final(self).app_categories == old(self).app_categories,
            final(self).tracked_apps == old(self).tracked_apps,
            final(self).tracking_thread_running == old(self).tracking_thread_running,
    {
        self.tracking_active = active;
    }

    /// Takes the loop guard: true where no loop held it, and then the caller
    /// owns the one loop; false where a loop already runs.
    pub fn try_acquire_loop_guard(&mut self) -> (acquired: bool)
        ensures
            acquired == !old(self).tracking_thread_running,
            final(self).tracking_thread_running,
            final(self).tracking_active == old(self).tracking_active,
            final(self).registered_apps == old(self).registered_apps,
            final(self).active_sessions == old(self).active_sessions,
            final(self).app_categories == old(self).app_categories,
            final(self).tracked_apps == old(self).tracked_apps,
    {
        if self.tracking_thread_running {
            false
        } else {
            self.tracking_thread_running = true;
            true
        }
    }

    /// Gives the loop guard back.
    pub fn release_loop_guard(&mut self)
        ensures
            !final(self).tracking_thread_running,
            final(self).tracking_active == old(self).tracking_active,
            final(self).registered_apps == old(self).registered_apps,
            final(self).active_sessions == old(self).active_sessions,
            final(self).app_categories == old(self).app_categories,
            final(self).tracked_apps == old(self).tracked_apps,
    {
        self.tracking_thread_running = false;
    }

    /// The category label of an executable, "utilities" where it is unmapped.
    pub fn get_category(&self, name: &String) -> (r: String)
        ensures
            r@ == category_for(self.app_categories@, name@),
    {
        category_of(&self.app_categories, name)
    }
}

/// The label of the first entry of `cats` for `name`, else "utilities".
pub fn category_of(cats: &Vec<AppCategory>, name: &String) -> (r: String)
    ensures
        r@ == category_for(cats@, name@),
{
    let mut i: usize = 0;
    assert(cats@.subrange(0, cats@.len() as int) =~= cats@);
    while i < cats.len()
        invariant
            i <= cats@.len(),
            category_for(cats@, name@) == category_for(cats@.subrange(i as int, cats@.len() as int), name@),
        decreases cats@.len() - i,
    {
        let ghost rest = cats@.subrange(i as int, cats@.len() as int);
        assert(rest.drop_first() =~= cats@.subrange(i + 1, cats@.len() as int));
        assert(rest[0] == cats@[i as int]);
        if cats[i].name == *name {
            assert(rest.len() > 0 && rest[0].name@ == name@);
            return cats[i].category.clone();
        }
        i = i + 1;
    }
    proof { reveal_strlit("utilities"); }
    String::from_str("utilities")
}

/// Whether some string of `v` equals `name`.
pub fn contains_name(v: &Vec<String>, name: &String) -> (r: bool)
    ensures
        r == has_name(v@, name@),
{
    let mut i: usize = 0;
    while i < v.len()
        invariant
            i <= v@.len(),
            forall|k: int| 0 <= k < i ==> v@[k]@ != name@,
        decreases v@.len() - i,
    {
        if v[i] == *name {
            return true;
        }
        i = i + 1;
    }
    false
}

/// A copy of a list of sessions, element by element.
pub fn copy_sessions(v: &Vec<AppSession>) -> (r: Vec<AppSession>)
    ensures
        r@ == v@,
{
    let mut out: Vec<AppSession> = Vec::new();
    let mut i: usize = 0;
    while i < v.len()
        invariant
            i <= v@.len(),
            out@ == v@.subrange(0, i as int),
        decreases v@.len() - i,
    {
        out.push(v[i].copied());
        i = i + 1;
        assert(out@ =~= v@.subrange(0, i as int));
    }
    assert(out@ =~= v@);
    out
}

} // verus!
