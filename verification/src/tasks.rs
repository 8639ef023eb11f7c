//! Todoist tasks, and the data an import reads from them.
use vstd::prelude::*;
use crate::config::{copy_strings, strs_v};
use crate::document::{copy_opt_string, opt_v};
use crate::order::{lemma_seq_lt_order, seq_lt, str_lt, strictly_sorted};

verus! {

/// A project of the Todoist account.
pub struct TodoistProject {
    pub id: String,
    pub inbox_project: bool,
}

/// A Todoist task: its id, its text, the task it is a sub-task of, and whether it has a due
/// date.
pub struct TodoistTask {
    pub id: String,
    pub content: String,
    pub parent_id: Option<String>,
    pub scheduled: bool,
}

pub struct TaskV {
    pub id: Seq<char>,
    pub content: Seq<char>,
    pub parent: Option<Seq<char>>,
    pub scheduled: bool,
}

impl View for TodoistTask {
    type V = TaskV;

    open spec fn view(&self) -> TaskV {
        TaskV { id: self.id@, content: self.content@, parent: opt_v(self.parent_id), scheduled: self.scheduled }
    }
}

pub open spec fn tasks_v(s: Seq<TodoistTask>) -> Seq<TaskV> {
    s.map_values(|t: TodoistTask| t@)
}

impl TodoistTask {
    /// A task without a due date.
    pub fn new(id: String, content: String, parent_id: Option<String>) -> (r: TodoistTask)
        ensures
            r.id == id,
            r.content == content,
            r.parent_id == parent_id,
            !r.scheduled,
    {
        TodoistTask { id, content, parent_id, scheduled: false }
    }

    /// A task that has a due date where `scheduled` says so.
    pub fn new_scheduled(id: String, content: String, parent_id: Option<String>, scheduled: bool) -> (r: TodoistTask)
        ensures
            r.id == id,
            r.content == content,
            r.parent_id == parent_id,
            r.scheduled == scheduled,
    {
        TodoistTask { id, content, parent_id, scheduled }
    }

    pub fn copy(&self) -> (r: TodoistTask)
        ensures
            r@ == self@,
    {
        TodoistTask {
            id: self.id.clone(),
            content: self.content.clone(),
            parent_id: copy_opt_string(&self.parent_id),
            scheduled: self.scheduled,
        }
    }
}

/// `t` is a sub-task, and `id` is its own or its parent's.
pub open spec fn links(t: TaskV, id: Seq<char>) -> bool {
    match t.parent {
        Some(p) => t.id == id || p == id,
        None => false,
    }
}

/// `id` belongs to a sub-task or to a task that has sub-tasks.
pub open spec fn in_hierarchy(ts: Seq<TaskV>, id: Seq<char>) -> bool {
    exists|j: int| 0 <= j < ts.len() && #[trigger] links(ts[j], id)
}

/// The tasks of `ts` that are not scheduled and are neither sub-tasks nor have sub-tasks among
/// `all`, in order.
pub open spec fn lonely(ts: Seq<TaskV>, all: Seq<TaskV>) -> Seq<TaskV>
    decreases ts.len(),
{
    if ts.len() == 0 {
        Seq::empty()
    } else {
        lonely(ts.drop_last(), all) + if in_hierarchy(all, ts.last().id) || ts.last().scheduled {
            Seq::empty()
        } else {
            seq![ts.last()]
        }
    }
}

proof fn lemma_lonely_members(ts: Seq<TaskV>, all: Seq<TaskV>)
    ensures
        forall|i: int| 0 <= i < lonely(ts, all).len() ==> ts.contains(#[trigger] lonely(ts, all)[i]) && !in_hierarchy(all, lonely(ts, all)[i].id) && !lonely(ts, all)[i].scheduled,
    decreases ts.len(),
{
    if ts.len() > 0 {
        lemma_lonely_members(ts.drop_last(), all);
        let l0 = lonely(ts.drop_last(), all);
        assert forall|i: int| 0 <= i < lonely(ts, all).len() implies ts.contains(#[trigger] lonely(ts, all)[i]) && !in_hierarchy(all, lonely(ts, all)[i].id) && !lonely(ts, all)[i].scheduled by {
            if i < l0.len() {
                assert(lonely(ts, all)[i] == l0[i]);
                let k = choose|k: int| 0 <= k < ts.drop_last().len() && ts.drop_last()[k] == l0[i];
                assert(ts[k] == l0[i]);
            } else {
                assert(lonely(ts, all)[i] == ts.last());
                assert(ts[ts.len() - 1] == ts.last());
            }
        }
    }
}

/// The tasks that are not scheduled and are neither sub-tasks nor have sub-tasks, in their
/// order. None of them has a due date or a parent, and no task has one of them as its parent.
pub fn get_lonely_tasks(tasks: &[TodoistTask]) -> (r: Vec<TodoistTask>)
    ensures
        tasks_v(r@) == lonely(tasks_v(tasks@), tasks_v(tasks@)),
        forall|i: int| 0 <= i < r@.len() ==> (#[trigger] r@[i]).parent_id is None && !r@[i].scheduled,
        forall|i: int, j: int| 0 <= i < r@.len() && 0 <= j < tasks@.len() ==> tasks@[j].parent_id != Some(
            #[trigger] r@[i].id,
        ) || #[trigger] tasks@[j].parent_id is None,
{
    let ghost all = tasks_v(tasks@);
    let mut r: Vec<TodoistTask> = Vec::new();
    let mut i: usize = 0;
    proof {
        assert(all.take(0) =~= Seq::<TaskV>::empty());
        assert(tasks_v(r@) =~= Seq::<TaskV>::empty());
    }
    while i < tasks.len()
        invariant
            i <= tasks@.len(),
            all == tasks_v(tasks@),
            tasks_v(r@) == lonely(all.take(i as int), all),
        decreases tasks.len() - i,
    {
        let id = &tasks[i].id;
        let mut found = false;
        let mut j: usize = 0;
        while j < tasks.len()
            invariant
                j <= tasks@.len(),
                all == tasks_v(tasks@),
                found == exists|k: int| 0 <= k < j && #[trigger] links(all[k], id@),
            decreases tasks.len() - j,
        {
            match &tasks[j].parent_id {
                Some(p) => {
                    if tasks[j].id == *id || *p == *id {
                        proof {
                            assert(all[j as int].parent == Some(p@));
                            assert(links(all[j as int], id@));
                        }
                        found = true;
                    }
                },
                None => {},
            }
            proof {
                assert(all[j as int] == tasks@[j as int]@);
            }
            j = j + 1;
        }
        proof {
            assert(all.take(i + 1).drop_last() =~= all.take(i as int));
            assert(all.take(i + 1).last() == tasks@[i as int]@);
            assert(found == in_hierarchy(all, id@));
        }
        if !found && !tasks[i].scheduled {
            let ghost r0 = r@;
            r.push(tasks[i].copy());
            proof {
                assert(tasks_v(r@) =~= tasks_v(r0).push(tasks@[i as int]@));
            }
        } else {
            proof {
                assert(tasks_v(r@) =~= lonely(all.take(i as int), all) + Seq::<TaskV>::empty());
            }
        }
        i = i + 1;
    }
    proof {
        assert(all.take(tasks@.len() as int) =~= all);
        lemma_lonely_members(all, all);
        assert forall|i: int| 0 <= i < r@.len() implies (#[trigger] r@[i]).parent_id is None && !r@[i].scheduled by {
            assert(tasks_v(r@)[i] == r@[i]@);
            let t = tasks_v(r@)[i];
            let k = choose|k: int| 0 <= k < all.len() && all[k] == t;
            if r@[i].parent_id is Some {
                assert(all[k].parent is Some);
                assert(links(all[k], t.id));
                assert(in_hierarchy(all, t.id));
            }
        }
        assert forall|i: int, j: int| 0 <= i < r@.len() && 0 <= j < tasks@.len() implies tasks@[j].parent_id != Some(
            #[trigger] r@[i].id,
        ) || #[trigger] tasks@[j].parent_id is None by {
            assert(tasks_v(r@)[i] == r@[i]@);
            assert(all[j] == tasks@[j]@);
            if tasks@[j].parent_id == Some(r@[i].id) {
                assert(links(all[j], r@[i].id@));
                assert(in_hierarchy(all, r@[i].id@));
            }
        }
    }
    r
}


/// The contents of the tasks.
pub open spec fn contents(ts: Seq<TaskV>) -> Seq<Seq<char>> {
    ts.map_values(|t: TaskV| t.content)
}

/// The task at `j` is the first with its content.
pub open spec fn first_of_content(ts: Seq<TaskV>, j: int) -> bool {
    0 <= j < ts.len() && forall|k: int| 0 <= k < j ==> (#[trigger] ts[k]).content != ts[j].content
}

/// `x` is the first task of `all` with its content.
pub open spec fn kept_first(all: Seq<TaskV>, x: TaskV) -> bool {
    exists|j: int| first_of_content(all, j) && all[j] == x
}

/// `r` is what sorting `t` by content and keeping the first task of each content gives: the
/// contents of `r` are strictly increasing, they are the contents of `t`, and each task of `r`
/// is the first of `t` with its content.
pub open spec fn sorted_dedup_of(t: Seq<TaskV>, r: Seq<TaskV>) -> bool {
    &&& strictly_sorted(contents(r))
    &&& contents(r).to_set() == contents(t).to_set()
    &&& forall|i: int| 0 <= i < r.len() ==> kept_first(t, #[trigger] r[i])
}

/// The tasks are sorted by content and deduplicated in exactly one way.
pub proof fn sorted_dedup_unique(t: Seq<TaskV>, a: Seq<TaskV>, b: Seq<TaskV>)
    requires
        sorted_dedup_of(t, a),
        sorted_dedup_of(t, b),
    ensures
        a == b,
{
    crate::order::lemma_strictly_sorted_unique(contents(a), contents(b));
    assert(a.len() == b.len()) by {
        assert(contents(a).len() == a.len());
        assert(contents(b).len() == b.len());
    }
    assert forall|i: int| 0 <= i < a.len() implies a[i] == b[i] by {
        assert(kept_first(t, a[i]));
        assert(kept_first(t, b[i]));
        let j1 = choose|j: int| first_of_content(t, j) && t[j] == a[i];
        let j2 = choose|j: int| first_of_content(t, j) && t[j] == b[i];
        assert(contents(a)[i] == contents(b)[i]);
        assert(t[j1].content == t[j2].content);
        if j1 < j2 {
            assert(t[j1].content != t[j2].content);
        } else if j2 < j1 {
            assert(t[j2].content != t[j1].content);
        }
    }
    assert(a =~= b);
}

/// Sorting by content and deduplicating a second time changes nothing.
pub proof fn sorted_dedup_idempotent(t: Seq<TaskV>, r1: Seq<TaskV>, r2: Seq<TaskV>)
    requires
        sorted_dedup_of(t, r1),
        sorted_dedup_of(r1, r2),
    ensures
        r2 == r1,
{
    crate::order::lemma_seq_lt_order();
    assert forall|i: int| 0 <= i < r1.len() implies kept_first(r1, #[trigger] r1[i]) by {
        assert forall|k: int| 0 <= k < i implies (#[trigger] r1[k]).content != r1[i].content by {
            assert(contents(r1)[k] == r1[k].content);
            assert(contents(r1)[i] == r1[i].content);
            assert(crate::order::seq_lt(contents(r1)[k], contents(r1)[i]));
        }
        assert(first_of_content(r1, i));
    }
    assert(sorted_dedup_of(r1, r1));
    sorted_dedup_unique(r1, r1, r2);
}

/// Inserts `t` at its place among tasks sorted by content, unless a task with its content is
/// there already.
fn insert_task_sorted(v: &mut Vec<TodoistTask>, t: TodoistTask)
    requires
        strictly_sorted(contents(tasks_v(old(v)@))),
    ensures
        strictly_sorted(contents(tasks_v(final(v)@))),
        contents(tasks_v(final(v)@)).to_set() == contents(tasks_v(old(v)@)).to_set().insert(
            t.content@,
        ),
        forall|x: TaskV| #[trigger] tasks_v(final(v)@).contains(x) ==> tasks_v(old(v)@).contains(x)
            || (x == t@ && !contents(tasks_v(old(v)@)).contains(t.content@)),
{
    proof {
        lemma_seq_lt_order();
    }
    let ghost ts = tasks_v(v@);
    let ghost s = contents(ts);
    let mut p: usize = 0;
    while p < v.len() && str_lt(v[p].content.as_str(), t.content.as_str())
        invariant
            p <= v.len(),
            ts == tasks_v(v@),
            s == contents(ts),
            forall|k: int| 0 <= k < p ==> seq_lt(#[trigger] s[k], t.content@),
        decreases v.len() - p,
    {
        p = p + 1;
    }
    if p < v.len() && !str_lt(t.content.as_str(), v[p].content.as_str()) {
        proof {
            assert(s[p as int] == t.content@);
            assert(s.to_set().insert(t.content@) =~= s.to_set());
        }
        return;
    }
    proof {
        assert forall|k: int| p <= k < s.len() implies seq_lt(t.content@, #[trigger] s[k]) by {
            assert(!seq_lt(s[p as int], t.content@));
            assert(s[p as int] != t.content@);
            if k > p {
                assert(seq_lt(s[p as int], s[k]));
            }
        }
        assert(!s.contains(t.content@)) by {
            if s.contains(t.content@) {
                let k = choose|k: int| 0 <= k < s.len() && s[k] == t.content@;
                if k < p {
                    assert(seq_lt(s[k], t.content@));
                } else {
                    assert(seq_lt(t.content@, s[k]));
                }
            }
        }
    }
    let ghost tv = t@;
    v.insert(p, t);
    proof {
        let u = tasks_v(v@);
        assert(u =~= ts.insert(p as int, tv));
        let c = contents(u);
        assert(c =~= s.insert(p as int, tv.content));
        assert forall|i: int, j: int| 0 <= i < j < c.len() implies seq_lt(
            #[trigger] c[i],
            #[trigger] c[j],
        ) by {
            if j < p {
                assert(c[i] == s[i] && c[j] == s[j]);
            } else if j == p {
                assert(c[i] == s[i]);
            } else if i < p {
                assert(c[i] == s[i] && c[j] == s[j - 1]);
                assert(seq_lt(s[i], tv.content));
                assert(seq_lt(tv.content, s[j - 1]));
            } else if i == p {
                assert(c[j] == s[j - 1]);
            } else {
                assert(c[i] == s[i - 1] && c[j] == s[j - 1]);
            }
        }
        assert forall|e: Seq<char>| c.to_set().contains(e) <==> s.to_set().insert(tv.content).contains(e) by {
            if c.to_set().contains(e) {
                let k = choose|k: int| 0 <= k < c.len() && c[k] == e;
                if k < p {
                    assert(s[k] == e);
                } else if k > p {
                    assert(s[k - 1] == e);
                }
            }
            if s.to_set().contains(e) {
                let k = choose|k: int| 0 <= k < s.len() && s[k] == e;
                if k < p {
                    assert(c[k] == e);
                } else {
                    assert(c[k + 1] == e);
                }
            }
            if e == tv.content {
                assert(c[p as int] == e);
            }
        }
        assert(c.to_set() =~= s.to_set().insert(tv.content));
        assert forall|x: TaskV| #[trigger] u.contains(x) implies ts.contains(x) || (x == tv && !s.contains(tv.content)) by {
            let k = choose|k: int| 0 <= k < u.len() && u[k] == x;
            if k < p {
                assert(ts[k] == x);
            } else if k > p {
                assert(ts[k - 1] == x);
            }
        }
    }
}

/// The tasks sorted by content, with only the first of several tasks of one content kept: what
/// a stable sort by content followed by removing repeated contents leaves.
pub fn sort_dedup_tasks(tasks: &[TodoistTask]) -> (r: Vec<TodoistTask>)
    ensures
        sorted_dedup_of(tasks_v(tasks@), tasks_v(r@)),
{
    let ghost all = tasks_v(tasks@);
    let mut r: Vec<TodoistTask> = Vec::new();
    let mut i: usize = 0;
    proof {
        assert(contents(tasks_v(r@)).to_set() =~= contents(all.take(0)).to_set());
    }
    while i < tasks.len()
        invariant
            i <= tasks@.len(),
            all == tasks_v(tasks@),
            strictly_sorted(contents(tasks_v(r@))),
            contents(tasks_v(r@)).to_set() == contents(all.take(i as int)).to_set(),
            forall|x: TaskV| #[trigger] tasks_v(r@).contains(x) ==> exists|j: int|
                0 <= j < i && first_of_content(all, j) && all[j] == x,
        decreases tasks.len() - i,
    {
        let ghost before = tasks_v(r@);
        let ghost cb = contents(before);
        let t = tasks[i].copy();
        insert_task_sorted(&mut r, t);
        proof {
            assert(all[i as int] == t@);
            assert(contents(all.take(i + 1)) =~= contents(all.take(i as int)).push(t@.content));
            contents(all.take(i as int)).lemma_push_to_set_commute(t@.content);
            assert forall|x: TaskV| #[trigger] tasks_v(r@).contains(x) implies exists|j: int|
                0 <= j < i + 1 && first_of_content(all, j) && all[j] == x by {
                if before.contains(x) {
                    let j = choose|j: int| 0 <= j < i && first_of_content(all, j) && all[j] == x;
                    assert(0 <= j < i + 1 && first_of_content(all, j) && all[j] == x);
                } else {
                    assert(x == t@ && !cb.contains(t@.content));
                    assert forall|k: int| 0 <= k < i implies (#[trigger] all[k]).content != all[i as int].content by {
                        assert(contents(all.take(i as int))[k] == all[k].content);
                        assert(contents(all.take(i as int)).to_set().contains(all[k].content));
                        assert(cb.to_set().contains(all[k].content));
                    }
                    assert(first_of_content(all, i as int));
                }
            }
        }
        i = i + 1;
    }
    proof {
        assert(all.take(tasks@.len() as int) =~= all);
        assert forall|k: int| 0 <= k < tasks_v(r@).len() implies kept_first(tasks_v(tasks@), #[trigger] tasks_v(r@)[k]) by {
            assert(tasks_v(r@)[k] == r@[k]@);
            assert(tasks_v(r@).contains(r@[k]@));
            let j = choose|j: int| 0 <= j < i && first_of_content(all, j) && all[j] == r@[k]@;
            assert(first_of_content(tasks_v(tasks@), j) && tasks_v(tasks@)[j] == r@[k]@);
        }
    }
    r
}

/// The first project that is the inbox.
pub fn find_inbox(projects: &[TodoistProject]) -> (r: Option<usize>)
    ensures
        match r {
            Some(i) => i < projects@.len() && projects@[i as int].inbox_project && forall|k: int|
                0 <= k < i ==> !(#[trigger] projects@[k]).inbox_project,
            None => forall|k: int| 0 <= k < projects@.len() ==> !(#[trigger] projects@[k]).inbox_project,
        },
{
    let mut i: usize = 0;
    while i < projects.len()
        invariant
            i <= projects@.len(),
            forall|k: int| 0 <= k < i ==> !(#[trigger] projects@[k]).inbox_project,
        decreases projects.len() - i,
    {
        if projects[i].inbox_project {
            return Some(i);
        }
        i = i + 1;
    }
    None
}

/// What an import reads from a task.
pub enum TaskData {
    /// No import knows the task.
    Unhandled,
    /// url, title, channel, tags
    Youtube(String, String, String, Vec<String>),
    /// url, optional author, optional title, tags, optional description
    Sbs(String, Option<String>, Option<String>, Vec<String>, Option<String>),
    /// url, channel, title
    YtPlaylist(String, String, String),
    /// template name, optional url, optional title, tags, sources
    Interactive(String, Option<String>, Option<String>, Vec<String>, Vec<String>),
}

impl TaskData {
    pub open spec fn title(self) -> Option<Seq<char>> {
        match self {
            TaskData::Youtube(_, t, _, _) => Some(t@),
            TaskData::Sbs(_, _, t, _, _) => opt_v(t),
            TaskData::YtPlaylist(_, _, t) => Some(t@),
            TaskData::Interactive(_, _, t, _, _) => opt_v(t),
            TaskData::Unhandled => None,
        }
    }

    pub open spec fn tags(self) -> Seq<Seq<char>> {
        match self {
            TaskData::Youtube(_, _, _, t) => strs_v(t@),
            TaskData::Sbs(_, _, _, t, _) => strs_v(t@),
            TaskData::Interactive(_, _, _, t, _) => strs_v(t@),
            _ => Seq::empty(),
        }
    }

    pub open spec fn url(self) -> Option<Seq<char>> {
        match self {
            TaskData::Youtube(u, _, _, _) => Some(u@),
            TaskData::Sbs(u, _, _, _, _) => Some(u@),
            TaskData::YtPlaylist(u, _, _) => Some(u@),
            TaskData::Interactive(_, u, _, _, _) => opt_v(u),
            TaskData::Unhandled => None,
        }
    }

    /// The title of the imported item, if the task gives one.
    pub fn get_title(&self) -> (r: Option<String>)
        ensures
            opt_v(r) == self.title(),
    {
        match self {
            TaskData::Youtube(_, t, _, _) => Some(t.clone()),
            TaskData::Sbs(_, _, t, _, _) => copy_opt_string(t),
            TaskData::YtPlaylist(_, _, t) => Some(t.clone()),
            TaskData::Interactive(_, _, t, _, _) => copy_opt_string(t),
            TaskData::Unhandled => None,
        }
    }

    /// The tags the imported item gets.
    pub fn get_tags(&self) -> (r: Vec<String>)
        ensures
            strs_v(r@) == self.tags(),
    {
        match self {
            TaskData::Youtube(_, _, _, t) => copy_strings(t),
            TaskData::Sbs(_, _, _, t, _) => copy_strings(t),
            TaskData::Interactive(_, _, _, t, _) => copy_strings(t),
            _ => {
                let r: Vec<String> = Vec::new();
                proof {
                    assert(strs_v(r@) =~= Seq::<Seq<char>>::empty());
                }
                r
            },
        }
    }

    /// The url of the imported item, if the task gives one.
    pub fn get_url(&self) -> (r: Option<String>)
        ensures
            opt_v(r) == self.url(),
    {
        match self {
            TaskData::Youtube(u, _, _, _) => Some(u.clone()),
            TaskData::Sbs(u, _, _, _, _) => Some(u.clone()),
            TaskData::YtPlaylist(u, _, _) => Some(u.clone()),
            TaskData::Interactive(_, u, _, _, _) => copy_opt_string(u),
            TaskData::Unhandled => None,
        }
    }
}

/// What the interactive assignment decided for a task.
#[derive(Clone, Copy, Debug, PartialEq, Eq, Structural)]
pub enum Resolution {
    ToHandle,
    Skip,
}

} // verus!
