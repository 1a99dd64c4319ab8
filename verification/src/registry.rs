//! What is tracked.
use vstd::prelude::*;

use crate::text::{copy_all, views};

verus! {

/// A project that is tracked.
#[derive(Debug, PartialEq, Eq)]
pub struct ProjectEntry {
    pub id: i64,
    pub path: String,
    pub tools_detected: Vec<String>,
    pub created_at: String,
    pub updated_at: String,
}

/// The model of a [`ProjectEntry`].
pub struct ProjectView {
    pub id: i64,
    pub path: Seq<char>,
    pub tools_detected: Seq<Seq<char>>,
    pub created_at: Seq<char>,
    pub updated_at: Seq<char>,
}

impl View for ProjectEntry {
    type V = ProjectView;

    open spec fn view(&self) -> ProjectView {
        ProjectView {
            id: self.id,
            path: self.path@,
            tools_detected: views(self.tools_detected@),
            created_at: self.created_at@,
            updated_at: self.updated_at@,
        }
    }
}

impl Clone for ProjectEntry {
    fn clone(&self) -> (r: Self)
        ensures
            r@ == self@,
    {
        ProjectEntry {
            id: self.id,
            path: self.path.clone(),
            tools_detected: copy_all(&self.tools_detected),
            created_at: self.created_at.clone(),
            updated_at: self.updated_at.clone(),
        }
    }
}

/// A session artifact of a project.
#[derive(Debug, PartialEq, Eq)]
pub struct SessionArtifact {
    pub id: i64,
    pub project_id: i64,
    pub tool_name: String,
    pub artifact_path: String,
    pub created_at: String,
}

/// The projects whose directories are gone.
pub open spec fn stale_of(projects: Seq<ProjectView>, exists: Seq<bool>) -> Seq<ProjectView>
    decreases projects.len(),
{
    if projects.len() == 0 {
        seq![]
    } else {
        let rest = stale_of(projects.drop_last(), exists);
        if exists[projects.len() - 1] {
            rest
        } else {
            rest.push(projects.last())
        }
    }
}

/// The projects whose directories are gone. `exists` says it of each.
pub fn stale_projects(projects: &Vec<ProjectEntry>, exists: &Vec<bool>) -> (r: Vec<ProjectEntry>)
    requires
        exists@.len() == projects@.len(),
    ensures
        views(r@) == stale_of(views(projects@), exists@),
{
    let ghost ps = views(projects@);
    let mut out: Vec<ProjectEntry> = Vec::new();
    let mut i: usize = 0;
    assert(ps.take(0) =~= Seq::<ProjectView>::empty());
    assert(views(out@) =~= Seq::<ProjectView>::empty());
    while i < projects.len()
        invariant
            ps == views(projects@),
            exists@.len() == projects@.len(),
            i <= projects@.len(),
            views(out@) == stale_of(ps.take(i as int), exists@),
        decreases projects@.len() - i,
    {
        let ghost so_far = views(out@);
        proof {
            assert(ps.take(i + 1).drop_last() =~= ps.take(i as int));
            assert(ps.take(i + 1).last() == projects@[i as int]@);
        }
        if !exists[i] {
            out.push(projects[i].clone());
            assert(views(out@) =~= so_far.push(ps[i as int]));
        }
        i = i + 1;
    }
    assert(ps.take(i as int) =~= ps);
    out
}

/// The paths of the projects.
pub fn project_paths(projects: &Vec<ProjectEntry>) -> (r: Vec<String>)
    ensures
        views(r@) == Seq::new(projects@.len(), |i: int| projects@[i]@.path),
{
    let ghost want = Seq::new(projects@.len(), |i: int| projects@[i]@.path);
    let mut out: Vec<String> = Vec::new();
    let mut i: usize = 0;
    assert(views(out@) =~= want.take(0));
    while i < projects.len()
        invariant
            want == Seq::new(projects@.len(), |i: int| projects@[i]@.path),
            i <= projects@.len(),
            views(out@) == want.take(i as int),
        decreases projects@.len() - i,
    {
        let ghost so_far = views(out@);
        out.push(projects[i].path.clone());
        assert(views(out@) =~= so_far.push(want[i as int]));
        assert(views(out@) =~= want.take(i + 1));
        i = i + 1;
    }
    assert(want.take(i as int) =~= want);
    out
}

} // verus!
