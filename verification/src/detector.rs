//! Which tools have left artifacts in a project, and where projects are.
pub mod laws;

use vstd::prelude::*;

use crate::paths::parts::{lemma_joined_name, lemma_names_are_plain, lemma_parent};
use crate::paths::{
    absolute, components, comps, file_name, is_under, join_path, joined, last_name, parent,
    parent_of, under,
};
use crate::sessions::decode::DirChild;
use crate::sessions::stores::{trim_trailing, without_trailing};
use crate::sorted::{
    ascending, insert_sorted, lemma_prefix_before, lemma_sorted, lemma_tied_paths, sorted, tied, Ranked,
};
use crate::text::{begins, copy_all, owned, same, starts_with, views};
use crate::tools::{ToolDefinition, ToolRegistry, ToolView};

verus! {

/// Directories that are visited in one walk, at most.
pub const WALK_DIR_CAP: usize = 50_000;

/// The artifacts of one tool in a project.
#[derive(Debug, PartialEq, Eq)]
pub struct DetectionResult {
    pub tool_name: String,
    pub display_name: String,
    /// The patterns that something in the project matches.
    pub matched_patterns: Vec<String>,
    /// The files that hold paths to rewrite, as far as they exist.
    pub artifact_files: Vec<String>,
}

/// The model of a [`DetectionResult`].
pub struct DetectionView {
    pub tool_name: Seq<char>,
    pub display_name: Seq<char>,
    pub matched_patterns: Seq<Seq<char>>,
    pub artifact_files: Seq<Seq<char>>,
}

impl View for DetectionResult {
    type V = DetectionView;

    open spec fn view(&self) -> DetectionView {
        DetectionView {
            tool_name: self.tool_name@,
            display_name: self.display_name@,
            matched_patterns: views(self.matched_patterns@),
            artifact_files: views(self.artifact_files@),
        }
    }
}

impl Clone for DetectionResult {
    fn clone(&self) -> (r: Self)
        ensures
            r@ == self@,
    {
        DetectionResult {
            tool_name: self.tool_name.clone(),
            display_name: self.display_name.clone(),
            matched_patterns: copy_all(&self.matched_patterns),
            artifact_files: copy_all(&self.artifact_files),
        }
    }
}

/// What a pattern of a tool finds in a project.
#[derive(Debug, Clone, Copy, PartialEq, Eq, Structural)]
pub struct PatternSight {
    /// There is something at the very place that the pattern names.
    pub exists: bool,
    /// Something matches the pattern.
    pub globbed: bool,
}

/// What was found of one tool in a project.
#[derive(Debug)]
pub struct ToolSight {
    /// For each of the tool's patterns.
    pub patterns: Vec<PatternSight>,
    /// For each of the tool's path fields: its file exists.
    pub files: Vec<bool>,
}

/// The place that a pattern names in a project, taken by the letter.
pub open spec fn literal_place(root: Seq<char>, pattern: Seq<char>) -> Seq<char> {
    joined(root, without_trailing(pattern, '/'))
}

/// The place that a pattern names in a project, taken by the letter.
pub fn pattern_place(root: &str, pattern: &str) -> (r: String)
    ensures
        r@ == literal_place(root@, pattern@),
{
    join_path(root, &trim_trailing(pattern, '/'))
}

/// The patterns that something matches.
pub open spec fn matching(patterns: Seq<Seq<char>>, sights: Seq<PatternSight>) -> Seq<Seq<char>>
    decreases patterns.len(),
{
    if patterns.len() == 0 {
        seq![]
    } else {
        let rest = matching(patterns.drop_last(), sights);
        let s = sights[patterns.len() - 1];
        if s.exists || s.globbed {
            rest.push(patterns.last())
        } else {
            rest
        }
    }
}

/// The files of the path fields that exist.
pub open spec fn existing(
    root: Seq<char>,
    fields: Seq<crate::tools::FieldView>,
    flags: Seq<bool>,
) -> Seq<Seq<char>>
    decreases fields.len(),
{
    if fields.len() == 0 {
        seq![]
    } else {
        let rest = existing(root, fields.drop_last(), flags);
        if flags[fields.len() - 1] {
            rest.push(joined(root, fields.last().file))
        } else {
            rest
        }
    }
}

/// The artifacts of a tool in a project; none when no pattern matches.
pub open spec fn detected(root: Seq<char>, tool: ToolView, sight: ToolSight) -> Option<
    DetectionView,
> {
    let m = matching(tool.session_patterns, sight.patterns@);
    if m.len() == 0 {
        None
    } else {
        Some(
            DetectionView {
                tool_name: tool.name,
                display_name: tool.display_name,
                matched_patterns: m,
                artifact_files: existing(root, tool.path_fields, sight.files@),
            },
        )
    }
}

/// The artifacts of one tool in a project, from what each of its patterns and
/// path fields finds there.
pub fn detect_single_tool(root: &str, tool: &ToolDefinition, sight: &ToolSight) -> (r: Option<
    DetectionResult,
>)
    requires
        sight.patterns@.len() == tool@.session_patterns.len(),
        sight.files@.len() == tool@.path_fields.len(),
    ensures
        crate::text::opt_view(r) == detected(root@, tool@, *sight),
{
    let ghost ps = tool@.session_patterns;
    let ghost fs = tool@.path_fields;
    let mut matched: Vec<String> = Vec::new();
    let mut i: usize = 0;
    assert(ps.take(0) =~= Seq::<Seq<char>>::empty());
    assert(views(matched@) =~= Seq::<Seq<char>>::empty());
    while i < tool.session_patterns.len()
        invariant
            ps == views(tool.session_patterns@),
            sight.patterns@.len() == ps.len(),
            i <= tool.session_patterns@.len(),
            views(matched@) == matching(ps.take(i as int), sight.patterns@),
        decreases tool.session_patterns@.len() - i,
    {
        let ghost so_far = views(matched@);
        proof {
            assert(ps.take(i + 1).drop_last() =~= ps.take(i as int));
            assert(ps.take(i + 1).last() == tool.session_patterns@[i as int]@);
        }
        if sight.patterns[i].exists || sight.patterns[i].globbed {
            matched.push(tool.session_patterns[i].clone());
            assert(views(matched@) =~= so_far.push(ps[i as int]));
        }
        i = i + 1;
    }
    assert(ps.take(i as int) =~= ps);
    if matched.len() == 0 {
        return None;
    }
    let mut files: Vec<String> = Vec::new();
    let mut k: usize = 0;
    assert(fs.take(0) =~= Seq::<crate::tools::FieldView>::empty());
    assert(views(files@) =~= Seq::<Seq<char>>::empty());
    while k < tool.path_fields.len()
        invariant
            fs == views(tool.path_fields@),
            sight.files@.len() == fs.len(),
            k <= tool.path_fields@.len(),
            views(files@) == existing(root@, fs.take(k as int), sight.files@),
        decreases tool.path_fields@.len() - k,
    {
        let ghost so_far = views(files@);
        proof {
            assert(fs.take(k + 1).drop_last() =~= fs.take(k as int));
            assert(fs.take(k + 1).last() == tool.path_fields@[k as int]@);
        }
        if sight.files[k] {
            files.push(join_path(root, &tool.path_fields[k].file));
            assert(views(files@) =~= so_far.push(joined(root@, fs[k as int].file)));
        }
        k = k + 1;
    }
    assert(fs.take(k as int) =~= fs);
    Some(
        DetectionResult {
            tool_name: tool.name.clone(),
            display_name: tool.display_name.clone(),
            matched_patterns: matched,
            artifact_files: files,
        },
    )
}

/// What was found is about these tools.
pub open spec fn sights_fit(tools: Seq<ToolView>, sights: Seq<ToolSight>) -> bool {
    &&& sights.len() == tools.len()
    &&& forall|i: int|
        0 <= i < tools.len() ==> (#[trigger] sights[i]).patterns@.len()
            == tools[i].session_patterns.len() && sights[i].files@.len()
            == tools[i].path_fields.len()
}

/// The artifacts of every tool that has any.
pub open spec fn all_detected(root: Seq<char>, tools: Seq<ToolView>, sights: Seq<ToolSight>) -> Seq<
    DetectionView,
>
    decreases tools.len(),
{
    if tools.len() == 0 {
        seq![]
    } else {
        let rest = all_detected(root, tools.drop_last(), sights);
        match detected(root, tools.last(), sights[tools.len() - 1]) {
            Some(d) => rest.push(d),
            None => rest,
        }
    }
}

/// The artifacts of every tool that has any in a project.
pub fn detect_tools(root: &str, registry: &ToolRegistry, sights: &Vec<ToolSight>) -> (r: Vec<
    DetectionResult,
>)
    requires
        sights_fit(registry@, sights@),
    ensures
        views(r@) == all_detected(root@, registry@, sights@),
{
    let tools = registry.all();
    let ghost ts = views(tools@);
    let mut out: Vec<DetectionResult> = Vec::new();
    let mut i: usize = 0;
    assert(ts.take(0) =~= Seq::<ToolView>::empty());
    assert(views(out@) =~= Seq::<DetectionView>::empty());
    while i < tools.len()
        invariant
            ts == views(tools@),
            sights_fit(ts, sights@),
            i <= tools@.len(),
            views(out@) == all_detected(root@, ts.take(i as int), sights@),
        decreases tools@.len() - i,
    {
        let ghost so_far = views(out@);
        proof {
            assert(ts.take(i + 1).drop_last() =~= ts.take(i as int));
            assert(ts.take(i + 1).last() == tools@[i as int]@);
            assert(sights@[i as int].patterns@.len() == ts[i as int].session_patterns.len());
        }
        if let Some(d) = detect_single_tool(root, &tools[i], &sights[i]) {
            out.push(d);
            assert(views(out@) =~= so_far.push(d@));
        }
        i = i + 1;
    }
    assert(ts.take(i as int) =~= ts);
    out
}

/// A directory that is never searched: dependencies, build trees, application
/// state, and whatever is hidden.
pub open spec fn skippable(p: Seq<char>) -> bool {
    match last_name(p) {
        Some(n) => n == "node_modules"@ || n == "target"@ || n == "vendor"@ || n == "__pycache__"@
            || n == "dist"@ || n == "build"@ || n == "Library"@ || begins(n, "."@),
        None => true,
    }
}

/// A directory that is never searched.
pub fn is_skippable_dir(p: &str) -> (r: bool)
    ensures
        r == skippable(p@),
{
    match file_name(p) {
        Some(n) => same(&n, "node_modules") || same(&n, "target") || same(&n, "vendor") || same(
            &n,
            "__pycache__",
        ) || same(&n, "dist") || same(&n, "build") || same(&n, "Library") || starts_with(&n, "."),
        None => true,
    }
}

/// A directory to visit, and how deep it is.
#[derive(Debug)]
pub struct Depth {
    pub dir: String,
    pub depth: usize,
}

impl View for Depth {
    type V = (Seq<char>, nat);

    open spec fn view(&self) -> (Seq<char>, nat) {
        (self.dir@, self.depth as nat)
    }
}

/// A search for projects under a directory.
#[derive(Debug)]
pub struct ProjectWalk {
    stack: Vec<Depth>,
    visited: usize,
    found: Vec<String>,
    truncated: bool,
    max_depth: usize,
    home: Option<String>,
}

/// The model of a [`ProjectWalk`].
pub struct ProjectWalkView {
    /// The directories still to visit, the next one last.
    pub stack: Seq<(Seq<char>, nat)>,
    pub visited: nat,
    /// The projects found so far.
    pub found: Seq<Seq<char>>,
    /// There were too many directories.
    pub truncated: bool,
    pub max_depth: nat,
    pub home: Option<Seq<char>>,
}

impl View for ProjectWalk {
    type V = ProjectWalkView;

    closed spec fn view(&self) -> ProjectWalkView {
        ProjectWalkView {
            stack: views(self.stack@),
            visited: self.visited as nat,
            found: views(self.found@),
            truncated: self.truncated,
            max_depth: self.max_depth as nat,
            home: crate::text::opt_view(self.home),
        }
    }
}

/// The home directory, or one above it.
pub open spec fn at_or_above_home(dir: Seq<char>, home: Option<Seq<char>>) -> bool {
    match home {
        Some(h) => under(h, dir),
        None => false,
    }
}

/// The directories below `dir` that are searched, pushed one after the other.
pub open spec fn pushed(
    stack: Seq<(Seq<char>, nat)>,
    dir: Seq<char>,
    depth: nat,
    children: Seq<(Seq<char>, bool)>,
) -> Seq<(Seq<char>, nat)>
    decreases children.len(),
{
    if children.len() == 0 {
        stack
    } else {
        let rest = pushed(stack, dir, depth, children.drop_last());
        let c = children.last();
        if c.1 && !skippable(joined(dir, c.0)) {
            rest.push((joined(dir, c.0), depth))
        } else {
            rest
        }
    }
}

impl ProjectWalkView {
    /// The walk after the next directory: whether it has artifacts, and what is
    /// in it. A directory with artifacts is a project, and is not searched
    /// further.
    pub open spec fn visited(
        self,
        has_artifacts: bool,
        children: Seq<(Seq<char>, bool)>,
    ) -> ProjectWalkView {
        let (dir, depth) = self.stack.last();
        let rest = self.stack.drop_last();
        if self.visited + 1 > WALK_DIR_CAP {
            ProjectWalkView { stack: seq![], visited: self.visited + 1, truncated: true, ..self }
        } else if !at_or_above_home(dir, self.home) && has_artifacts {
            ProjectWalkView {
                stack: rest,
                visited: self.visited + 1,
                found: self.found.push(dir),
                ..self
            }
        } else if depth >= self.max_depth {
            ProjectWalkView { stack: rest, visited: self.visited + 1, ..self }
        } else {
            ProjectWalkView {
                stack: pushed(rest, dir, depth + 1, children),
                visited: self.visited + 1,
                ..self
            }
        }
    }

    /// What holds of a walk at any time: it stays within its bounds, and has
    /// counted neither the home directory nor one above it as a project.
    pub open spec fn sound(self) -> bool {
        &&& self.visited <= WALK_DIR_CAP + 1
        &&& self.visited > WALK_DIR_CAP ==> self.truncated
        &&& self.truncated ==> self.stack.len() == 0
        &&& forall|i: int|
            0 <= i < self.stack.len() ==> (#[trigger] self.stack[i]).1 <= self.max_depth
        &&& forall|i: int|
            0 <= i < self.found.len() ==> !at_or_above_home(#[trigger] self.found[i], self.home)
    }
}

proof fn lemma_pushed(
    stack: Seq<(Seq<char>, nat)>,
    dir: Seq<char>,
    depth: nat,
    children: Seq<(Seq<char>, bool)>,
    max: nat,
)
    requires
        depth <= max,
        forall|i: int| 0 <= i < stack.len() ==> (#[trigger] stack[i]).1 <= max,
    ensures
        forall|i: int|
            0 <= i < pushed(stack, dir, depth, children).len() ==> (#[trigger] pushed(
                stack,
                dir,
                depth,
                children,
            )[i]).1 <= max,
    decreases children.len(),
{
    if children.len() > 0 {
        lemma_pushed(stack, dir, depth, children.drop_last(), max);
        let rest = pushed(stack, dir, depth, children.drop_last());
        let all = pushed(stack, dir, depth, children);
        assert forall|i: int| 0 <= i < all.len() implies (#[trigger] all[i]).1 <= max by {
            if i < rest.len() {
                assert(all[i] == rest[i]);
            }
        }
    }
}

/// However the tree looks, the walk stays within its bounds, and the home
/// directory is walked into, never counted.
pub proof fn lemma_walk_stays_sound(
    w: ProjectWalkView,
    has_artifacts: bool,
    children: Seq<(Seq<char>, bool)>,
)
    requires
        w.sound(),
        w.stack.len() > 0,
    ensures
        w.visited(has_artifacts, children).sound(),
{
    let (dir, depth) = w.stack.last();
    let rest = w.stack.drop_last();
    let v = w.visited(has_artifacts, children);
    assert forall|i: int| 0 <= i < rest.len() implies (#[trigger] rest[i]).1 <= w.max_depth by {
        assert(rest[i] == w.stack[i]);
    }
    assert(w.stack[w.stack.len() - 1].1 <= w.max_depth);
    if depth < w.max_depth {
        lemma_pushed(rest, dir, depth + 1, children, w.max_depth);
    }
    assert forall|i: int| 0 <= i < v.found.len() implies !at_or_above_home(
        #[trigger] v.found[i],
        v.home,
    ) by {
        if i < w.found.len() {
            assert(v.found[i] == w.found[i]);
        }
    }
}

impl ProjectWalk {
    /// Search under a directory, so many levels deep.
    pub fn start(root: &str, max_depth: usize, home: &Option<String>) -> (r: ProjectWalk)
        ensures
            r@ == (ProjectWalkView {
                stack: seq![(root@, 0nat)],
                visited: 0,
                found: seq![],
                truncated: false,
                max_depth: max_depth as nat,
                home: crate::text::opt_view(*home),
            }),
            r@.sound(),
    {
        let mut stack: Vec<Depth> = Vec::new();
        stack.push(Depth { dir: owned(root), depth: 0 });
        assert(views(stack@) =~= seq![(root@, 0nat)]);
        let found: Vec<String> = Vec::new();
        assert(views(found@) =~= seq![]);
        ProjectWalk {
            stack,
            visited: 0,
            found,
            truncated: false,
            max_depth,
            home: crate::text::copy_opt(home),
        }
    }

    /// The directory to visit next.
    pub fn next(&self) -> (r: Option<String>)
        ensures
            match r {
                Some(d) => self@.stack.len() > 0 && d@ == self@.stack.last().0,
                None => self@.stack.len() == 0,
            },
    {
        if self.stack.len() == 0 {
            None
        } else {
            assert(self@.stack.last() == self.stack@.last()@);
            Some(self.stack[self.stack.len() - 1].dir.clone())
        }
    }

    /// Take what the next directory holds: whether any tool has artifacts in
    /// it, and its entries.
    pub fn walk_for_projects(&mut self, has_artifacts: bool, children: &Vec<DirChild>)
        requires
            old(self)@.sound(),
            old(self)@.stack.len() > 0,
        ensures
            final(self)@ == old(self)@.visited(has_artifacts, views(children@)),
            final(self)@.sound(),
    {
        proof {
            lemma_walk_stays_sound(self@, has_artifacts, views(children@));
        }
        let ghost start = self@;
        let n: usize = self.stack.len();
        assert(start.stack.last() == self.stack@.last()@);
        assert(start.stack[start.stack.len() - 1].1 <= start.max_depth);
        let dir = self.stack[n - 1].dir.clone();
        let depth: usize = self.stack[n - 1].depth;
        self.stack.pop();
        assert(self@.stack =~= start.stack.drop_last());
        self.visited = self.visited + 1;
        if self.visited > WALK_DIR_CAP {
            self.stack = Vec::new();
            self.truncated = true;
            assert(self@.stack =~= seq![]);
            return;
        }
        let structural = match &self.home {
            Some(h) => is_under(h, &dir),
            None => false,
        };
        if !structural && has_artifacts {
            let ghost so_far = self@.found;
            let ghost d = dir@;
            self.found.push(dir);
            assert(self@.found =~= so_far.push(d));
            return;
        }
        if depth >= self.max_depth {
            return;
        }
        let ghost rest = self@.stack;
        let ghost cs = views(children@);
        let mut i: usize = 0;
        assert(cs.take(0) =~= Seq::<(Seq<char>, bool)>::empty());
        while i < children.len()
            invariant
                cs == views(children@),
                i <= children@.len(),
                depth < self@.max_depth,
                self@.max_depth <= usize::MAX,
                self@ == (ProjectWalkView {
                    stack: pushed(rest, dir@, (depth + 1) as nat, cs.take(i as int)),
                    visited: start.visited + 1,
                    ..start
                }),
            decreases children@.len() - i,
        {
            proof {
                assert(cs.take(i + 1).drop_last() =~= cs.take(i as int));
                assert(cs.take(i + 1).last() == children@[i as int]@);
            }
            let ghost so_far = self@.stack;
            let p = join_path(&dir, &children[i].name);
            if children[i].is_dir && !is_skippable_dir(&p) {
                let ghost at = p@;
                self.stack.push(Depth { dir: p, depth: depth + 1 });
                assert(self@.stack =~= so_far.push((at, (depth + 1) as nat)));
            }
            i = i + 1;
        }
        assert(cs.take(i as int) =~= cs);
    }

    /// The projects that were found, and whether there were too many
    /// directories to visit them all.
    pub fn outcome(self) -> (r: (Vec<String>, bool))
        ensures
            views(r.0@) == self@.found,
            r.1 == self@.truncated,
    {
        (self.found, self.truncated)
    }
}

/// A directory that holds mounted volumes or homes, or a root.
pub open spec fn mount_level(p: Seq<char>) -> bool {
    parent_of(p) is None || p == "/Volumes"@ || p == "/mnt"@ || p == "/media"@ || p == "/Users"@
        || p == "/home"@ || p == "/private"@ || p == "/tmp"@ || p == "/var"@
}

/// A directory that holds mounted volumes or homes, or a root.
pub fn is_mount_level(p: &str) -> (r: bool)
    ensures
        r == mount_level(p@),
{
    parent(p).is_none() || same(p, "/Volumes") || same(p, "/mnt") || same(p, "/media") || same(
        p,
        "/Users",
    ) || same(p, "/home") || same(p, "/private") || same(p, "/tmp") || same(p, "/var")
}

/// The directory to watch for a project: below the home directory the top one
/// that holds it, unless it is hidden or holds application state; elsewhere
/// its parent, or itself where that is too wide. Nothing for the home
/// directory and those above it.
pub open spec fn root_for(p: Seq<char>, home: Seq<char>) -> Option<Seq<char>> {
    if under(home, p) {
        None
    } else if under(p, home) {
        let first = comps(p)[comps(home).len() as int];
        if begins(first, "."@) || first == "Library"@ {
            None
        } else {
            Some(joined(home, first))
        }
    } else {
        match parent_of(p) {
            Some(q) => if mount_level(q) || under(home, q) {
                Some(p)
            } else {
                Some(q)
            },
            None => Some(p),
        }
    }
}

/// The directories to watch for the projects, one after the other.
pub open spec fn roots_for(projects: Seq<Seq<char>>, home: Seq<char>) -> Seq<Seq<char>>
    decreases projects.len(),
{
    if projects.len() == 0 {
        seq![]
    } else {
        let rest = roots_for(projects.drop_last(), home);
        match root_for(projects.last(), home) {
            Some(r) => rest.push(r),
            None => rest,
        }
    }
}

/// Some of the paths contains `p`.
pub open spec fn covered(p: Seq<char>, roots: Seq<Seq<char>>) -> bool {
    exists|i: int| 0 <= i < roots.len() && under(p, #[trigger] roots[i])
}

/// The paths that lie in none of those before them.
pub open spec fn outermost(roots: Seq<Seq<char>>) -> Seq<Seq<char>>
    decreases roots.len(),
{
    if roots.len() == 0 {
        seq![]
    } else {
        let rest = outermost(roots.drop_last());
        if covered(roots.last(), rest) {
            rest
        } else {
            rest.push(roots.last())
        }
    }
}

/// The directories to watch for the projects.
pub open spec fn watch_roots(projects: Seq<Seq<char>>, home: Seq<char>) -> Seq<Seq<char>> {
    outermost(sorted::<String>(roots_for(projects, home)))
}

fn find_root(p: &str, home: &str) -> (r: Option<String>)
    ensures
        crate::text::opt_view(r) == root_for(p@, home@),
{
    if is_under(home, p) {
        return None;
    }
    if is_under(p, home) {
        let all = components(p);
        let n: usize = components(home).len();
        assert(views(all@).len() > n) by {
            if comps(p@).len() <= comps(home@).len() {
                assert(comps(p@) =~= comps(home@));
            }
        }
        let first = &all[n];
        assert(views(all@)[n as int] == first@);
        if starts_with(first, ".") || same(first, "Library") {
            return None;
        }
        return Some(join_path(home, first));
    }
    match parent(p) {
        Some(q) => if is_mount_level(&q) || is_under(home, &q) {
            Some(owned(p))
        } else {
            Some(q)
        },
        None => Some(owned(p)),
    }
}

/// The directories to watch so that every project is seen to move: one for
/// each top directory of the home, never the home itself or one above it,
/// never a hidden one; and none inside another.
pub fn watch_roots_for(projects: &Vec<String>, home: &str) -> (r: Vec<String>)
    ensures
        views(r@) == watch_roots(views(projects@), home@),
{
    let ghost ps = views(projects@);
    let mut roots: Vec<String> = Vec::new();
    let mut i: usize = 0;
    assert(ps.take(0) =~= Seq::<Seq<char>>::empty());
    assert(views(roots@) =~= Seq::<Seq<char>>::empty());
    while i < projects.len()
        invariant
            ps == views(projects@),
            i <= projects@.len(),
            views(roots@) == sorted::<String>(roots_for(ps.take(i as int), home@)),
        decreases projects@.len() - i,
    {
        proof {
            assert(ps.take(i + 1).drop_last() =~= ps.take(i as int));
            assert(ps.take(i + 1).last() == projects@[i as int]@);
        }
        if let Some(root) = find_root(&projects[i], home) {
            let ghost rest = roots_for(ps.take(i as int), home@);
            assert(rest.push(root@).drop_last() =~= rest);
            insert_sorted(&mut roots, root);
        }
        i = i + 1;
    }
    assert(ps.take(i as int) =~= ps);
    keep_outermost(&roots)
}

/// The paths that lie in none of those before them.
pub(crate) fn keep_outermost(roots: &Vec<String>) -> (r: Vec<String>)
    ensures
        views(r@) == outermost(views(roots@)),
{
    let ghost rs = views(roots@);
    let mut out: Vec<String> = Vec::new();
    let mut k: usize = 0;
    assert(rs.take(0) =~= Seq::<Seq<char>>::empty());
    assert(views(out@) =~= Seq::<Seq<char>>::empty());
    while k < roots.len()
        invariant
            rs == views(roots@),
            k <= roots@.len(),
            views(out@) == outermost(rs.take(k as int)),
        decreases roots@.len() - k,
    {
        let ghost so_far = views(out@);
        proof {
            assert(rs.take(k + 1).drop_last() =~= rs.take(k as int));
            assert(rs.take(k + 1).last() == roots@[k as int]@);
        }
        if !is_covered(&roots[k], &out) {
            out.push(roots[k].clone());
            assert(views(out@) =~= so_far.push(rs[k as int]));
        }
        k = k + 1;
    }
    assert(rs.take(k as int) =~= rs);
    out
}

fn is_covered(p: &str, roots: &Vec<String>) -> (r: bool)
    ensures
        r == covered(p@, views(roots@)),
{
    let mut i: usize = 0;
    while i < roots.len()
        invariant
            i <= roots@.len(),
            forall|j: int| 0 <= j < i ==> !under(p@, #[trigger] views(roots@)[j]),
        decreases roots@.len() - i,
    {
        assert(views(roots@)[i as int] == roots@[i as int]@);
        if is_under(p, &roots[i]) {
            return true;
        }
        i = i + 1;
    }
    false
}

/// What is kept of an ordered list: in order, none inside another, and nothing
/// left uncovered.
proof fn lemma_outermost(s: Seq<Seq<char>>)
    requires
        ascending::<String>(s),
    ensures
        forall|y: Seq<char>| #[trigger] outermost(s).contains(y) ==> s.contains(y),
        forall|i: int, j: int|
            0 <= i < outermost(s).len() && 0 <= j < outermost(s).len() && i != j ==> !under(
                #[trigger] outermost(s)[i],
                #[trigger] outermost(s)[j],
            ),
        forall|i: int| 0 <= i < s.len() ==> covered(#[trigger] s[i], outermost(s)),
    decreases s.len(),
{
    if s.len() > 0 {
        let d = s.drop_last();
        let x = s.last();
        let rest = outermost(d);
        let all = outermost(s);
        assert(ascending::<String>(d)) by {
            assert forall|i: int, j: int| 0 <= i < j < d.len() implies String::precedes(
                #[trigger] d[i],
                #[trigger] d[j],
            ) by {
                assert(s[i] == d[i] && s[j] == d[j]);
            }
        }
        lemma_outermost(d);
        assert forall|y: Seq<char>| #[trigger] all.contains(y) implies s.contains(y) by {
            let i = choose|i: int| 0 <= i < all.len() && all[i] == y;
            if i < rest.len() {
                assert(rest[i] == y);
                assert(rest.contains(y));
                let k = choose|k: int| 0 <= k < d.len() && d[k] == y;
                assert(s[k] == y);
            } else {
                assert(s[s.len() - 1] == y);
            }
        }
        assert forall|i: int, j: int|
            0 <= i < all.len() && 0 <= j < all.len() && i != j implies !under(
            #[trigger] all[i],
            #[trigger] all[j],
        ) by {
            if i < rest.len() && j < rest.len() {
                assert(all[i] == rest[i] && all[j] == rest[j]);
            } else if j < rest.len() {
                assert(all[j] == rest[j]);
            } else {
                assert(all[i] == rest[i]);
                assert(rest.contains(rest[i]));
                let k = choose|k: int| 0 <= k < d.len() && d[k] == rest[i];
                assert(s[k] == rest[i]);
                assert(String::precedes(s[k], s[s.len() - 1]));
                if under(rest[i], x) {
                    if comps(x).len() < comps(rest[i]).len() {
                        lemma_prefix_before(comps(x), comps(rest[i]));
                        String::lemma_transitive(x, rest[i], x);
                    } else {
                        assert(comps(x) =~= comps(rest[i]));
                    }
                    String::lemma_irreflexive(x);
                }
            }
        }
        assert forall|i: int| 0 <= i < s.len() implies covered(#[trigger] s[i], all) by {
            if i < d.len() {
                assert(d[i] == s[i]);
                let k = choose|k: int| 0 <= k < rest.len() && under(d[i], #[trigger] rest[k]);
                assert(all[k] == rest[k]);
            } else if covered(x, rest) {
                let k = choose|k: int| 0 <= k < rest.len() && under(x, #[trigger] rest[k]);
                assert(all[k] == rest[k]);
            } else {
                assert(all[rest.len() as int] == x);
                assert(under(x, x));
            }
        }
    }
}

proof fn lemma_root_for(p: Seq<char>, home: Seq<char>)
    requires
        absolute(home),
    ensures
        root_for(p, home) matches Some(r) ==> under(p, r) && !under(home, r),
{
    if root_for(p, home) is Some {
        let r = root_for(p, home)->0;
        if under(p, home) {
            let n = comps(home).len() as int;
            if comps(p).len() <= n {
                assert(comps(p) =~= comps(home));
            }
            let first = comps(p)[n];
            assert(comps(home)[0] == seq!['/']);
            assert(comps(p)[0] == comps(home)[0]);
            lemma_rooted(p);
            lemma_names_are_plain(p, n);
            lemma_joined_name(home, first);
            assert(comps(r) =~= comps(p).take(n + 1));
        } else {
            lemma_parent(p);
        }
    }
}

/// A path whose first component is the root starts at the root.
pub(crate) proof fn lemma_rooted(p: Seq<char>)
    requires
        comps(p).len() > 0,
        comps(p)[0] == seq!['/'],
    ensures
        absolute(p),
{
    if !absolute(p) {
        lemma_names_are_plain(p, 0);
        assert(seq!['/'][0] == '/');
        assert(comps(p)[0].contains('/'));
    }
}

proof fn lemma_roots_for(projects: Seq<Seq<char>>, home: Seq<char>)
    requires
        absolute(home),
    ensures
        forall|i: int|
            0 <= i < roots_for(projects, home).len() ==> !under(
                home,
                #[trigger] roots_for(projects, home)[i],
            ),
        forall|i: int|
            0 <= i < projects.len() && root_for(#[trigger] projects[i], home) is Some ==> covered(
                projects[i],
                roots_for(projects, home),
            ),
    decreases projects.len(),
{
    if projects.len() > 0 {
        let d = projects.drop_last();
        lemma_roots_for(d, home);
        lemma_root_for(projects.last(), home);
        let rest = roots_for(d, home);
        let all = roots_for(projects, home);
        assert forall|i: int| 0 <= i < all.len() implies !under(home, #[trigger] all[i]) by {
            if i < rest.len() {
                assert(all[i] == rest[i]);
            }
        }
        assert forall|i: int|
            0 <= i < projects.len() && root_for(#[trigger] projects[i], home) is Some implies covered(
            projects[i],
            all,
        ) by {
            if i < d.len() {
                assert(d[i] == projects[i]);
                let k = choose|k: int| 0 <= k < rest.len() && under(d[i], #[trigger] rest[k]);
                assert(all[k] == rest[k]);
            } else {
                assert(under(projects[i], all[rest.len() as int]));
            }
        }
    }
}

/// Every root is at or above a project.
proof fn lemma_roots_have_projects(projects: Seq<Seq<char>>, home: Seq<char>)
    requires
        absolute(home),
    ensures
        forall|i: int|
            0 <= i < roots_for(projects, home).len() ==> holds_one(
                #[trigger] roots_for(projects, home)[i],
                projects,
            ),
    decreases projects.len(),
{
    if projects.len() > 0 {
        let d = projects.drop_last();
        lemma_roots_have_projects(d, home);
        lemma_root_for(projects.last(), home);
        let rest = roots_for(d, home);
        let all = roots_for(projects, home);
        assert forall|i: int| 0 <= i < all.len() implies holds_one(#[trigger] all[i], projects) by {
            if i < rest.len() {
                assert(all[i] == rest[i]);
                let k = choose|k: int| 0 <= k < d.len() && under(#[trigger] d[k], rest[i]);
                assert(projects[k] == d[k]);
            } else {
                assert(under(projects[projects.len() - 1], all[i]));
            }
        }
    }
}

/// Some of the projects is at the directory, or in it.
pub open spec fn holds_one(dir: Seq<char>, projects: Seq<Seq<char>>) -> bool {
    exists|k: int| 0 <= k < projects.len() && under(#[trigger] projects[k], dir)
}

/// Those that lie in none before them stay in order.
proof fn lemma_outermost_ascends(s: Seq<Seq<char>>)
    requires
        ascending::<String>(s),
    ensures
        ascending::<String>(outermost(s)),
    decreases s.len(),
{
    if s.len() > 0 {
        let d = s.drop_last();
        assert forall|i: int, j: int| 0 <= i < j < d.len() implies String::precedes(
            #[trigger] d[i],
            #[trigger] d[j],
        ) by {
            assert(d[i] == s[i] && d[j] == s[j]);
        }
        lemma_outermost_ascends(d);
        lemma_outermost(d);
        let rest = outermost(d);
        let all = outermost(s);
        assert forall|i: int, j: int| 0 <= i < j < all.len() implies String::precedes(
            #[trigger] all[i],
            #[trigger] all[j],
        ) by {
            assert(all[i] == rest[i]);
            if j < rest.len() {
                assert(all[j] == rest[j]);
            } else {
                assert(rest.contains(rest[i]));
                let k = choose|k: int| 0 <= k < d.len() && d[k] == rest[i];
                assert(s[k] == d[k]);
                assert(String::precedes(s[k], s[s.len() - 1]));
            }
        }
    }
}

/// The directories that are watched: in order and each once, never the home
/// directory or one above it, none inside another, each at or above a project;
/// and every project that is watched at all lies in one.
pub proof fn lemma_watch_roots(projects: Seq<Seq<char>>, home: Seq<char>)
    requires
        absolute(home),
    ensures
        forall|i: int|
            0 <= i < watch_roots(projects, home).len() ==> !under(
                home,
                #[trigger] watch_roots(projects, home)[i],
            ),
        forall|i: int, j: int|
            0 <= i < watch_roots(projects, home).len() && 0 <= j < watch_roots(
                projects,
                home,
            ).len() && i != j ==> !under(
                #[trigger] watch_roots(projects, home)[i],
                #[trigger] watch_roots(projects, home)[j],
            ),
        forall|i: int|
            0 <= i < projects.len() && root_for(#[trigger] projects[i], home) is Some ==> covered(
                projects[i],
                watch_roots(projects, home),
            ),
        ascending::<String>(watch_roots(projects, home)),
        forall|i: int|
            0 <= i < watch_roots(projects, home).len() ==> holds_one(
                #[trigger] watch_roots(projects, home)[i],
                projects,
            ),
{
    let rs = roots_for(projects, home);
    let s = sorted::<String>(rs);
    let w = watch_roots(projects, home);
    lemma_roots_for(projects, home);
    lemma_sorted::<String>(rs);
    lemma_outermost(s);
    lemma_outermost_ascends(s);
    lemma_roots_have_projects(projects, home);
    assert forall|i: int| 0 <= i < w.len() implies holds_one(#[trigger] w[i], projects) by {
        assert(w.contains(w[i]));
        assert(s.contains(w[i]));
        assert(rs.contains(w[i]));
        let k = choose|k: int| 0 <= k < rs.len() && rs[k] == w[i];
        assert(holds_one(rs[k], projects));
    }
    assert forall|i: int| 0 <= i < w.len() implies !under(home, #[trigger] w[i]) by {
        assert(w.contains(w[i]));
        assert(s.contains(w[i]));
        assert(rs.contains(w[i]));
        let k = choose|k: int| 0 <= k < rs.len() && rs[k] == w[i];
        assert(!under(home, rs[k]));
    }
    assert forall|i: int|
        0 <= i < projects.len() && root_for(#[trigger] projects[i], home) is Some implies covered(
        projects[i],
        w,
    ) by {
        let p = projects[i];
        let k = choose|k: int| 0 <= k < rs.len() && under(p, #[trigger] rs[k]);
        let j = choose|j: int| 0 <= j < s.len() && tied::<String>(#[trigger] s[j], #[trigger] rs[k]);
        lemma_tied_paths(s[j], rs[k]);
        assert(covered(s[j], w));
        let m = choose|m: int| 0 <= m < w.len() && under(s[j], #[trigger] w[m]);
        assert(comps(w[m]).is_prefix_of(comps(p))) by {
            assert forall|x: int| 0 <= x < comps(w[m]).len() implies comps(w[m])[x] == comps(p)[x] by {
                assert(comps(w[m])[x] == comps(s[j])[x]);
                assert(comps(rs[k])[x] == comps(p)[x]);
            }
            assert(comps(p).subrange(0, comps(w[m]).len() as int) =~= comps(w[m]));
        }
        assert(under(p, w[m]));
    }
}

} // verus!
