//! Counting sessions by project.
use vstd::prelude::*;

use crate::order::{before, is_before, lemma_before_irreflexive, lemma_before_total, lemma_before_transitive};
use crate::sessions::decode::DecodeConfidence;
use crate::text::{owned, same, views};

verus! {

/// The sessions of one tool in one project.
#[derive(Debug, Clone, Copy, PartialEq, Eq, Structural)]
pub struct ToolSessions {
    /// Session files, or rows.
    pub count: usize,
    /// Bytes of session files.
    pub bytes: u64,
    /// The latest activity, in seconds since the epoch.
    pub last_active_unix: u64,
}

impl Default for ToolSessions {
    fn default() -> (r: Self)
        ensures
            r == (ToolSessions { count: 0, bytes: 0, last_active_unix: 0 }),
    {
        ToolSessions { count: 0, bytes: 0, last_active_unix: 0 }
    }
}

/// The sessions of a tool, by name.
#[derive(Debug, PartialEq, Eq)]
pub struct ToolEntry {
    pub tool: String,
    pub sessions: ToolSessions,
}

/// The model of a [`ToolEntry`].
pub struct ToolEntryView {
    pub tool: Seq<char>,
    pub sessions: ToolSessions,
}

impl View for ToolEntry {
    type V = ToolEntryView;

    open spec fn view(&self) -> ToolEntryView {
        ToolEntryView { tool: self.tool@, sessions: self.sessions }
    }
}

/// All sessions of one project.
#[derive(Debug)]
pub struct SessionGroup {
    /// The directory of the project, as far as it could be resolved.
    pub project_path: String,
    /// The path is known.
    pub decoded: bool,
    /// How well the path is known.
    pub confidence: DecodeConfidence,
    /// The directory is gone.
    pub orphaned: bool,
    /// The machine that the sessions are on.
    pub host: String,
    /// The sessions of each tool, by name.
    pub tools: Vec<ToolEntry>,
}

/// The model of a [`SessionGroup`].
pub struct GroupView {
    pub project_path: Seq<char>,
    pub decoded: bool,
    pub confidence: DecodeConfidence,
    pub orphaned: bool,
    pub host: Seq<char>,
    pub tools: Seq<ToolEntryView>,
}

impl View for SessionGroup {
    type V = GroupView;

    open spec fn view(&self) -> GroupView {
        GroupView {
            project_path: self.project_path@,
            decoded: self.decoded,
            confidence: self.confidence,
            orphaned: self.orphaned,
            host: self.host@,
            tools: views(self.tools@),
        }
    }
}

/// Sessions that were found in a store.
#[derive(Debug)]
pub struct Sighting {
    /// The project that they belong to.
    pub path: String,
    /// How well that is known.
    pub confidence: DecodeConfidence,
    pub tool: String,
    pub sessions: ToolSessions,
}

/// The model of a [`Sighting`].
pub struct SightingView {
    pub path: Seq<char>,
    pub confidence: DecodeConfidence,
    pub tool: Seq<char>,
    pub sessions: ToolSessions,
}

impl View for Sighting {
    type V = SightingView;

    open spec fn view(&self) -> SightingView {
        SightingView {
            path: self.path@,
            confidence: self.confidence,
            tool: self.tool@,
            sessions: self.sessions,
        }
    }
}

/// The best confidence with which the path was seen.
pub open spec fn confidence_of(s: Seq<SightingView>, path: Seq<char>) -> DecodeConfidence
    decreases s.len(),
{
    if s.len() == 0 {
        DecodeConfidence::Unresolved
    } else if s.last().path == path {
        confidence_of(s.drop_last(), path).best(s.last().confidence)
    } else {
        confidence_of(s.drop_last(), path)
    }
}

/// The number of sessions of a tool in a project.
pub open spec fn count_of(s: Seq<SightingView>, path: Seq<char>, tool: Seq<char>) -> nat
    decreases s.len(),
{
    if s.len() == 0 {
        0
    } else {
        count_of(s.drop_last(), path, tool) + if s.last().path == path && s.last().tool == tool {
            s.last().sessions.count as nat
        } else {
            0
        }
    }
}

/// The bytes of the sessions of a tool in a project.
pub open spec fn bytes_of(s: Seq<SightingView>, path: Seq<char>, tool: Seq<char>) -> nat
    decreases s.len(),
{
    if s.len() == 0 {
        0
    } else {
        bytes_of(s.drop_last(), path, tool) + if s.last().path == path && s.last().tool == tool {
            s.last().sessions.bytes as nat
        } else {
            0
        }
    }
}

/// The latest activity of a tool in a project.
pub open spec fn latest_of(s: Seq<SightingView>, path: Seq<char>, tool: Seq<char>) -> nat
    decreases s.len(),
{
    if s.len() == 0 {
        0
    } else {
        let rest = latest_of(s.drop_last(), path, tool);
        let here = s.last().sessions.last_active_unix as nat;
        if s.last().path == path && s.last().tool == tool && here > rest {
            here
        } else {
            rest
        }
    }
}

/// All sessions together.
pub open spec fn total_count(s: Seq<SightingView>) -> nat
    decreases s.len(),
{
    if s.len() == 0 {
        0
    } else {
        total_count(s.drop_last()) + s.last().sessions.count as nat
    }
}

/// All bytes together.
pub open spec fn total_bytes(s: Seq<SightingView>) -> nat
    decreases s.len(),
{
    if s.len() == 0 {
        0
    } else {
        total_bytes(s.drop_last()) + s.last().sessions.bytes as nat
    }
}

/// The sums fit the machine's integers.
pub open spec fn countable(s: Seq<SightingView>) -> bool {
    total_count(s) <= usize::MAX && total_bytes(s) <= u64::MAX
}

/// The path was seen.
pub open spec fn seen_path(s: Seq<SightingView>, path: Seq<char>) -> bool {
    exists|k: int| 0 <= k < s.len() && (#[trigger] s[k]).path == path
}

/// The tool was seen in the project.
pub open spec fn seen_tool(s: Seq<SightingView>, path: Seq<char>, tool: Seq<char>) -> bool {
    exists|k: int| 0 <= k < s.len() && (#[trigger] s[k]).path == path && s[k].tool == tool
}

/// The entry says what was seen of the tool in the project.
pub open spec fn entry_for(t: ToolEntryView, s: Seq<SightingView>, path: Seq<char>) -> bool {
    &&& seen_tool(s, path, t.tool)
    &&& t.sessions.count == count_of(s, path, t.tool)
    &&& t.sessions.bytes == bytes_of(s, path, t.tool)
    &&& t.sessions.last_active_unix == latest_of(s, path, t.tool)
}

/// The entries are in the order of their names, without repetition.
pub open spec fn tools_sorted(t: Seq<ToolEntryView>) -> bool {
    forall|i: int, j: int|
        0 <= i < j < t.len() ==> before((#[trigger] t[i]).tool, (#[trigger] t[j]).tool)
}

/// The entries say what was seen in the project: each tool once.
pub open spec fn tools_for(t: Seq<ToolEntryView>, s: Seq<SightingView>, path: Seq<char>) -> bool {
    &&& tools_sorted(t)
    &&& forall|i: int| 0 <= i < t.len() ==> entry_for(#[trigger] t[i], s, path)
    &&& forall|tool: Seq<char>|
        seen_tool(s, path, tool) ==> exists|i: int|
            0 <= i < t.len() && (#[trigger] t[i]).tool == tool
}

/// The group says what was seen of its project.
pub open spec fn group_for(g: GroupView, s: Seq<SightingView>) -> bool {
    &&& seen_path(s, g.project_path)
    &&& g.confidence == confidence_of(s, g.project_path)
    &&& g.decoded == (g.confidence == DecodeConfidence::Exact)
    &&& g.host == "local"@
    &&& tools_for(g.tools, s, g.project_path)
}

/// The groups are in the order of their paths, without repetition.
pub open spec fn groups_sorted(g: Seq<GroupView>) -> bool {
    forall|i: int, j: int|
        0 <= i < j < g.len() ==> before(
            (#[trigger] g[i]).project_path,
            (#[trigger] g[j]).project_path,
        )
}

/// The groups say what was seen: each project once, no judgement passed.
pub open spec fn groups_for(g: Seq<GroupView>, s: Seq<SightingView>) -> bool {
    &&& groups_sorted(g)
    &&& forall|i: int| 0 <= i < g.len() ==> group_for(#[trigger] g[i], s) && !g[i].orphaned
    &&& forall|path: Seq<char>|
        seen_path(s, path) ==> exists|i: int|
            0 <= i < g.len() && (#[trigger] g[i]).project_path == path
}

proof fn lemma_part_of_total(s: Seq<SightingView>, path: Seq<char>, tool: Seq<char>)
    ensures
        count_of(s, path, tool) <= total_count(s),
        bytes_of(s, path, tool) <= total_bytes(s),
        latest_of(s, path, tool) <= u64::MAX,
    decreases s.len(),
{
    if s.len() > 0 {
        lemma_part_of_total(s.drop_last(), path, tool);
    }
}

proof fn lemma_unseen_tool(s: Seq<SightingView>, path: Seq<char>, tool: Seq<char>)
    requires
        !seen_tool(s, path, tool),
    ensures
        count_of(s, path, tool) == 0,
        bytes_of(s, path, tool) == 0,
        latest_of(s, path, tool) == 0,
    decreases s.len(),
{
    if s.len() > 0 {
        let d = s.drop_last();
        assert(!seen_tool(d, path, tool)) by {
            if seen_tool(d, path, tool) {
                let k = choose|k: int|
                    0 <= k < d.len() && (#[trigger] d[k]).path == path && d[k].tool == tool;
                assert(s[k] == d[k]);
            }
        }
        lemma_unseen_tool(d, path, tool);
        assert(s[s.len() - 1] == s.last());
    }
}

proof fn lemma_unseen_path(s: Seq<SightingView>, path: Seq<char>)
    requires
        !seen_path(s, path),
    ensures
        confidence_of(s, path) == DecodeConfidence::Unresolved,
        forall|tool: Seq<char>| !seen_tool(s, path, tool),
    decreases s.len(),
{
    if s.len() > 0 {
        let d = s.drop_last();
        assert(!seen_path(d, path)) by {
            if seen_path(d, path) {
                let k = choose|k: int| 0 <= k < d.len() && (#[trigger] d[k]).path == path;
                assert(s[k] == d[k]);
            }
        }
        lemma_unseen_path(d, path);
        assert(s[s.len() - 1] == s.last());
    }
    assert forall|tool: Seq<char>| !seen_tool(s, path, tool) by {
        if seen_tool(s, path, tool) {
            let k = choose|k: int|
                0 <= k < s.len() && (#[trigger] s[k]).path == path && s[k].tool == tool;
            assert(s[k].path == path);
        }
    }
}

proof fn lemma_seen_push(s: Seq<SightingView>, x: SightingView, path: Seq<char>, tool: Seq<char>)
    ensures
        seen_path(s.push(x), path) == (seen_path(s, path) || x.path == path),
        seen_tool(s.push(x), path, tool) == (seen_tool(s, path, tool) || (x.path == path && x.tool
            == tool)),
        s.push(x).drop_last() == s,
        s.push(x).last() == x,
{
    let t = s.push(x);
    assert(t.drop_last() =~= s);
    assert(t[s.len() as int] == x);
    if seen_path(s, path) {
        let k = choose|k: int| 0 <= k < s.len() && (#[trigger] s[k]).path == path;
        assert(t[k] == s[k]);
    }
    if seen_path(t, path) && x.path != path {
        let k = choose|k: int| 0 <= k < t.len() && (#[trigger] t[k]).path == path;
        assert(s[k] == t[k]);
    }
    if seen_tool(s, path, tool) {
        let k = choose|k: int|
            0 <= k < s.len() && (#[trigger] s[k]).path == path && s[k].tool == tool;
        assert(t[k] == s[k]);
    }
    if seen_tool(t, path, tool) && !(x.path == path && x.tool == tool) {
        let k = choose|k: int|
            0 <= k < t.len() && (#[trigger] t[k]).path == path && t[k].tool == tool;
        assert(s[k] == t[k]);
    }
}

/// A sighting of another project changes nothing about the tools of a project.
proof fn lemma_tools_frame(
    t: Seq<ToolEntryView>,
    s: Seq<SightingView>,
    x: SightingView,
    path: Seq<char>,
)
    requires
        tools_for(t, s, path),
        x.path != path,
    ensures
        tools_for(t, s.push(x), path),
{
    assert forall|i: int| 0 <= i < t.len() implies entry_for(#[trigger] t[i], s.push(x), path) by {
        lemma_seen_push(s, x, path, t[i].tool);
    }
    assert forall|tool: Seq<char>| seen_tool(s.push(x), path, tool) implies exists|i: int|
        0 <= i < t.len() && (#[trigger] t[i]).tool == tool by {
        lemma_seen_push(s, x, path, tool);
    }
}

fn absorb_tool(tools: &mut Vec<ToolEntry>, x: &Sighting, Ghost(s): Ghost<Seq<SightingView>>)
    requires
        tools_for(views(old(tools)@), s, x@.path),
        countable(s.push(x@)),
    ensures
        tools_for(views(final(tools)@), s.push(x@), x@.path),
{
    let ghost start = views(tools@);
    let ghost path = x@.path;
    let ghost after = s.push(x@);
    let mut i: usize = 0;
    proof {
        lemma_seen_push(s, x@, path, x@.tool);
        lemma_part_of_total(after, path, x@.tool);
        lemma_part_of_total(s, path, x@.tool);
    }
    while i < tools.len() && is_before(&tools[i].tool, &x.tool)
        invariant
            views(tools@) == start,
            i <= tools@.len(),
            forall|j: int| 0 <= j < i ==> before((#[trigger] start[j]).tool, x@.tool),
        decreases tools@.len() - i,
    {
        assert(start[i as int].tool == tools@[i as int].tool@);
        i = i + 1;
    }
    if i < tools.len() {
        assert(start[i as int] == tools@[i as int]@);
    }
    if i < tools.len() && same(&tools[i].tool, &x.tool) {
        assert(entry_for(start[i as int], s, path));
        let was = tools[i].sessions;
        let sessions = ToolSessions {
            count: was.count + x.sessions.count,
            bytes: was.bytes + x.sessions.bytes,
            last_active_unix: if x.sessions.last_active_unix > was.last_active_unix {
                x.sessions.last_active_unix
            } else {
                was.last_active_unix
            },
        };
        let tool = tools[i].tool.clone();
        let entry = ToolEntry { tool, sessions };
        tools.set(i, entry);
        let ghost now = views(tools@);
        proof {
            assert(now =~= start.update(i as int, entry@));
            assert forall|j: int| 0 <= j < now.len() implies entry_for(
                #[trigger] now[j],
                after,
                path,
            ) by {
                lemma_seen_push(s, x@, path, now[j].tool);
                if j != i {
                    assert(now[j] == start[j]);
                    assert(entry_for(start[j], s, path));
                    if now[j].tool == x@.tool {
                        if j < i {
                            lemma_before_irreflexive(x@.tool);
                        } else {
                            assert(before(start[i as int].tool, start[j].tool));
                            lemma_before_irreflexive(x@.tool);
                        }
                    }
                }
            }
            assert forall|a: int, b: int| 0 <= a < b < now.len() implies before(
                (#[trigger] now[a]).tool,
                (#[trigger] now[b]).tool,
            ) by {
                assert(now[a].tool == start[a].tool);
                assert(now[b].tool == start[b].tool);
            }
            assert forall|tool: Seq<char>| seen_tool(after, path, tool) implies exists|j: int|
                0 <= j < now.len() && (#[trigger] now[j]).tool == tool by {
                lemma_seen_push(s, x@, path, tool);
                if tool == x@.tool {
                    assert(now[i as int].tool == tool);
                } else {
                    let j = choose|j: int| 0 <= j < start.len() && (#[trigger] start[j]).tool
                        == tool;
                    assert(now[j].tool == tool);
                }
            }
        }
    } else {
        let entry = ToolEntry { tool: x.tool.clone(), sessions: x.sessions };
        tools.insert(i, entry);
        let ghost now = views(tools@);
        proof {
            assert(now =~= start.insert(i as int, entry@));
            if i < start.len() {
                lemma_before_total(start[i as int].tool, x@.tool);
            }
            assert(!seen_tool(s, path, x@.tool)) by {
                if seen_tool(s, path, x@.tool) {
                    let j = choose|j: int| 0 <= j < start.len() && (#[trigger] start[j]).tool
                        == x@.tool;
                    lemma_before_irreflexive(x@.tool);
                    if j > i {
                        assert(before(start[i as int].tool, start[j].tool));
                        lemma_before_transitive(x@.tool, start[i as int].tool, x@.tool);
                    }
                }
            }
            lemma_unseen_tool(s, path, x@.tool);
            assert forall|j: int| 0 <= j < now.len() implies entry_for(
                #[trigger] now[j],
                after,
                path,
            ) by {
                lemma_seen_push(s, x@, path, now[j].tool);
                if j != i {
                    let k = if j < i {
                        j
                    } else {
                        j - 1
                    };
                    assert(now[j] == start[k]);
                    assert(entry_for(start[k], s, path));
                }
            }
            assert forall|a: int, b: int| 0 <= a < b < now.len() implies before(
                (#[trigger] now[a]).tool,
                (#[trigger] now[b]).tool,
            ) by {
                let c = if a < i {
                    a
                } else {
                    a - 1
                };
                let d = if b < i {
                    b
                } else {
                    b - 1
                };
                if a == i {
                    assert(now[b] == start[d]);
                    if d > i {
                        assert(before(start[i as int].tool, start[d].tool));
                        lemma_before_transitive(x@.tool, start[i as int].tool, start[d].tool);
                    }
                } else if b == i {
                    assert(now[a] == start[c]);
                } else {
                    assert(now[a] == start[c] && now[b] == start[d]);
                }
            }
            assert forall|tool: Seq<char>| seen_tool(after, path, tool) implies exists|j: int|
                0 <= j < now.len() && (#[trigger] now[j]).tool == tool by {
                lemma_seen_push(s, x@, path, tool);
                if tool == x@.tool {
                    assert(now[i as int].tool == tool);
                } else {
                    let j = choose|j: int| 0 <= j < start.len() && (#[trigger] start[j]).tool
                        == tool;
                    if j < i {
                        assert(now[j] == start[j]);
                    } else {
                        assert(now[j + 1] == start[j]);
                    }
                }
            }
        }
    }
}

/// A sighting of another project changes nothing about a group.
proof fn lemma_group_frame(g: GroupView, s: Seq<SightingView>, x: SightingView)
    requires
        group_for(g, s),
        x.path != g.project_path,
    ensures
        group_for(g, s.push(x)),
{
    lemma_seen_push(s, x, g.project_path, x.tool);
    lemma_tools_frame(g.tools, s, x, g.project_path);
}

fn absorb(groups: &mut Vec<SessionGroup>, x: &Sighting, Ghost(s): Ghost<Seq<SightingView>>)
    requires
        groups_for(views(old(groups)@), s),
        countable(s.push(x@)),
    ensures
        groups_for(views(final(groups)@), s.push(x@)),
{
    let ghost start = views(groups@);
    let ghost after = s.push(x@);
    let mut i: usize = 0;
    proof {
        lemma_seen_push(s, x@, x@.path, x@.tool);
    }
    while i < groups.len() && is_before(&groups[i].project_path, &x.path)
        invariant
            views(groups@) == start,
            i <= groups@.len(),
            forall|j: int| 0 <= j < i ==> before((#[trigger] start[j]).project_path, x@.path),
        decreases groups@.len() - i,
    {
        assert(start[i as int].project_path == groups@[i as int].project_path@);
        i = i + 1;
    }
    if i < groups.len() {
        assert(start[i as int] == groups@[i as int]@);
    }
    if i < groups.len() && same(&groups[i].project_path, &x.path) {
        assert(group_for(start[i as int], s));
        let mut g = groups.remove(i);
        assert(g@ == start[i as int]);
        absorb_tool(&mut g.tools, x, Ghost(s));
        g.confidence = g.confidence.better(x.confidence);
        g.decoded = matches!(g.confidence, DecodeConfidence::Exact);
        groups.insert(i, g);
        let ghost now = views(groups@);
        proof {
            assert(now =~= start.update(i as int, g@));
            assert forall|j: int| 0 <= j < now.len() implies group_for(#[trigger] now[j], after)
                && !now[j].orphaned by {
                if j != i {
                    assert(now[j] == start[j]);
                    assert(group_for(start[j], s));
                    if now[j].project_path == x@.path {
                        lemma_before_irreflexive(x@.path);
                        if j > i {
                            assert(before(start[i as int].project_path, start[j].project_path));
                        }
                    }
                    lemma_group_frame(start[j], s, x@);
                }
            }
            assert forall|a: int, b: int| 0 <= a < b < now.len() implies before(
                (#[trigger] now[a]).project_path,
                (#[trigger] now[b]).project_path,
            ) by {
                assert(now[a].project_path == start[a].project_path);
                assert(now[b].project_path == start[b].project_path);
            }
            assert forall|path: Seq<char>| seen_path(after, path) implies exists|j: int|
                0 <= j < now.len() && (#[trigger] now[j]).project_path == path by {
                lemma_seen_push(s, x@, path, x@.tool);
                if path == x@.path {
                    assert(now[i as int].project_path == path);
                } else {
                    let j = choose|j: int|
                        0 <= j < start.len() && (#[trigger] start[j]).project_path == path;
                    assert(now[j].project_path == path);
                }
            }
        }
    } else {
        proof {
            if i < start.len() {
                lemma_before_total(start[i as int].project_path, x@.path);
            }
            assert(!seen_path(s, x@.path)) by {
                if seen_path(s, x@.path) {
                    let j = choose|j: int|
                        0 <= j < start.len() && (#[trigger] start[j]).project_path == x@.path;
                    lemma_before_irreflexive(x@.path);
                    if j > i {
                        assert(before(start[i as int].project_path, start[j].project_path));
                        lemma_before_transitive(x@.path, start[i as int].project_path, x@.path);
                    }
                }
            }
            lemma_unseen_path(s, x@.path);
        }
        let mut tools: Vec<ToolEntry> = Vec::new();
        assert(views(tools@) =~= Seq::<ToolEntryView>::empty());
        absorb_tool(&mut tools, x, Ghost(s));
        let g = SessionGroup {
            project_path: x.path.clone(),
            decoded: matches!(x.confidence, DecodeConfidence::Exact),
            confidence: x.confidence,
            orphaned: false,
            host: owned("local"),
            tools,
        };
        groups.insert(i, g);
        let ghost now = views(groups@);
        proof {
            assert(now =~= start.insert(i as int, g@));
            assert forall|j: int| 0 <= j < now.len() implies group_for(#[trigger] now[j], after)
                && !now[j].orphaned by {
                if j != i {
                    let k = if j < i {
                        j
                    } else {
                        j - 1
                    };
                    assert(now[j] == start[k]);
                    assert(group_for(start[k], s));
                    lemma_group_frame(start[k], s, x@);
                }
            }
            assert forall|a: int, b: int| 0 <= a < b < now.len() implies before(
                (#[trigger] now[a]).project_path,
                (#[trigger] now[b]).project_path,
            ) by {
                let c = if a < i {
                    a
                } else {
                    a - 1
                };
                let d = if b < i {
                    b
                } else {
                    b - 1
                };
                if a == i {
                    assert(now[b] == start[d]);
                    if d > i {
                        assert(before(start[i as int].project_path, start[d].project_path));
                        lemma_before_transitive(
                            x@.path,
                            start[i as int].project_path,
                            start[d].project_path,
                        );
                    }
                } else if b == i {
                    assert(now[a] == start[c]);
                } else {
                    assert(now[a] == start[c] && now[b] == start[d]);
                }
            }
            assert forall|path: Seq<char>| seen_path(after, path) implies exists|j: int|
                0 <= j < now.len() && (#[trigger] now[j]).project_path == path by {
                lemma_seen_push(s, x@, path, x@.tool);
                if path == x@.path {
                    assert(now[i as int].project_path == path);
                } else {
                    let j = choose|j: int|
                        0 <= j < start.len() && (#[trigger] start[j]).project_path == path;
                    if j < i {
                        assert(now[j] == start[j]);
                    } else {
                        assert(now[j + 1] == start[j]);
                    }
                }
            }
        }
    }
}

proof fn lemma_countable_prefix(s: Seq<SightingView>, i: int)
    requires
        0 <= i <= s.len(),
    ensures
        total_count(s.take(i)) <= total_count(s),
        total_bytes(s.take(i)) <= total_bytes(s),
    decreases s.len() - i,
{
    if i == s.len() {
        assert(s.take(i) =~= s);
    } else {
        lemma_countable_prefix(s, i + 1);
        assert(s.take(i + 1).drop_last() =~= s.take(i));
    }
}

/// Count what was found in the stores, project by project: for each the best
/// confidence of any sighting, and for each tool the sums and the latest
/// activity. Whether a project is orphaned is for [`mark_orphans`] to say.
pub fn census(sightings: &Vec<Sighting>) -> (r: Vec<SessionGroup>)
    requires
        countable(views(sightings@)),
    ensures
        groups_for(views(r@), views(sightings@)),
{
    let ghost s = views(sightings@);
    let mut groups: Vec<SessionGroup> = Vec::new();
    let mut i: usize = 0;
    assert(views(groups@) =~= Seq::<GroupView>::empty());
    assert(s.take(0) =~= Seq::<SightingView>::empty());
    while i < sightings.len()
        invariant
            s == views(sightings@),
            countable(s),
            i <= sightings@.len(),
            groups_for(views(groups@), s.take(i as int)),
        decreases sightings@.len() - i,
    {
        proof {
            lemma_countable_prefix(s, i + 1);
            assert(s.take(i + 1) =~= s.take(i as int).push(sightings@[i as int]@));
        }
        absorb(&mut groups, &sightings[i], Ghost(s.take(i as int)));
        i = i + 1;
    }
    assert(s.take(i as int) =~= s);
    groups
}

/// The verdict on a project: it is orphaned when its path is known or a good
/// guess, and its directory is gone from this machine.
pub open spec fn orphan_verdict(g: GroupView, exists: bool, foreign_root: bool) -> bool {
    !(g.confidence is Unresolved) && !exists && !foreign_root
}

/// Judge each project by whether its directory exists. Nothing is said of the
/// projects of another machine.
pub fn mark_orphans(groups: &mut Vec<SessionGroup>, exists: &Vec<bool>, foreign_root: bool)
    requires
        exists@.len() == old(groups)@.len(),
    ensures
        final(groups)@.len() == old(groups)@.len(),
        forall|i: int|
            0 <= i < final(groups)@.len() ==> (#[trigger] views(final(groups)@)[i]) == (GroupView {
                orphaned: orphan_verdict(views(old(groups)@)[i], exists@[i], foreign_root),
                ..views(old(groups)@)[i]
            }),
{
    let ghost start = views(groups@);
    let mut i: usize = 0;
    while i < groups.len()
        invariant
            exists@.len() == groups@.len(),
            start.len() == groups@.len(),
            i <= groups@.len(),
            forall|j: int|
                0 <= j < i ==> (#[trigger] views(groups@)[j]) == (GroupView {
                    orphaned: orphan_verdict(start[j], exists@[j], foreign_root),
                    ..start[j]
                }),
            forall|j: int| i <= j < groups@.len() ==> (#[trigger] views(groups@)[j]) == start[j],
        decreases groups@.len() - i,
    {
        let ghost now = views(groups@);
        let mut g = groups.remove(i);
        assert(g@ == now[i as int]);
        assert(g@ == start[i as int]);
        let known = !matches!(g.confidence, DecodeConfidence::Unresolved);
        g.orphaned = known && !exists[i] && !foreign_root;
        groups.insert(i, g);
        assert(views(groups@) =~= now.update(i as int, g@));
        i = i + 1;
    }
}

/// A census of another machine's home asserts no orphans.
pub proof fn lemma_foreign_root_has_no_orphans(g: GroupView, exists: bool)
    ensures
        !orphan_verdict(g, exists, true),
{
}

/// A path that could not be resolved is never called an orphan.
pub proof fn lemma_unresolved_is_no_orphan(g: GroupView, exists: bool, foreign_root: bool)
    requires
        g.confidence is Unresolved,
    ensures
        !orphan_verdict(g, exists, foreign_root),
{
}

/// The sessions of all tools together.
pub open spec fn listed_by_tools(t: Seq<ToolEntryView>) -> nat
    decreases t.len(),
{
    if t.len() == 0 {
        0
    } else {
        listed_by_tools(t.drop_last()) + t.last().sessions.count as nat
    }
}

/// The sessions of all groups together.
pub open spec fn listed(g: Seq<GroupView>) -> nat
    decreases g.len(),
{
    if g.len() == 0 {
        0
    } else {
        listed(g.drop_last()) + listed_by_tools(g.last().tools)
    }
}

spec fn tool_sum(t: Seq<ToolEntryView>, s: Seq<SightingView>, path: Seq<char>) -> nat
    decreases t.len(),
{
    if t.len() == 0 {
        0
    } else {
        tool_sum(t.drop_last(), s, path) + count_of(s, path, t.last().tool)
    }
}

spec fn group_sum(g: Seq<GroupView>, s: Seq<SightingView>) -> nat
    decreases g.len(),
{
    if g.len() == 0 {
        0
    } else {
        group_sum(g.drop_last(), s) + tool_sum(g.last().tools, s, g.last().project_path)
    }
}

spec fn lists_tool(t: Seq<ToolEntryView>, tool: Seq<char>) -> bool {
    exists|i: int| 0 <= i < t.len() && (#[trigger] t[i]).tool == tool
}

spec fn lists(g: Seq<GroupView>, path: Seq<char>, tool: Seq<char>) -> bool {
    exists|i: int|
        0 <= i < g.len() && (#[trigger] g[i]).project_path == path && lists_tool(g[i].tools, tool)
}

spec fn all_tools_sorted(g: Seq<GroupView>) -> bool {
    forall|i: int| 0 <= i < g.len() ==> tools_sorted((#[trigger] g[i]).tools)
}

proof fn lemma_tool_sum(t: Seq<ToolEntryView>, s: Seq<SightingView>, path: Seq<char>)
    requires
        s.len() > 0,
        tools_sorted(t),
    ensures
        tool_sum(t, s, path) == tool_sum(t, s.drop_last(), path) + if s.last().path == path
            && lists_tool(t, s.last().tool) {
            s.last().sessions.count as nat
        } else {
            0
        },
    decreases t.len(),
{
    if t.len() > 0 {
        let d = t.drop_last();
        let tool = s.last().tool;
        assert(forall|i: int| 0 <= i < d.len() ==> d[i] == t[i]);
        lemma_tool_sum(d, s, path);
        if t.last().tool == tool {
            assert(t[t.len() - 1].tool == tool);
            assert(!lists_tool(d, tool)) by {
                if lists_tool(d, tool) {
                    let i = choose|i: int| 0 <= i < d.len() && (#[trigger] d[i]).tool == tool;
                    assert(before(t[i].tool, t[t.len() - 1].tool));
                    lemma_before_irreflexive(tool);
                }
            }
        } else {
            assert(lists_tool(d, tool) == lists_tool(t, tool)) by {
                if lists_tool(t, tool) {
                    let i = choose|i: int| 0 <= i < t.len() && (#[trigger] t[i]).tool == tool;
                    assert(d[i].tool == tool);
                }
                if lists_tool(d, tool) {
                    let i = choose|i: int| 0 <= i < d.len() && (#[trigger] d[i]).tool == tool;
                    assert(t[i].tool == tool);
                }
            }
        }
    }
}

proof fn lemma_group_sum(g: Seq<GroupView>, s: Seq<SightingView>)
    requires
        s.len() > 0,
        groups_sorted(g),
        all_tools_sorted(g),
    ensures
        group_sum(g, s) == group_sum(g, s.drop_last()) + if lists(
            g,
            s.last().path,
            s.last().tool,
        ) {
            s.last().sessions.count as nat
        } else {
            0
        },
    decreases g.len(),
{
    if g.len() > 0 {
        let d = g.drop_last();
        let (path, tool) = (s.last().path, s.last().tool);
        assert(forall|i: int| 0 <= i < d.len() ==> d[i] == g[i]);
        lemma_group_sum(d, s);
        let last = g[g.len() - 1];
        lemma_tool_sum(last.tools, s, last.project_path);
        if last.project_path == path && lists_tool(last.tools, tool) {
            assert(lists(g, path, tool));
            assert(!lists(d, path, tool)) by {
                if lists(d, path, tool) {
                    let i = choose|i: int|
                        0 <= i < d.len() && (#[trigger] d[i]).project_path == path && lists_tool(
                            d[i].tools,
                            tool,
                        );
                    assert(before(g[i].project_path, last.project_path));
                    lemma_before_irreflexive(path);
                }
            }
        } else {
            assert(lists(d, path, tool) == lists(g, path, tool)) by {
                if lists(g, path, tool) {
                    let i = choose|i: int|
                        0 <= i < g.len() && (#[trigger] g[i]).project_path == path && lists_tool(
                            g[i].tools,
                            tool,
                        );
                    assert(d[i].project_path == path);
                }
                if lists(d, path, tool) {
                    let i = choose|i: int|
                        0 <= i < d.len() && (#[trigger] d[i]).project_path == path && lists_tool(
                            d[i].tools,
                            tool,
                        );
                    assert(g[i].project_path == path);
                }
            }
        }
    }
}

proof fn lemma_sum_is_total(g: Seq<GroupView>, s: Seq<SightingView>)
    requires
        groups_sorted(g),
        all_tools_sorted(g),
        forall|k: int| 0 <= k < s.len() ==> lists(g, (#[trigger] s[k]).path, s[k].tool),
    ensures
        group_sum(g, s) == total_count(s),
    decreases s.len(),
{
    if s.len() > 0 {
        let d = s.drop_last();
        assert(forall|k: int| 0 <= k < d.len() ==> d[k] == s[k]);
        lemma_sum_is_total(g, d);
        lemma_group_sum(g, s);
        assert(lists(g, s[s.len() - 1].path, s[s.len() - 1].tool));
    } else {
        lemma_empty_sum(g, s);
    }
}

proof fn lemma_empty_sum(g: Seq<GroupView>, s: Seq<SightingView>)
    requires
        s.len() == 0,
    ensures
        group_sum(g, s) == 0,
    decreases g.len(),
{
    if g.len() > 0 {
        lemma_empty_sum(g.drop_last(), s);
        lemma_empty_tools(g.last().tools, s, g.last().project_path);
    }
}

proof fn lemma_empty_tools(t: Seq<ToolEntryView>, s: Seq<SightingView>, path: Seq<char>)
    requires
        s.len() == 0,
    ensures
        tool_sum(t, s, path) == 0,
    decreases t.len(),
{
    if t.len() > 0 {
        lemma_empty_tools(t.drop_last(), s, path);
    }
}

proof fn lemma_listed_tools(t: Seq<ToolEntryView>, s: Seq<SightingView>, path: Seq<char>)
    requires
        forall|i: int| 0 <= i < t.len() ==> entry_for(#[trigger] t[i], s, path),
    ensures
        listed_by_tools(t) == tool_sum(t, s, path),
    decreases t.len(),
{
    if t.len() > 0 {
        let d = t.drop_last();
        assert(forall|i: int| 0 <= i < d.len() ==> d[i] == t[i]);
        lemma_listed_tools(d, s, path);
        assert(entry_for(t[t.len() - 1], s, path));
    }
}

proof fn lemma_listed(g: Seq<GroupView>, s: Seq<SightingView>)
    requires
        forall|i: int| 0 <= i < g.len() ==> group_for(#[trigger] g[i], s),
    ensures
        listed(g) == group_sum(g, s),
    decreases g.len(),
{
    if g.len() > 0 {
        let d = g.drop_last();
        assert(forall|i: int| 0 <= i < d.len() ==> d[i] == g[i]);
        lemma_listed(d, s);
        let last = g[g.len() - 1];
        assert(group_for(last, s));
        lemma_listed_tools(last.tools, s, last.project_path);
    }
}

/// No session is lost, and none is counted twice: the groups list as many as
/// were seen.
pub proof fn lemma_no_session_is_lost(g: Seq<GroupView>, s: Seq<SightingView>)
    requires
        groups_for(g, s),
    ensures
        listed(g) == total_count(s),
{
    lemma_listed(g, s);
    assert forall|k: int| 0 <= k < s.len() implies lists(g, (#[trigger] s[k]).path, s[k].tool) by {
        let (path, tool) = (s[k].path, s[k].tool);
        assert(seen_path(s, path));
        let i = choose|i: int| 0 <= i < g.len() && (#[trigger] g[i]).project_path == path;
        assert(group_for(g[i], s));
        assert(seen_tool(s, path, tool));
        let j = choose|j: int| 0 <= j < g[i].tools.len() && (#[trigger] g[i].tools[j]).tool == tool;
        assert(lists_tool(g[i].tools, tool));
    }
    assert forall|i: int| 0 <= i < g.len() implies tools_sorted((#[trigger] g[i]).tools) by {
        assert(group_for(g[i], s));
    }
    lemma_sum_is_total(g, s);
}

} // verus!
