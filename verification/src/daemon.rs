//! The daemon: its process, what it watches, and what it does about a move.
pub mod laws;

use vstd::prelude::*;

use crate::activity::{ActivityKind, ActivityRecord, RecordedView};
use crate::detector::{outermost, DetectionResult, DetectionView};
use crate::error::Error;
use crate::known::{moved_forms, moved_keys, KeyPair, KnownProjects};
use crate::paths::{parent, parent_of};
use crate::reconcile::ReconcileResult;
use crate::sorted::{insert_sorted, sorted};
use crate::text::{
    contains, copy_list, dec, decimal, has, is_numeral, lower, numeral, opt_view, owned,
    to_lower, trim, trimmed, views,
};
use crate::tools::{lookup, ToolRegistry, ToolView};
use crate::watcher::{EventView, SessionEvent};

verus! {

/// The index is not made anew for a miss before this age, in milliseconds.
pub const INDEX_REBUILD_MIN_AGE: u64 = 2_000;

/// The number that a text stands for: digits, behind a plus or nothing.
pub open spec fn unsigned(s: Seq<char>) -> Option<nat> {
    let digits = if s.len() > 0 && s[0] == '+' {
        s.skip(1)
    } else {
        s
    };
    if is_numeral(digits) {
        Some(numeral(digits))
    } else {
        None
    }
}

/// What `str::parse` into a `u32` says of a text that it refuses.
pub uninterp spec fn number_error(text: Seq<char>) -> Seq<char>;

/// `str::parse` into a `u32`: the number of a text of digits, behind a plus or
/// nothing, when it fits; else a message.
#[verifier::external_body]
pub(crate) fn parse_u32(text: &str) -> (r: Result<u32, String>)
    ensures
        match r {
            Ok(n) => unsigned(text@) == Some(n as nat),
            Err(e) => e@ == number_error(text@) && match unsigned(text@) {
                Some(n) => n > u32::MAX,
                None => true,
            },
        },
{
    text.parse::<u32>().map_err(|e| e.to_string())
}

/// The process that a PID file names.
pub open spec fn pid_of(content: Seq<char>) -> Option<u32> {
    match unsigned(trimmed(content)) {
        Some(n) => if n <= u32::MAX {
            Some(n as u32)
        } else {
            None
        },
        None => None,
    }
}

/// The process that a PID file names; nothing without a file.
pub fn read_pid(content: &Option<String>) -> (r: Result<Option<u32>, Error>)
    ensures
        match (opt_view(*content), r) {
            (None, Ok(p)) => p is None,
            (Some(c), Ok(p)) => p is Some && p == pid_of(c),
            (Some(c), Err(e)) => pid_of(c) is None && e.text() == "daemon error: "@
                + ("invalid PID file content: "@ + number_error(trimmed(c))),
            (None, Err(_)) => false,
        },
{
    match content {
        None => Ok(None),
        Some(c) => {
            let text = trim(c);
            match parse_u32(&text) {
                Ok(n) => Ok(Some(n)),
                Err(e) => Err(Error::Daemon(owned("invalid PID file content: ").concat(&e))),
            }
        },
    }
}

/// The PID file names this process. A late guard must not delete the file of
/// another daemon.
pub fn remove_pid_file(content: &Option<String>, own: u32) -> (r: bool)
    ensures
        r == (match opt_view(*content) {
            Some(c) => pid_of(c) == Some(own),
            None => false,
        }),
{
    match content {
        None => false,
        Some(c) => {
            let text = trim(c);
            match parse_u32(&text) {
                Ok(n) => n == own,
                Err(_) => false,
            }
        },
    }
}

/// A process is a daemon of this program when it lives and its command says
/// so; when the command cannot be found out, living is enough.
pub open spec fn is_daemon(alive: bool, command: Option<Seq<char>>) -> bool {
    alive && match command {
        Some(c) => has(lower(c), "sessionguard"@),
        None => true,
    }
}

/// A process is a daemon of this program. That it lives is not enough: its
/// number may have gone to another process.
pub fn is_sessionguard_process(alive: bool, command: &Option<String>) -> (r: bool)
    ensures
        r == is_daemon(alive, opt_view(*command)),
{
    alive && match command {
        Some(c) => contains(&to_lower(c), "sessionguard"),
        None => true,
    }
}

/// A daemon runs: there is a PID file, and it names one.
pub fn is_running(content: &Option<String>, alive: bool, command: &Option<String>) -> (r: bool)
    ensures
        r == (match opt_view(*content) {
            Some(c) => pid_of(c) is Some && is_daemon(alive, opt_view(*command)),
            None => false,
        }),
{
    match read_pid(content) {
        Ok(Some(_)) => is_sessionguard_process(alive, command),
        _ => false,
    }
}

/// What came of a step towards the PID file.
#[derive(Debug, PartialEq, Eq)]
pub enum PidReply {
    Created,
    /// There is a file; with the words of the system.
    Exists(String),
    /// The process that the file names, and whether it is a daemon.
    Holder { pid: Option<u32>, daemon: bool },
    Removed,
    Error(String),
}

/// The next step towards the PID file.
#[derive(Debug)]
pub enum PidStep {
    /// Create the file, unless there is one.
    Create,
    /// Find out which process the file names.
    Inspect,
    /// Remove the file.
    Remove,
    Finished(Result<(), Error>),
}

/// The model of a [`PidStep`]: an error is its text.
pub enum PidStepView {
    Create,
    Inspect,
    Remove,
    Finished(Result<(), Seq<char>>),
}

impl View for PidStep {
    type V = PidStepView;

    open spec fn view(&self) -> PidStepView {
        match self {
            PidStep::Create => PidStepView::Create,
            PidStep::Inspect => PidStepView::Inspect,
            PidStep::Remove => PidStepView::Remove,
            PidStep::Finished(r) => PidStepView::Finished(
                match r {
                    Ok(()) => Ok(()),
                    Err(e) => Err(e.text()),
                },
            ),
        }
    }
}

/// Another daemon has the file.
pub open spec fn held_by(reply: PidReply, own: u32) -> Option<u32> {
    match reply {
        PidReply::Holder { pid: Some(pid), daemon } => if pid != own && daemon {
            Some(pid)
        } else {
            None
        },
        _ => None,
    }
}

/// What creating the file came to, in the end.
pub open spec fn created(reply: PidReply) -> PidStepView {
    match reply {
        PidReply::Created => PidStepView::Finished(Ok(())),
        PidReply::Exists(e) => PidStepView::Finished(Err("IO error: "@ + e@)),
        PidReply::Error(e) => PidStepView::Finished(Err("IO error: "@ + e@)),
        _ => PidStepView::Finished(
            Err(
                "daemon error: "@
                    + "could not acquire the PID file (another daemon raced us to it)"@,
            ),
        ),
    }
}

/// How to get the PID file, after these replies. A file that is there is
/// removed once, unless another daemon has it.
pub open spec fn pid_step(seen: Seq<PidReply>, own: u32) -> PidStepView {
    if seen.len() == 0 {
        PidStepView::Create
    } else if !(seen[0] is Exists) {
        created(seen[0])
    } else if seen.len() == 1 {
        PidStepView::Inspect
    } else {
        match held_by(seen[1], own) {
            Some(pid) => PidStepView::Finished(
                Err(
                    "daemon error: "@ + (
                    "another sessionguard daemon is already running (PID "@ + dec(pid as nat)
                        + ")"@),
                ),
            ),
            None => if seen.len() == 2 {
                PidStepView::Remove
            } else if seen.len() == 3 {
                PidStepView::Create
            } else {
                created(seen[3])
            },
        }
    }
}

fn conclude(reply: &PidReply) -> (r: PidStep)
    ensures
        r@ == created(*reply),
{
    match reply {
        PidReply::Created => PidStep::Finished(Ok(())),
        PidReply::Exists(e) => PidStep::Finished(Err(Error::Io(e.clone()))),
        PidReply::Error(e) => PidStep::Finished(Err(Error::Io(e.clone()))),
        _ => PidStep::Finished(
            Err(
                Error::Daemon(
                    owned("could not acquire the PID file (another daemon raced us to it)"),
                ),
            ),
        ),
    }
}

/// How to get the PID file, after the replies so far. Creating it is all or
/// nothing, so that of two daemons only one gets it.
pub fn write_pid_file(seen: &Vec<PidReply>, own: u32) -> (r: PidStep)
    ensures
        r@ == pid_step(seen@, own),
{
    if seen.len() == 0 {
        return PidStep::Create;
    }
    match &seen[0] {
        PidReply::Exists(_) => {},
        _ => {
            return conclude(&seen[0]);
        },
    }
    if seen.len() == 1 {
        return PidStep::Inspect;
    }
    if let PidReply::Holder { pid: Some(pid), daemon } = &seen[1] {
        if *pid != own && *daemon {
            let text = owned("another sessionguard daemon is already running (PID ").concat(
                &decimal(*pid as u64),
            ).concat(")");
            return PidStep::Finished(Err(Error::Daemon(text)));
        }
    }
    if seen.len() == 2 {
        return PidStep::Remove;
    }
    if seen.len() == 3 {
        return PidStep::Create;
    }
    conclude(&seen[3])
}

/// The file of another daemon is never removed.
pub proof fn lemma_live_file_is_kept(seen: Seq<PidReply>, own: u32)
    requires
        pid_step(seen, own) is Remove,
    ensures
        seen.len() == 2,
        held_by(seen[1], own) is None,
{
}

/// The directories that may be watched: those that are configured, and the
/// parent of every registered project.
pub open spec fn watch_candidates(roots: Seq<Seq<char>>, projects: Seq<Seq<char>>) -> Seq<Seq<char>>
    decreases projects.len(),
{
    if projects.len() == 0 {
        roots
    } else {
        let rest = watch_candidates(roots, projects.drop_last());
        match parent_of(projects.last()) {
            Some(p) => rest.push(p),
            None => rest,
        }
    }
}

/// The directories that may be watched: those that are configured, and the
/// parent of every registered project.
pub fn candidates(roots: &Vec<String>, projects: &Vec<String>) -> (r: Vec<String>)
    ensures
        views(r@) == watch_candidates(views(roots@), views(projects@)),
{
    let ghost rs = views(roots@);
    let ghost ps = views(projects@);
    let mut out: Vec<String> = crate::text::copy_all(roots);
    let mut i: usize = 0;
    assert(ps.take(0) =~= Seq::<Seq<char>>::empty());
    while i < projects.len()
        invariant
            ps == views(projects@),
            i <= projects@.len(),
            views(out@) == watch_candidates(rs, ps.take(i as int)),
        decreases projects@.len() - i,
    {
        let ghost so_far = views(out@);
        proof {
            assert(ps.take(i + 1).drop_last() =~= ps.take(i as int));
            assert(ps.take(i + 1).last() == projects@[i as int]@);
        }
        if let Some(p) = parent(&projects[i]) {
            let ghost at = p@;
            out.push(p);
            assert(views(out@) =~= so_far.push(at));
        }
        i = i + 1;
    }
    assert(ps.take(i as int) =~= ps);
    out
}

/// The directories to watch, of those that exist, their links resolved: each
/// once, and none inside another, so that no event is reported twice.
pub fn build_watch_set(dirs: &Vec<String>) -> (r: Vec<String>)
    ensures
        views(r@) == outermost(sorted::<String>(views(dirs@))),
{
    let ghost ds = views(dirs@);
    let mut all: Vec<String> = Vec::new();
    let mut i: usize = 0;
    assert(ds.take(0) =~= Seq::<Seq<char>>::empty());
    assert(views(all@) =~= Seq::<Seq<char>>::empty());
    while i < dirs.len()
        invariant
            ds == views(dirs@),
            i <= dirs@.len(),
            views(all@) == sorted::<String>(ds.take(i as int)),
        decreases dirs@.len() - i,
    {
        proof {
            assert(ds.take(i + 1).drop_last() =~= ds.take(i as int));
            assert(ds.take(i + 1).last() == dirs@[i as int]@);
        }
        insert_sorted(&mut all, dirs[i].clone());
        i = i + 1;
    }
    assert(ds.take(i as int) =~= ds);
    crate::detector::keep_outermost(&all)
}

/// What to do about a move of a directory.
#[derive(Debug)]
pub enum KnownStep {
    /// It carries these projects.
    Pairs(Vec<KeyPair>),
    /// The index is old: make it anew, and look again.
    Rebuild,
    /// It carries none.
    Unknown,
}

/// The projects that a move carries, by an index.
pub open spec fn carried(
    known: KnownProjects,
    from: Seq<char>,
    to: Seq<char>,
    actual_parent: Option<Seq<char>>,
) -> Seq<(Seq<char>, Seq<char>)> {
    sorted::<KeyPair>(moved_keys(known@, moved_forms(from, actual_parent), to))
}

/// Which known projects a move carries. On a miss the projects that are
/// registered now are looked at, and then, when the index is old enough, it is
/// made anew.
pub fn known_pairs(
    known: &KnownProjects,
    registered: &Option<KnownProjects>,
    from: &str,
    to: &str,
    actual_parent: &Option<String>,
    now: u64,
) -> (r: KnownStep)
    ensures
        ({
            let first = carried(*known, from@, to@, opt_view(*actual_parent));
            let second = match *registered {
                Some(k) => carried(k, from@, to@, opt_view(*actual_parent)),
                None => seq![],
            };
            match r {
                KnownStep::Pairs(p) => p@.len() > 0 && views(p@) == (if first.len() > 0 {
                    first
                } else {
                    second
                }),
                KnownStep::Rebuild => first.len() == 0 && second.len() == 0 && now >= known.made()
                    && now - known.made() >= INDEX_REBUILD_MIN_AGE,
                KnownStep::Unknown => first.len() == 0 && second.len() == 0 && (now < known.made()
                    || now - known.made() < INDEX_REBUILD_MIN_AGE),
            }
        }),
{
    let pairs = known.pairs_for_move(from, to, actual_parent);
    assert(views(pairs@).len() == pairs@.len());
    if pairs.len() > 0 {
        return KnownStep::Pairs(pairs);
    }
    if let Some(k) = registered {
        let pairs = k.pairs_for_move(from, to, actual_parent);
        assert(views(pairs@).len() == pairs@.len());
        if pairs.len() > 0 {
            return KnownStep::Pairs(pairs);
        }
    }
    if known.age(now) >= INDEX_REBUILD_MIN_AGE {
        KnownStep::Rebuild
    } else {
        KnownStep::Unknown
    }
}

/// An artifact of a project that is registered.
#[derive(Debug, PartialEq, Eq)]
pub struct Artifact {
    pub tool: String,
    pub file: String,
}

impl View for Artifact {
    type V = (Seq<char>, Seq<char>);

    open spec fn view(&self) -> (Seq<char>, Seq<char>) {
        (self.tool@, self.file@)
    }
}

/// An operation on a project that has moved.
#[derive(Debug, PartialEq, Eq)]
pub enum ProjectOp {
    /// Rewrite the artifacts of this tool.
    Reconcile { tool: String, from: String, to: String },
    /// Register the new path, with these artifacts.
    Register { path: String, artifacts: Vec<Artifact> },
    /// Forget the old path.
    Unregister { path: String },
}

/// The model of a [`ProjectOp`].
pub enum ProjectOpView {
    Reconcile { tool: Seq<char>, from: Seq<char>, to: Seq<char> },
    Register { path: Seq<char>, artifacts: Seq<(Seq<char>, Seq<char>)> },
    Unregister { path: Seq<char> },
}

impl View for ProjectOp {
    type V = ProjectOpView;

    open spec fn view(&self) -> ProjectOpView {
        match self {
            ProjectOp::Reconcile { tool, from, to } => ProjectOpView::Reconcile {
                tool: tool@,
                from: from@,
                to: to@,
            },
            ProjectOp::Register { path, artifacts } => ProjectOpView::Register {
                path: path@,
                artifacts: views(artifacts@),
            },
            ProjectOp::Unregister { path } => ProjectOpView::Unregister { path: path@ },
        }
    }
}

/// The tools whose artifacts are rewritten: those that were detected and are
/// known.
pub open spec fn reconciles(
    detected: Seq<DetectionView>,
    tools: Seq<ToolView>,
    from: Seq<char>,
    to: Seq<char>,
) -> Seq<ProjectOpView>
    decreases detected.len(),
{
    if detected.len() == 0 {
        seq![]
    } else {
        let rest = reconciles(detected.drop_last(), tools, from, to);
        let name = detected.last().tool_name;
        if lookup(tools, name) is Some {
            rest.push(ProjectOpView::Reconcile { tool: name, from, to })
        } else {
            rest
        }
    }
}

/// The artifacts of the files, of one tool.
pub open spec fn artifacts_in(tool: Seq<char>, files: Seq<Seq<char>>) -> Seq<
    (Seq<char>, Seq<char>),
> {
    Seq::new(files.len(), |i: int| (tool, files[i]))
}

/// The artifacts of the tools that were detected.
pub open spec fn artifacts_of(detected: Seq<DetectionView>) -> Seq<(Seq<char>, Seq<char>)>
    decreases detected.len(),
{
    if detected.len() == 0 {
        seq![]
    } else {
        artifacts_of(detected.drop_last()) + artifacts_in(
            detected.last().tool_name,
            detected.last().artifact_files,
        )
    }
}

/// What is done about one project: its artifacts are rewritten, and it is
/// registered at its new path when it was at its old one, or has artifacts.
pub open spec fn project_ops(
    detected: Seq<DetectionView>,
    registered: bool,
    tools: Seq<ToolView>,
    from: Seq<char>,
    to: Seq<char>,
) -> Seq<ProjectOpView> {
    let first = reconciles(detected, tools, from, to);
    if registered || detected.len() > 0 {
        first.push(
            ProjectOpView::Register { path: to, artifacts: artifacts_of(detected) },
        ).push(ProjectOpView::Unregister { path: from })
    } else {
        first
    }
}

fn list_artifacts(detected: &Vec<DetectionResult>) -> (r: Vec<Artifact>)
    ensures
        views(r@) == artifacts_of(views(detected@)),
{
    let ghost ds = views(detected@);
    let mut out: Vec<Artifact> = Vec::new();
    let mut i: usize = 0;
    assert(ds.take(0) =~= Seq::<DetectionView>::empty());
    assert(views(out@) =~= Seq::<(Seq<char>, Seq<char>)>::empty());
    while i < detected.len()
        invariant
            ds == views(detected@),
            i <= detected@.len(),
            views(out@) == artifacts_of(ds.take(i as int)),
        decreases detected@.len() - i,
    {
        let d = &detected[i];
        let ghost so_far = views(out@);
        let ghost more = artifacts_in(d@.tool_name, d@.artifact_files);
        proof {
            assert(ds.take(i + 1).drop_last() =~= ds.take(i as int));
            assert(ds.take(i + 1).last() == d@);
        }
        let mut k: usize = 0;
        assert(views(out@) =~= so_far + more.take(0));
        while k < d.artifact_files.len()
            invariant
                more == artifacts_in(d@.tool_name, d@.artifact_files),
                k <= d.artifact_files@.len(),
                views(out@) == so_far + more.take(k as int),
            decreases d.artifact_files@.len() - k,
        {
            let ghost now = views(out@);
            let a = Artifact {
                tool: d.tool_name.clone(),
                file: d.artifact_files[k].clone(),
            };
            assert(a@ == more[k as int]);
            out.push(a);
            assert(views(out@) =~= now.push(more[k as int]));
            assert(views(out@) =~= so_far + more.take(k + 1));
            k = k + 1;
        }
        assert(more.take(k as int) =~= more);
        i = i + 1;
    }
    assert(ds.take(i as int) =~= ds);
    out
}

fn list_ops(
    detected: &Vec<DetectionResult>,
    registered: bool,
    tools: &ToolRegistry,
    from: &str,
    to: &str,
) -> (r: Vec<ProjectOp>)
    ensures
        views(r@) == project_ops(views(detected@), registered, tools@, from@, to@),
{
    let ghost ds = views(detected@);
    let mut out: Vec<ProjectOp> = Vec::new();
    let mut i: usize = 0;
    assert(ds.take(0) =~= Seq::<DetectionView>::empty());
    assert(views(out@) =~= Seq::<ProjectOpView>::empty());
    while i < detected.len()
        invariant
            ds == views(detected@),
            i <= detected@.len(),
            views(out@) == reconciles(ds.take(i as int), tools@, from@, to@),
        decreases detected@.len() - i,
    {
        let ghost so_far = views(out@);
        proof {
            assert(ds.take(i + 1).drop_last() =~= ds.take(i as int));
            assert(ds.take(i + 1).last() == detected@[i as int]@);
        }
        if tools.get(&detected[i].tool_name).is_some() {
            let op = ProjectOp::Reconcile {
                tool: detected[i].tool_name.clone(),
                from: owned(from),
                to: owned(to),
            };
            let ghost v = op@;
            out.push(op);
            assert(views(out@) =~= so_far.push(v));
        }
        i = i + 1;
    }
    assert(ds.take(i as int) =~= ds);
    if registered || detected.len() > 0 {
        let ghost first = views(out@);
        let register = ProjectOp::Register {
            path: owned(to),
            artifacts: list_artifacts(detected),
        };
        let ghost v = register@;
        out.push(register);
        assert(views(out@) =~= first.push(v));
        out.push(ProjectOp::Unregister { path: owned(from) });
        assert(views(out@) =~= first.push(v).push(ProjectOpView::Unregister { path: from@ }));
    }
    out
}

/// What came of a step of handling an event.
#[derive(Debug, PartialEq, Eq)]
pub enum EventReply {
    Flag(bool),
    /// The projects that a move carries.
    Known(Vec<KeyPair>),
    /// The tools that have artifacts in a project, and whether its old path is
    /// registered.
    Detected { results: Vec<DetectionResult>, registered: bool },
    Done,
}

/// How to go on with an event.
#[derive(Debug, PartialEq, Eq)]
pub enum EventStep {
    /// Is this a directory?
    IsDir(String),
    /// Which known projects does the move carry?
    Known { from: String, to: String },
    /// Re-key the session stores of these projects, as one.
    Rekey { pairs: Vec<KeyPair> },
    /// Look for artifacts at the new path, and for the old one in the registry.
    Detect { from: String, to: String },
    Do(ProjectOp),
    /// Does the path still exist, and is it registered?
    Vanished(String),
    /// Nothing is left to do; these projects are now known at their new paths.
    Finished(Vec<KeyPair>),
}

/// The model of an [`EventStep`].
pub enum EventStepView {
    IsDir(Seq<char>),
    Known { from: Seq<char>, to: Seq<char> },
    Rekey { pairs: Seq<(Seq<char>, Seq<char>)> },
    Detect { from: Seq<char>, to: Seq<char> },
    Do(ProjectOpView),
    Vanished(Seq<char>),
    Finished(Seq<(Seq<char>, Seq<char>)>),
}

impl View for EventStep {
    type V = EventStepView;

    open spec fn view(&self) -> EventStepView {
        match self {
            EventStep::IsDir(p) => EventStepView::IsDir(p@),
            EventStep::Known { from, to } => EventStepView::Known { from: from@, to: to@ },
            EventStep::Rekey { pairs } => EventStepView::Rekey { pairs: views(pairs@) },
            EventStep::Detect { from, to } => EventStepView::Detect { from: from@, to: to@ },
            EventStep::Do(op) => EventStepView::Do(op@),
            EventStep::Vanished(p) => EventStepView::Vanished(p@),
            EventStep::Finished(pairs) => EventStepView::Finished(views(pairs@)),
        }
    }
}

impl EventStepView {
    /// The step changes a store, a project or the registry.
    pub open spec fn changes(self) -> bool {
        self is Rekey || self is Do
    }
}

/// The tools that a reply reports.
pub open spec fn detected_in(reply: EventReply) -> Seq<DetectionView> {
    match reply {
        EventReply::Detected { results, .. } => views(results@),
        _ => seq![],
    }
}

/// The old path is registered, by a reply.
pub open spec fn registered_in(reply: EventReply) -> bool {
    match reply {
        EventReply::Detected { registered, .. } => registered,
        _ => false,
    }
}

/// How to go on with the projects from the `i`-th on, where the replies about
/// them begin at `at`.
pub open spec fn projects_step(
    pairs: Seq<(Seq<char>, Seq<char>)>,
    i: int,
    tools: Seq<ToolView>,
    seen: Seq<EventReply>,
    at: int,
) -> EventStepView
    decreases pairs.len() - i,
{
    if i >= pairs.len() {
        EventStepView::Finished(pairs)
    } else if at >= seen.len() {
        EventStepView::Detect { from: pairs[i].0, to: pairs[i].1 }
    } else {
        let ops = project_ops(
            detected_in(seen[at]),
            registered_in(seen[at]),
            tools,
            pairs[i].0,
            pairs[i].1,
        );
        let done = seen.len() - at - 1;
        if done < ops.len() {
            EventStepView::Do(ops[done])
        } else {
            projects_step(pairs, i + 1, tools, seen, at + 1 + ops.len())
        }
    }
}

/// How to go on with an event after these replies. Only a directory can be a
/// project, and only one that is, or contains, a known project is acted on. The
/// session stores are re-keyed before anything in the projects is looked at.
pub open spec fn event_step(event: EventView, tools: Seq<ToolView>, seen: Seq<EventReply>) -> EventStepView {
    match event {
        EventView::Moved { from: Some(from), to: Some(to) } => {
            if seen.len() == 0 {
                EventStepView::IsDir(to)
            } else if seen[0] != EventReply::Flag(true) {
                EventStepView::Finished(seq![])
            } else if seen.len() == 1 {
                EventStepView::Known { from, to }
            } else {
                match seen[1] {
                    EventReply::Known(pairs) => {
                        let ps = views(pairs@);
                        if ps.len() == 0 {
                            EventStepView::Finished(seq![])
                        } else if seen.len() == 2 {
                            EventStepView::Rekey { pairs: ps }
                        } else {
                            projects_step(ps, 0, tools, seen, 3)
                        }
                    },
                    _ => EventStepView::Finished(seq![]),
                }
            }
        },
        EventView::Moved { .. } => EventStepView::Finished(seq![]),
        EventView::Removed(path) => if seen.len() == 0 {
            EventStepView::Vanished(path)
        } else {
            EventStepView::Finished(seq![])
        },
        EventView::Created(_) => EventStepView::Finished(seq![]),
    }
}

fn nothing_more() -> (r: EventStep)
    ensures
        r@ == EventStepView::Finished(seq![]),
{
    let none: Vec<KeyPair> = Vec::new();
    assert(views(none@) =~= seq![]);
    EventStep::Finished(none)
}

fn next_for_projects(pairs: &Vec<KeyPair>, tools: &ToolRegistry, seen: &Vec<EventReply>) -> (r:
    EventStep)
    requires
        seen@.len() >= 3,
    ensures
        r@ == projects_step(views(pairs@), 0, tools@, seen@, 3),
{
    let ghost ps = views(pairs@);
    let n: usize = seen.len();
    let mut at: usize = 3;
    let mut i: usize = 0;
    while i < pairs.len()
        invariant
            ps == views(pairs@),
            n == seen@.len(),
            at <= n,
            i <= pairs@.len(),
            projects_step(ps, 0, tools@, seen@, 3) == projects_step(
                ps,
                i as int,
                tools@,
                seen@,
                at as int,
            ),
        decreases pairs@.len() - i,
    {
        let p = &pairs[i];
        assert(ps[i as int] == p@);
        if at >= n {
            return EventStep::Detect { from: p.first.clone(), to: p.second.clone() };
        }
        let mut ops = match &seen[at] {
            EventReply::Detected { results, registered } => list_ops(
                results,
                *registered,
                tools,
                &p.first,
                &p.second,
            ),
            _ => {
                let none: Vec<DetectionResult> = Vec::new();
                assert(views(none@) =~= Seq::<DetectionView>::empty());
                list_ops(&none, false, tools, &p.first, &p.second)
            },
        };
        let ghost want = project_ops(
            detected_in(seen@[at as int]),
            registered_in(seen@[at as int]),
            tools@,
            ps[i as int].0,
            ps[i as int].1,
        );
        assert(views(ops@) == want);
        assert(views(ops@).len() == ops@.len());
        let done: usize = n - at - 1;
        if done < ops.len() {
            assert(want[done as int] == ops@[done as int]@);
            return EventStep::Do(ops.remove(done));
        }
        at = at + 1 + ops.len();
        i = i + 1;
    }
    EventStep::Finished(copy_list(pairs))
}

/// How to go on with an event, after the replies so far. What is in the way is
/// noted and passed over: no step fails the whole.
pub fn handle_session_event(
    event: &SessionEvent,
    tools: &ToolRegistry,
    seen: &Vec<EventReply>,
) -> (r: EventStep)
    ensures
        r@ == event_step(event@, tools@, seen@),
{
    match event {
        SessionEvent::Moved { from: Some(from), to: Some(to) } => {
            if seen.len() == 0 {
                return EventStep::IsDir(to.clone());
            }
            match &seen[0] {
                EventReply::Flag(true) => {},
                _ => {
                    return nothing_more();
                },
            }
            if seen.len() == 1 {
                return EventStep::Known { from: from.clone(), to: to.clone() };
            }
            match &seen[1] {
                EventReply::Known(pairs) => {
                    assert(views(pairs@).len() == pairs@.len());
                    if pairs.len() == 0 {
                        nothing_more()
                    } else if seen.len() == 2 {
                        EventStep::Rekey { pairs: copy_list(pairs) }
                    } else {
                        next_for_projects(pairs, tools, seen)
                    }
                },
                _ => nothing_more(),
            }
        },
        SessionEvent::Moved { .. } => nothing_more(),
        SessionEvent::Removed(path) => {
            if seen.len() == 0 {
                EventStep::Vanished(path.clone())
            } else {
                nothing_more()
            }
        },
        SessionEvent::Created(_) => nothing_more(),
    }
}

/// A decision about one tool of a project that has moved is recorded, whatever
/// it was: what was done, and that nothing was.
pub fn reconcile_record(result: ReconcileResult, tool: &str, project: &str) -> (r: ActivityRecord)
    ensures
        r@ == (RecordedView {
            kind: ActivityKind::Reconcile,
            tool_name: Some(tool@),
            project_path: Some(project@),
            outcome: result.outcome@,
        }),
{
    ActivityRecord::new(ActivityKind::Reconcile, result.outcome).tool(tool).project(project)
}

/// The rename of a file changes nothing; nor does that of a directory that
/// holds no known project.
pub proof fn lemma_noise_changes_nothing(
    from: Seq<char>,
    to: Seq<char>,
    tools: Seq<ToolView>,
    seen: Seq<EventReply>,
)
    requires
        (seen.len() > 0 && seen[0] == EventReply::Flag(false)) || (seen.len() > 1 && (
        seen[1] matches EventReply::Known(pairs) && pairs@.len() == 0)),
    ensures
        !event_step(EventView::Moved { from: Some(from), to: Some(to) }, tools, seen).changes(),
{
}

/// Only a whole move changes anything: half of one, a removal and a creation do
/// not.
pub proof fn lemma_only_moves_change(event: EventView, tools: Seq<ToolView>, seen: Seq<EventReply>)
    requires
        event_step(event, tools, seen).changes(),
    ensures
        event matches EventView::Moved { from: Some(_), to: Some(_) },
{
}

/// The session stores come first: no project is touched before they were
/// re-keyed.
pub proof fn lemma_stores_come_first(event: EventView, tools: Seq<ToolView>, seen: Seq<EventReply>)
    requires
        event_step(event, tools, seen) is Do || event_step(event, tools, seen) is Detect,
    ensures
        seen.len() >= 3,
        event_step(event, tools, seen.take(2)) is Rekey,
{
    assert(seen.take(2)[0] == seen[0]);
    assert(seen.take(2)[1] == seen[1]);
}

} // verus!
