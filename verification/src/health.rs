//! Whether the launchers of the tools are there, and whether the daemon does
//! its job.
use vstd::prelude::*;

use crate::paths::{join_path, joined};
use crate::text::{
    contains, contains_text, copy_all, copy_opt, dec, decimal_len, has, opt_view, owned, same,
    split, split_on, views,
};
use crate::tools::ToolDefinition;

verus! {

/// The launcher of a tool.
#[derive(Debug, PartialEq, Eq)]
pub enum BinaryStatus {
    /// It is there.
    Present { path: String },
    /// It is declared, and not there.
    Missing { binary: String },
    /// None is declared.
    NotConfigured,
}

/// The model of a [`BinaryStatus`].
pub enum BinaryView {
    Present { path: Seq<char> },
    Missing { binary: Seq<char> },
    NotConfigured,
}

impl View for BinaryStatus {
    type V = BinaryView;

    open spec fn view(&self) -> BinaryView {
        match self {
            BinaryStatus::Present { path } => BinaryView::Present { path: path@ },
            BinaryStatus::Missing { binary } => BinaryView::Missing { binary: binary@ },
            BinaryStatus::NotConfigured => BinaryView::NotConfigured,
        }
    }
}

/// The places where a program is looked for: a name with a separator is a path,
/// any other name stands below each directory of the search path.
pub open spec fn places(name: Seq<char>, search: Option<Seq<char>>) -> Seq<Seq<char>> {
    if has(name, "/"@) {
        seq![name]
    } else {
        match search {
            Some(path) => {
                let dirs = split(path, ':');
                Seq::new(dirs.len(), |i: int| joined(dirs[i], name))
            },
            None => seq![],
        }
    }
}

/// The places where a program is looked for.
pub fn which_places(name: &str, search: &Option<String>) -> (r: Vec<String>)
    ensures
        views(r@) == places(name@, opt_view(*search)),
{
    let mut out: Vec<String> = Vec::new();
    if contains(name, "/") {
        out.push(owned(name));
        assert(views(out@) =~= seq![name@]);
        return out;
    }
    if let Some(path) = search {
        let dirs = split_on(path, ':');
        let ghost want = places(name@, opt_view(*search));
        let mut i: usize = 0;
        assert(views(out@) =~= want.take(0));
        while i < dirs.len()
            invariant
                views(dirs@) == split(path@, ':'),
                want.len() == dirs@.len(),
                want == Seq::new(views(dirs@).len(), |i: int| joined(views(dirs@)[i], name@)),
                i <= dirs@.len(),
                views(out@) == want.take(i as int),
            decreases dirs@.len() - i,
        {
            let ghost so_far = views(out@);
            out.push(join_path(&dirs[i], name));
            assert(views(out@) =~= so_far.push(want[i as int]));
            assert(views(out@) =~= want.take(i + 1));
            i = i + 1;
        }
        assert(want.take(i as int) =~= want);
    }
    assert(views(out@) =~= places(name@, opt_view(*search)));
    out
}

/// The first of the places that is in the list.
pub open spec fn first_of(places: Seq<Seq<char>>, there: Seq<Seq<char>>) -> Option<Seq<char>>
    decreases places.len(),
{
    if places.len() == 0 {
        None
    } else if there.contains(places[0]) {
        Some(places[0])
    } else {
        first_of(places.skip(1), there)
    }
}

/// The launcher of a tool, by the programs that can be run.
pub open spec fn launcher(
    binary: Option<Seq<char>>,
    search: Option<Seq<char>>,
    runnable: Seq<Seq<char>>,
) -> BinaryView {
    match binary {
        None => BinaryView::NotConfigured,
        Some(name) => match first_of(places(name, search), runnable) {
            Some(path) => BinaryView::Present { path },
            None => BinaryView::Missing { binary: name },
        },
    }
}

/// The launcher of a tool: where the search path leads to it, if it is there.
/// `runnable` holds those of the [`which_places`] at which there is a program.
pub fn check_binary(
    tool: &ToolDefinition,
    search: &Option<String>,
    runnable: &Vec<String>,
) -> (r: BinaryStatus)
    ensures
        r@ == launcher(tool@.binary, opt_view(*search), views(runnable@)),
{
    match &tool.binary {
        None => BinaryStatus::NotConfigured,
        Some(name) => {
            let all = which_places(name, search);
            let ghost ps = views(all@);
            let mut i: usize = 0;
            assert(ps.skip(0) =~= ps);
            while i < all.len()
                invariant
                    ps == views(all@),
                    ps == places(name@, opt_view(*search)),
                    tool@.binary == Some(name@),
                    i <= all@.len(),
                    first_of(ps, views(runnable@)) == first_of(
                        ps.skip(i as int),
                        views(runnable@),
                    ),
                decreases all@.len() - i,
            {
                assert(ps.skip(i as int)[0] == all@[i as int]@);
                assert(ps.skip(i as int).skip(1) =~= ps.skip(i + 1));
                if contains_text(runnable, &all[i]) {
                    return BinaryStatus::Present { path: all[i].clone() };
                }
                i = i + 1;
            }
            BinaryStatus::Missing { binary: name.clone() }
        },
    }
}

/// How often an outcome was recorded.
#[derive(Debug, PartialEq, Eq)]
pub struct OutcomeCount {
    pub outcome: String,
    pub count: usize,
}

impl View for OutcomeCount {
    type V = (Seq<char>, usize);

    open spec fn view(&self) -> (Seq<char>, usize) {
        (self.outcome@, self.count)
    }
}

impl Clone for OutcomeCount {
    fn clone(&self) -> (r: Self)
        ensures
            r@ == self@,
    {
        OutcomeCount { outcome: self.outcome.clone(), count: self.count }
    }
}

/// Whether the daemon does its job, as it is now.
#[derive(Debug)]
pub struct DaemonHealth {
    pub running: bool,
    pub pid: Option<u32>,
    pub version: String,
    /// The directories that are to be watched, and are not there.
    pub missing_watch_roots: Vec<String>,
    pub watch_root_count: usize,
    pub tracked_projects: usize,
    /// When anything was decided last.
    pub last_activity: Option<String>,
    /// When anything was changed last.
    pub last_acted: Option<String>,
    pub outcomes: Vec<OutcomeCount>,
    /// It starts at login; nothing where that is not supported.
    pub service_installed: Option<bool>,
    /// What calls for attention.
    pub warnings: Vec<String>,
}

impl Clone for DaemonHealth {
    fn clone(&self) -> (r: Self)
        ensures
            r.running == self.running,
            r.pid == self.pid,
            r.version@ == self.version@,
            views(r.missing_watch_roots@) == views(self.missing_watch_roots@),
            r.watch_root_count == self.watch_root_count,
            r.tracked_projects == self.tracked_projects,
            opt_view(r.last_activity) == opt_view(self.last_activity),
            opt_view(r.last_acted) == opt_view(self.last_acted),
            views(r.outcomes@) == views(self.outcomes@),
            r.service_installed == self.service_installed,
            views(r.warnings@) == views(self.warnings@),
    {
        DaemonHealth {
            running: self.running,
            pid: self.pid,
            version: self.version.clone(),
            missing_watch_roots: copy_all(&self.missing_watch_roots),
            watch_root_count: self.watch_root_count,
            tracked_projects: self.tracked_projects,
            last_activity: copy_opt(&self.last_activity),
            last_acted: copy_opt(&self.last_acted),
            outcomes: crate::text::copy_list(&self.outcomes),
            service_installed: self.service_installed,
            warnings: copy_all(&self.warnings),
        }
    }
}

/// What is known of the daemon.
#[derive(Debug)]
pub struct DaemonFacts {
    pub running: bool,
    pub pid: Option<u32>,
    pub version: String,
    pub tracked_projects: usize,
    pub last_activity: Option<String>,
    pub last_acted: Option<String>,
    pub outcomes: Vec<OutcomeCount>,
    pub service_installed: Option<bool>,
}

/// How often the outcome was recorded, by the first entry for it.
pub open spec fn count_for(outcomes: Seq<(Seq<char>, usize)>, outcome: Seq<char>) -> usize
    decreases outcomes.len(),
{
    if outcomes.len() == 0 {
        0
    } else if outcomes[0].0 == outcome {
        outcomes[0].1
    } else {
        count_for(outcomes.skip(1), outcome)
    }
}

fn find_count(outcomes: &Vec<OutcomeCount>, outcome: &str) -> (r: usize)
    ensures
        r == count_for(views(outcomes@), outcome@),
{
    let ghost os = views(outcomes@);
    let mut i: usize = 0;
    assert(os.skip(0) =~= os);
    while i < outcomes.len()
        invariant
            os == views(outcomes@),
            i <= outcomes@.len(),
            count_for(os, outcome@) == count_for(os.skip(i as int), outcome@),
        decreases outcomes@.len() - i,
    {
        assert(os.skip(i as int)[0] == outcomes@[i as int]@);
        assert(os.skip(i as int).skip(1) =~= os.skip(i + 1));
        if same(&outcomes[i].outcome, outcome) {
            return outcomes[i].count;
        }
        i = i + 1;
    }
    0
}

/// One warning where it applies.
pub open spec fn when(applies: bool, text: Seq<char>) -> Seq<Seq<char>> {
    if applies {
        seq![text]
    } else {
        seq![]
    }
}

/// A warning about each missing directory.
pub open spec fn missing_warnings(missing: Seq<Seq<char>>) -> Seq<Seq<char>> {
    Seq::new(
        missing.len(),
        |i: int|
            "watch root "@ + missing[i]
                + " does not exist — it was moved or deleted, so nothing under it is being watched"@,
    )
}

/// What calls for attention, in this order.
pub open spec fn warnings_for(
    running: bool,
    acted: bool,
    service_installed: Option<bool>,
    watch_root_count: int,
    missing: Seq<Seq<char>>,
    refused: usize,
    failed: usize,
) -> Seq<Seq<char>> {
    when(
        !running,
        "the daemon is not running — no moves are being reconciled. Start it with `sessionguard start`."@,
    ) + when(
        service_installed == Some(false),
        "not installed as a login service, so the daemon stops at logout or reboot and moves after that go unnoticed. Run `sessionguard service install`."@,
    ) + when(
        watch_root_count == 0,
        "no watch roots are configured, so nothing is being watched. Add some with `sessionguard watch <path>` or in config.toml."@,
    ) + missing_warnings(missing) + when(
        running && !acted,
        "the daemon is running but has NEVER changed anything. If projects have moved since it started, it is not doing its job — check `sessionguard log --activity`."@,
    ) + when(
        refused > 0,
        dec(refused as nat)
            + " operation(s) were REFUSED to protect your data and need your attention — see `sessionguard log --activity`"@,
    ) + when(
        failed > 0,
        dec(failed as nat) + " operation(s) FAILED — see `sessionguard log --activity`"@,
    )
}

/// The directories that are not there.
pub open spec fn absent(roots: Seq<Seq<char>>, is_dir: Seq<bool>) -> Seq<Seq<char>>
    decreases roots.len(),
{
    if roots.len() == 0 {
        seq![]
    } else {
        let rest = absent(roots.drop_last(), is_dir);
        if is_dir[roots.len() - 1] {
            rest
        } else {
            rest.push(roots.last())
        }
    }
}

fn push_when(out: &mut Vec<String>, applies: bool, text: &str)
    ensures
        views(final(out)@) == views(old(out)@) + when(applies, text@),
{
    let ghost so_far = views(out@);
    if applies {
        out.push(owned(text));
        assert(views(out@) =~= so_far + when(applies, text@));
    } else {
        assert(views(out@) =~= so_far + when(applies, text@));
    }
}

fn push_missing(out: &mut Vec<String>, missing: &Vec<String>)
    ensures
        views(final(out)@) == views(old(out)@) + missing_warnings(views(missing@)),
{
    let ghost so_far = views(out@);
    let ghost more = missing_warnings(views(missing@));
    let mut i: usize = 0;
    assert(views(out@) =~= so_far + more.take(0));
    while i < missing.len()
        invariant
            more == missing_warnings(views(missing@)),
            i <= missing@.len(),
            views(out@) == so_far + more.take(i as int),
        decreases missing@.len() - i,
    {
        let ghost now = views(out@);
        out.push(
            owned("watch root ").concat(&missing[i]).concat(
                " does not exist — it was moved or deleted, so nothing under it is being watched",
            ),
        );
        assert(views(out@) =~= now.push(more[i as int]));
        assert(views(out@) =~= so_far + more.take(i + 1));
        i = i + 1;
    }
    assert(more.take(i as int) =~= more);
}

impl DaemonHealth {
    /// The daemon is up, and has never changed anything.
    pub fn is_inert(&self) -> (r: bool)
        ensures
            r == (self.running && self.last_acted is None),
    {
        self.running && self.last_acted.is_none()
    }

    /// Gather everything, and say what calls for attention. `is_dir` says of
    /// each directory that is to be watched whether it is there.
    pub fn gather(watch_roots: &Vec<String>, is_dir: &Vec<bool>, facts: DaemonFacts) -> (r:
        DaemonHealth)
        requires
            is_dir@.len() == watch_roots@.len(),
        ensures
            r.running == facts.running,
            r.pid == facts.pid,
            r.version == facts.version,
            views(r.missing_watch_roots@) == absent(views(watch_roots@), is_dir@),
            r.watch_root_count == watch_roots@.len(),
            r.tracked_projects == facts.tracked_projects,
            r.last_activity == facts.last_activity,
            r.last_acted == facts.last_acted,
            r.outcomes == facts.outcomes,
            r.service_installed == facts.service_installed,
            views(r.warnings@) == warnings_for(
                facts.running,
                facts.last_acted is Some,
                facts.service_installed,
                watch_roots@.len() as int,
                absent(views(watch_roots@), is_dir@),
                count_for(views(facts.outcomes@), "refused"@),
                count_for(views(facts.outcomes@), "failed"@),
            ),
    {
        let ghost rs = views(watch_roots@);
        let mut missing: Vec<String> = Vec::new();
        let mut i: usize = 0;
        assert(rs.take(0) =~= Seq::<Seq<char>>::empty());
        assert(views(missing@) =~= Seq::<Seq<char>>::empty());
        while i < watch_roots.len()
            invariant
                rs == views(watch_roots@),
                is_dir@.len() == watch_roots@.len(),
                i <= watch_roots@.len(),
                views(missing@) == absent(rs.take(i as int), is_dir@),
            decreases watch_roots@.len() - i,
        {
            let ghost so_far = views(missing@);
            proof {
                assert(rs.take(i + 1).drop_last() =~= rs.take(i as int));
                assert(rs.take(i + 1).last() == watch_roots@[i as int]@);
            }
            if !is_dir[i] {
                missing.push(watch_roots[i].clone());
                assert(views(missing@) =~= so_far.push(rs[i as int]));
            }
            i = i + 1;
        }
        assert(rs.take(i as int) =~= rs);

        let mut warnings: Vec<String> = Vec::new();
        let ghost none = views(warnings@);
        assert(none =~= Seq::<Seq<char>>::empty());
        let inert = facts.running && facts.last_acted.is_none();
        let refused: usize = find_count(&facts.outcomes, "refused");
        let failed: usize = find_count(&facts.outcomes, "failed");
        let unserved = match facts.service_installed {
            Some(false) => true,
            _ => false,
        };
        push_when(
            &mut warnings,
            !facts.running,
            "the daemon is not running — no moves are being reconciled. Start it with `sessionguard start`.",
        );
        assert(views(warnings@) =~= when(
            !facts.running,
            "the daemon is not running — no moves are being reconciled. Start it with `sessionguard start`."@,
        ));
        push_when(
            &mut warnings,
            unserved,
            "not installed as a login service, so the daemon stops at logout or reboot and moves after that go unnoticed. Run `sessionguard service install`.",
        );
        push_when(
            &mut warnings,
            watch_roots.len() == 0,
            "no watch roots are configured, so nothing is being watched. Add some with `sessionguard watch <path>` or in config.toml.",
        );
        push_missing(&mut warnings, &missing);
        push_when(
            &mut warnings,
            inert,
            "the daemon is running but has NEVER changed anything. If projects have moved since it started, it is not doing its job — check `sessionguard log --activity`.",
        );
        push_when(
            &mut warnings,
            refused > 0,
            &decimal_len(refused).concat(
                " operation(s) were REFUSED to protect your data and need your attention — see `sessionguard log --activity`",
            ),
        );
        push_when(
            &mut warnings,
            failed > 0,
            &decimal_len(failed).concat(
                " operation(s) FAILED — see `sessionguard log --activity`",
            ),
        );
        DaemonHealth {
            running: facts.running,
            pid: facts.pid,
            version: facts.version,
            missing_watch_roots: missing,
            watch_root_count: watch_roots.len(),
            tracked_projects: facts.tracked_projects,
            last_activity: facts.last_activity,
            last_acted: facts.last_acted,
            outcomes: facts.outcomes,
            service_installed: facts.service_installed,
            warnings,
        }
    }
}

/// A daemon that runs and achieves nothing is never reported as healthy.
pub proof fn lemma_inert_daemon_is_noted(
    service_installed: Option<bool>,
    watch_root_count: int,
    missing: Seq<Seq<char>>,
    refused: usize,
    failed: usize,
)
    ensures
        warnings_for(
            true,
            false,
            service_installed,
            watch_root_count,
            missing,
            refused,
            failed,
        ).contains(
            "the daemon is running but has NEVER changed anything. If projects have moved since it started, it is not doing its job — check `sessionguard log --activity`."@,
        ),
{
    let text =
        "the daemon is running but has NEVER changed anything. If projects have moved since it started, it is not doing its job — check `sessionguard log --activity`."@;
    let all = warnings_for(
        true,
        false,
        service_installed,
        watch_root_count,
        missing,
        refused,
        failed,
    );
    let n = (if service_installed == Some(false) {
        1int
    } else {
        0int
    }) + (if watch_root_count == 0 {
        1int
    } else {
        0int
    }) + missing.len();
    assert(all[n] == text);
}

} // verus!
