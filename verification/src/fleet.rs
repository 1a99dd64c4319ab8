//! Counting sessions on other machines.
//!
//! Each machine counts its own sessions; what it says is taken over as it is.
//! In particular whether a project's directory is gone is for the machine to
//! say that the sessions are on.
use vstd::prelude::*;

use crate::config::HostSpec;
use crate::sessions::census::{GroupView, SessionGroup, ToolEntry};
use crate::sessions::decode::DecodeConfidence;
use crate::text::{begins, opt_view, owned, split_words, starts_with, trim, trimmed, views, words};
use crate::update::{is_older, older, parse_version, version_of};

verus! {

/// The oldest release that can count sessions.
pub open spec fn min_remote_version() -> (u64, u64, u64) {
    (0, 7, 0)
}

/// Why a machine could not be asked.
#[derive(Debug, PartialEq, Eq)]
pub enum FleetError {
    Unreachable { host: String, detail: String },
    TooOld { host: String, found: String },
    BadOutput { host: String, detail: String },
    InvalidDestination { host: String, ssh: String },
}

/// The model of a [`FleetError`].
pub enum FleetErrorView {
    Unreachable { host: Seq<char>, detail: Seq<char> },
    TooOld { host: Seq<char>, found: Seq<char> },
    BadOutput { host: Seq<char>, detail: Seq<char> },
    InvalidDestination { host: Seq<char>, ssh: Seq<char> },
}

impl View for FleetError {
    type V = FleetErrorView;

    open spec fn view(&self) -> FleetErrorView {
        match self {
            FleetError::Unreachable { host, detail } => FleetErrorView::Unreachable {
                host: host@,
                detail: detail@,
            },
            FleetError::TooOld { host, found } => FleetErrorView::TooOld {
                host: host@,
                found: found@,
            },
            FleetError::BadOutput { host, detail } => FleetErrorView::BadOutput {
                host: host@,
                detail: detail@,
            },
            FleetError::InvalidDestination { host, ssh } => FleetErrorView::InvalidDestination {
                host: host@,
                ssh: ssh@,
            },
        }
    }
}

impl FleetErrorView {
    /// The text of the error.
    pub open spec fn text(self) -> Seq<char> {
        match self {
            FleetErrorView::Unreachable { host, detail } => "host `"@ + host + "`: unreachable ("@
                + detail + ")"@,
            FleetErrorView::TooOld { host, found } => "host `"@ + host + "`: sessionguard "@
                + found
                + " is too old for `sessions` (needs 0.7.0+); run `sessionguard update` there"@,
            FleetErrorView::BadOutput { host, detail } => "host `"@ + host
                + "`: could not parse remote output ("@ + detail + ")"@,
            FleetErrorView::InvalidDestination { host, ssh } => "host `"@ + host
                + "`: ssh destination `"@ + ssh
                + "` starts with `-`, which ssh would parse as an option rather than a hostname (refusing to avoid local command execution via argv injection)"@,
        }
    }
}

impl FleetError {
    /// The error as a sentence for people.
    pub fn message(&self) -> (r: String)
        ensures
            r@ == self@.text(),
    {
        match self {
            FleetError::Unreachable { host, detail } => owned("host `").concat(host).concat(
                "`: unreachable (",
            ).concat(detail).concat(")"),
            FleetError::TooOld { host, found } => owned("host `").concat(host).concat(
                "`: sessionguard ",
            ).concat(found).concat(
                " is too old for `sessions` (needs 0.7.0+); run `sessionguard update` there",
            ),
            FleetError::BadOutput { host, detail } => owned("host `").concat(host).concat(
                "`: could not parse remote output (",
            ).concat(detail).concat(")"),
            FleetError::InvalidDestination { host, ssh } => owned("host `").concat(host).concat(
                "`: ssh destination `",
            ).concat(ssh).concat(
                "` starts with `-`, which ssh would parse as an option rather than a hostname (refusing to avoid local command execution via argv injection)",
            ),
        }
    }
}

/// A text as `{:?}` writes it.
pub uninterp spec fn debug_text(s: Seq<char>) -> Seq<char>;

/// `Debug` of a `str`: the text in quotes, with what is special in it escaped.
#[verifier::external_body]
pub(crate) fn debug_of(s: &str) -> (r: String)
    ensures
        r@ == debug_text(s@),
{
    format!("{s:?}")
}

/// The first word that is a version.
pub open spec fn first_version(w: Seq<Seq<char>>) -> Option<Seq<char>>
    decreases w.len(),
{
    if w.len() == 0 {
        None
    } else if version_of(w[0]) is Some {
        Some(w[0])
    } else {
        first_version(w.skip(1))
    }
}

/// What a machine's version means: whether it can be asked.
pub open spec fn version_verdict(host: Seq<char>, output: Seq<char>) -> Result<(), FleetErrorView> {
    match first_version(words(output)) {
        Some(raw) => if older(version_of(raw)->0, min_remote_version()) {
            Err(FleetErrorView::TooOld { host, found: raw })
        } else {
            Ok(())
        },
        None => Err(
            FleetErrorView::BadOutput { host, detail: "no version in "@ + debug_text(output) },
        ),
    }
}

/// Whether a machine can be asked, by what it prints for its version.
pub fn check_remote_version(host: &str, version_output: &str) -> (r: Result<(), FleetError>)
    ensures
        match (version_verdict(host@, version_output@), r) {
            (Ok(()), Ok(())) => true,
            (Err(e), Err(f)) => f@ == e,
            _ => false,
        },
{
    let all = split_words(version_output);
    let ghost w = views(all@);
    let mut i: usize = 0;
    assert(w.skip(0) =~= w);
    while i < all.len()
        invariant
            w == views(all@),
            w == words(version_output@),
            i <= all@.len(),
            first_version(w) == first_version(w.skip(i as int)),
        decreases all@.len() - i,
    {
        assert(w.skip(i as int)[0] == all@[i as int]@);
        assert(w.skip(i as int).skip(1) =~= w.skip(i + 1));
        if let Some(v) = parse_version(&all[i]) {
            if is_older(v, (0, 7, 0)) {
                return Err(FleetError::TooOld { host: owned(host), found: all[i].clone() });
            }
            return Ok(());
        }
        i = i + 1;
    }
    Err(
        FleetError::BadOutput {
            host: owned(host),
            detail: owned("no version in ").concat(&debug_of(version_output)),
        },
    )
}

/// Note where the sessions are. Nothing else about them changes: in particular
/// the verdict on their projects is the other machine's.
pub fn adopt_host(groups: &mut Vec<SessionGroup>, host: &str)
    ensures
        final(groups)@.len() == old(groups)@.len(),
        forall|i: int|
            0 <= i < final(groups)@.len() ==> (#[trigger] views(final(groups)@)[i]) == (GroupView {
                host: host@,
                ..views(old(groups)@)[i]
            }),
{
    let ghost start = views(groups@);
    let mut i: usize = 0;
    while i < groups.len()
        invariant
            start.len() == groups@.len(),
            i <= groups@.len(),
            forall|j: int|
                0 <= j < i ==> (#[trigger] views(groups@)[j]) == (GroupView {
                    host: host@,
                    ..start[j]
                }),
            forall|j: int| i <= j < groups@.len() ==> (#[trigger] views(groups@)[j]) == start[j],
        decreases groups@.len() - i,
    {
        let ghost now = views(groups@);
        let mut g = groups.remove(i);
        assert(g@ == now[i as int]);
        assert(g@ == start[i as int]);
        g.host = owned(host);
        groups.insert(i, g);
        assert(views(groups@) =~= now.update(i as int, g@));
        i = i + 1;
    }
}

/// A group of sessions as another machine, maybe of an older release, sends it.
#[derive(Debug)]
pub struct RemoteGroup {
    pub project_path: String,
    pub decoded: bool,
    pub confidence: Option<DecodeConfidence>,
    pub orphaned: bool,
    pub host: Option<String>,
    pub tools: Vec<ToolEntry>,
}

/// The group that was sent. An older release says no more than whether it knows
/// the path: where it does not, the path is not resolved.
pub open spec fn upgraded(g: RemoteGroup) -> GroupView {
    GroupView {
        project_path: g.project_path@,
        decoded: g.decoded,
        confidence: match g.confidence {
            Some(c) => c,
            None => if g.decoded {
                DecodeConfidence::Exact
            } else {
                DecodeConfidence::Unresolved
            },
        },
        orphaned: g.orphaned,
        host: match opt_view(g.host) {
            Some(h) => h,
            None => "unknown"@,
        },
        tools: views(g.tools@),
    }
}

/// The group that was sent, with what an older release leaves out.
pub fn upgrade_group(g: RemoteGroup) -> (r: SessionGroup)
    ensures
        r@ == upgraded(g),
{
    let confidence = match g.confidence {
        Some(c) => c,
        None => if g.decoded {
            DecodeConfidence::Exact
        } else {
            DecodeConfidence::Unresolved
        },
    };
    let host = match g.host {
        Some(h) => h,
        None => owned("unknown"),
    };
    SessionGroup {
        project_path: g.project_path,
        decoded: g.decoded,
        confidence,
        orphaned: g.orphaned,
        host,
        tools: g.tools,
    }
}

/// A destination that `ssh` would take for an option is refused.
pub fn check_destination(host: &HostSpec) -> (r: Result<(), FleetError>)
    ensures
        match r {
            Ok(()) => !begins(host.ssh@, "-"@),
            Err(e) => begins(host.ssh@, "-"@) && e@ == (FleetErrorView::InvalidDestination {
                host: host.name@,
                ssh: host.ssh@,
            }),
        },
{
    if starts_with(&host.ssh, "-") {
        return Err(
            FleetError::InvalidDestination { host: host.name.clone(), ssh: host.ssh.clone() },
        );
    }
    Ok(())
}

/// What a command on another machine came to.
#[derive(Debug, PartialEq, Eq)]
pub enum SshReply {
    /// What it printed.
    Output(String),
    /// It left with an error, and these words.
    Exited(String),
    /// It could not be run.
    NotRun(String),
}

/// How to go on with asking a machine.
#[derive(Debug)]
pub enum CensusStep {
    /// Run `ssh` with these arguments.
    Run(Vec<String>),
    /// This is what it sent.
    Read(String),
    Failed(FleetError),
}

/// The model of a [`CensusStep`].
pub enum CensusStepView {
    Run(Seq<Seq<char>>),
    Read(Seq<char>),
    Failed(FleetErrorView),
}

impl View for CensusStep {
    type V = CensusStepView;

    open spec fn view(&self) -> CensusStepView {
        match self {
            CensusStep::Run(args) => CensusStepView::Run(views(args@)),
            CensusStep::Read(json) => CensusStepView::Read(json@),
            CensusStep::Failed(e) => CensusStepView::Failed(e@),
        }
    }
}

/// The program to run on a machine.
pub open spec fn remote_binary(host: HostSpec) -> Seq<char> {
    match opt_view(host.binary) {
        Some(b) => b,
        None => "sessionguard"@,
    }
}

/// What a command printed, or why it failed.
pub open spec fn ssh_output(host: Seq<char>, reply: SshReply) -> Result<Seq<char>, FleetErrorView> {
    match reply {
        SshReply::Output(o) => Ok(o@),
        SshReply::Exited(words) => Err(
            FleetErrorView::Unreachable { host, detail: trimmed(words@) },
        ),
        SshReply::NotRun(words) => Err(FleetErrorView::Unreachable { host, detail: words@ }),
    }
}

/// What `ssh` is told: never to ask for anything, to give up after ten seconds,
/// where to go, and what to run there.
pub open spec fn ssh_line(host: HostSpec, remote: Seq<Seq<char>>) -> Seq<Seq<char>> {
    seq!["-o"@, "BatchMode=yes"@, "-o"@, "ConnectTimeout=10"@, host.ssh@] + remote
}

fn ssh_args(host: &HostSpec) -> (r: Vec<String>)
    ensures
        views(r@) == ssh_line(*host, Seq::empty()),
{
    let mut args: Vec<String> = Vec::new();
    args.push(owned("-o"));
    args.push(owned("BatchMode=yes"));
    args.push(owned("-o"));
    args.push(owned("ConnectTimeout=10"));
    args.push(host.ssh.clone());
    assert(views(args@) =~= ssh_line(*host, Seq::empty()));
    args
}

/// How to go on with asking a machine after these replies: first for its
/// version, then for its sessions, and for nothing else.
pub open spec fn census_step(host: HostSpec, seen: Seq<SshReply>) -> CensusStepView {
    if begins(host.ssh@, "-"@) {
        CensusStepView::Failed(
            FleetErrorView::InvalidDestination { host: host.name@, ssh: host.ssh@ },
        )
    } else if seen.len() == 0 {
        CensusStepView::Run(ssh_line(host, seq![remote_binary(host), "--version"@]))
    } else {
        match ssh_output(host.name@, seen[0]) {
            Err(e) => CensusStepView::Failed(e),
            Ok(version) => match version_verdict(host.name@, version) {
                Err(e) => CensusStepView::Failed(e),
                Ok(()) => if seen.len() == 1 {
                    CensusStepView::Run(
                        ssh_line(
                            host,
                            seq![remote_binary(host), "sessions"@, "--format"@, "json"@],
                        ),
                    )
                } else {
                    match ssh_output(host.name@, seen[1]) {
                        Err(e) => CensusStepView::Failed(e),
                        Ok(json) => CensusStepView::Read(json),
                    }
                },
            },
        }
    }
}

fn read_reply(host: &str, reply: &SshReply) -> (r: Result<String, FleetError>)
    ensures
        match (ssh_output(host@, *reply), r) {
            (Ok(o), Ok(s)) => s@ == o,
            (Err(e), Err(f)) => f@ == e,
            _ => false,
        },
{
    match reply {
        SshReply::Output(o) => Ok(o.clone()),
        SshReply::Exited(words) => Err(
            FleetError::Unreachable { host: owned(host), detail: trim(words) },
        ),
        SshReply::NotRun(words) => Err(
            FleetError::Unreachable { host: owned(host), detail: words.clone() },
        ),
    }
}

/// How to go on with asking a machine, after the replies so far. Nothing is
/// run for a destination that is refused.
pub fn remote_census(host: &HostSpec, seen: &Vec<SshReply>) -> (r: CensusStep)
    ensures
        r@ == census_step(*host, seen@),
{
    if let Err(e) = check_destination(host) {
        return CensusStep::Failed(e);
    }
    if seen.len() == 0 {
        let mut args = ssh_args(host);
        args.push(owned(host.binary()));
        args.push(owned("--version"));
        assert(views(args@) =~= ssh_line(*host, seq![remote_binary(*host), "--version"@]));
        return CensusStep::Run(args);
    }
    let version = match read_reply(&host.name, &seen[0]) {
        Ok(v) => v,
        Err(e) => {
            return CensusStep::Failed(e);
        },
    };
    if let Err(e) = check_remote_version(&host.name, &version) {
        return CensusStep::Failed(e);
    }
    if seen.len() == 1 {
        let mut args = ssh_args(host);
        args.push(owned(host.binary()));
        args.push(owned("sessions"));
        args.push(owned("--format"));
        args.push(owned("json"));
        assert(views(args@) =~= ssh_line(
            *host,
            seq![remote_binary(*host), "sessions"@, "--format"@, "json"@],
        ));
        return CensusStep::Run(args);
    }
    match read_reply(&host.name, &seen[1]) {
        Ok(json) => CensusStep::Read(json),
        Err(e) => CensusStep::Failed(e),
    }
}

/// Asking a machine only reads: nothing is run there but the request for its
/// version and that for its sessions, and `ssh` neither asks for anything nor
/// waits longer than ten seconds for the machine.
pub proof fn lemma_asking_only_reads(host: HostSpec, seen: Seq<SshReply>)
    ensures
        census_step(host, seen) matches CensusStepView::Run(args) ==> {
            &&& args.take(5) == seq![
                "-o"@,
                "BatchMode=yes"@,
                "-o"@,
                "ConnectTimeout=10"@,
                host.ssh@,
            ]
            &&& args.skip(5) == seq![remote_binary(host), "--version"@] || args.skip(5) == seq![
                remote_binary(host),
                "sessions"@,
                "--format"@,
                "json"@,
            ]
        },
{
    if let CensusStepView::Run(args) = census_step(host, seen) {
        let head = seq!["-o"@, "BatchMode=yes"@, "-o"@, "ConnectTimeout=10"@, host.ssh@];
        assert(args.take(5) =~= head);
        assert(args.skip(5) =~= seq![remote_binary(host), "--version"@] || args.skip(5) =~= seq![
            remote_binary(host),
            "sessions"@,
            "--format"@,
            "json"@,
        ]);
    }
}

/// A destination that would be taken for an option runs nothing at all.
pub proof fn lemma_refused_destination_runs_nothing(host: HostSpec, seen: Seq<SshReply>)
    requires
        begins(host.ssh@, "-"@),
    ensures
        !(census_step(host, seen) is Run),
{
}

} // verus!
