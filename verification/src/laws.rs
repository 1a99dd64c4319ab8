//! What holds of the smaller parts: the registry, the configuration, the health
//! of the daemon, the other machines, the inventory, the login service, and
//! sizes and ages as texts.
use vstd::prelude::*;

use crate::cli::{ago_text, half_even, nearest, size_text, spacing, tenths};
use crate::config::{chosen_dir, kept, usual_roots, HostSpec};
use crate::daemon::{is_daemon, pid_of};
use crate::detector::literal_place;
use crate::fleet::{
    census_step, first_version, remote_binary, ssh_line, upgraded, version_verdict,
    CensusStepView, FleetErrorView, RemoteGroup, SshReply,
};
use crate::health::{
    absent, count_for, first_of, launcher, missing_warnings, places as search_places, warnings_for,
    BinaryView,
};
use crate::inventory::{
    entries_of, entry_of, expanded, since_epoch, DataTally, DataView, DataWalkView, InventoryView,
};
use crate::order::before;
use crate::paths::parts::lemma_joined_name;
use crate::paths::{comps, joined, last_name};
use crate::picks::{
    lemma_picked_more, lemma_picked_none, lemma_same_choice, picked,
};
use crate::registry::{stale_of, ProjectView};
use crate::rekey::all::{decisions_of, reports_of, Handled};
use crate::service::{daemon_args, stable_path, Manager};
use crate::text::{
    dec, digit, has, index_from, is_digit, is_numeral, is_space, lower, numeral, occurrences, occurs_at,
    replaced, space_from, split, trim_end, trim_start, trimmed, words, words_from,
};
use crate::sessions::read::key_fields;
use crate::tools::{builtin_views, has_extension, ToolView};
use crate::update::{digest_in, method_of, older, swap_ops, version_of, MethodView, SwapOpView};

verus! {

/// A registered project is stale exactly if nothing is at its path any more.
pub proof fn lemma_stale_projects_are_gone(projects: Seq<ProjectView>, exists: Seq<bool>)
    ensures
        picked(projects, stale_of(projects, exists), |i: int| !exists[i]),
    decreases projects.len(),
{
    let keep = |i: int| !exists[i];
    if projects.len() == 0 {
        lemma_picked_none(projects, stale_of(projects, exists), keep);
    } else {
        lemma_stale_projects_are_gone(projects.drop_last(), exists);
        lemma_picked_more(projects, stale_of(projects.drop_last(), exists), keep);
    }
}

/// Of the usual directories those are watched that are there.
pub proof fn lemma_existing_roots_are_watched(roots: Seq<Seq<char>>, is_dir: Seq<bool>)
    requires
        roots.len() == is_dir.len(),
    ensures
        picked(roots, kept(roots, is_dir), |i: int| is_dir[i]),
    decreases roots.len(),
{
    let keep = |i: int| is_dir[i];
    if roots.len() == 0 {
        lemma_picked_none(roots, kept(roots, is_dir), keep);
    } else {
        let d = is_dir.drop_last();
        let before = |i: int| d[i];
        lemma_existing_roots_are_watched(roots.drop_last(), d);
        lemma_same_choice(roots.drop_last(), kept(roots.drop_last(), d), before, keep);
        lemma_picked_more(roots, kept(roots.drop_last(), d), keep);
    }
}

/// A directory that was asked for is taken before the one that the platform
/// names, and that before one of the user's own below the temporary directory.
pub proof fn lemma_override_is_taken_first(
    asked: String,
    platform: Option<String>,
    temp: Seq<char>,
    uid: u32,
)
    ensures
        chosen_dir(Some(asked), platform, temp, uid) == asked@,
        platform matches Some(p) ==> chosen_dir(None, platform, temp, uid) == p@,
        chosen_dir(None, None, temp, uid) == joined(temp, "sessionguard-"@ + dec(uid as nat)),
{
}

/// The directories that are reported as missing are those that are to be
/// watched and are not there.
pub proof fn lemma_missing_roots_are_told(roots: Seq<Seq<char>>, is_dir: Seq<bool>)
    ensures
        picked(roots, absent(roots, is_dir), |i: int| !is_dir[i]),
    decreases roots.len(),
{
    let keep = |i: int| !is_dir[i];
    if roots.len() == 0 {
        lemma_picked_none(roots, absent(roots, is_dir), keep);
    } else {
        lemma_missing_roots_are_told(roots.drop_last(), is_dir);
        lemma_picked_more(roots, absent(roots.drop_last(), is_dir), keep);
    }
}

/// There is nothing to warn of exactly if the daemon runs, has changed
/// something, is installed where it can be, watches something, misses none of
/// it, and nothing was refused or has failed. Every missing directory is warned
/// of by its name.
pub proof fn lemma_no_warning_means_well(
    running: bool,
    acted: bool,
    installed: Option<bool>,
    roots: int,
    missing: Seq<Seq<char>>,
    refused: usize,
    failed: usize,
)
    ensures
        warnings_for(running, acted, installed, roots, missing, refused, failed).len() == 0 <==> {
            &&& running
            &&& acted
            &&& installed != Some(false)
            &&& roots != 0
            &&& missing.len() == 0
            &&& refused == 0
            &&& failed == 0
        },
        forall|i: int|
            0 <= i < missing.len() ==> warnings_for(
                running,
                acted,
                installed,
                roots,
                missing,
                refused,
                failed,
            ).contains(
                "watch root "@ + #[trigger] missing[i]
                    + " does not exist — it was moved or deleted, so nothing under it is being watched"@,
            ),
        !running ==> warnings_for(
            running,
            acted,
            installed,
            roots,
            missing,
            refused,
            failed,
        ).contains(
            "the daemon is not running — no moves are being reconciled. Start it with `sessionguard start`."@,
        ),
        failed > 0 ==> warnings_for(
            running,
            acted,
            installed,
            roots,
            missing,
            refused,
            failed,
        ).contains(
            dec(failed as nat) + " operation(s) FAILED — see `sessionguard log --activity`"@,
        ),
        refused > 0 ==> warnings_for(
            running,
            acted,
            installed,
            roots,
            missing,
            refused,
            failed,
        ).contains(
            dec(refused as nat)
                + " operation(s) were REFUSED to protect your data and need your attention — see `sessionguard log --activity`"@,
        ),
{
    let all = warnings_for(running, acted, installed, roots, missing, refused, failed);
    let a: int = (if !running {
        1int
    } else {
        0int
    }) + (if installed == Some(false) {
        1int
    } else {
        0int
    }) + (if roots == 0 {
        1int
    } else {
        0int
    });
    let b: int = a + missing.len() + (if running && !acted {
        1int
    } else {
        0int
    });
    let c: int = b + (if refused > 0 {
        1int
    } else {
        0int
    });
    assert(all.len() == c + (if failed > 0 {
        1int
    } else {
        0int
    }));
    assert forall|i: int| 0 <= i < missing.len() implies all.contains(
        "watch root "@ + #[trigger] missing[i]
            + " does not exist — it was moved or deleted, so nothing under it is being watched"@,
    ) by {
        assert(all[a + i] == missing_warnings(missing)[i]);
    }
    if !running {
        assert(all[0]
            == "the daemon is not running — no moves are being reconciled. Start it with `sessionguard start`."@);
    }
    if refused > 0 {
        assert(all[b] == dec(refused as nat)
            + " operation(s) were REFUSED to protect your data and need your attention — see `sessionguard log --activity`"@);
    }
    if failed > 0 {
        assert(all[c] == dec(failed as nat)
            + " operation(s) FAILED — see `sessionguard log --activity`"@);
    }
}

/// An outcome was recorded as often as the entry for it says.
pub proof fn lemma_outcome_counts(outcomes: Seq<(Seq<char>, usize)>, outcome: Seq<char>)
    ensures
        (forall|i: int| 0 <= i < outcomes.len() ==> (#[trigger] outcomes[i]).0 != outcome)
            ==> count_for(outcomes, outcome) == 0,
        (exists|i: int| 0 <= i < outcomes.len() && (#[trigger] outcomes[i]).0 == outcome)
            ==> exists|i: int|
            {
                &&& 0 <= i < outcomes.len()
                &&& (#[trigger] outcomes[i]).0 == outcome
                &&& outcomes[i].1 == count_for(outcomes, outcome)
                &&& forall|j: int| 0 <= j < i ==> (#[trigger] outcomes[j]).0 != outcome
            },
    decreases outcomes.len(),
{
    if outcomes.len() > 0 && outcomes[0].0 != outcome {
        let rest = outcomes.skip(1);
        lemma_outcome_counts(rest, outcome);
        assert(forall|i: int| 0 <= i < rest.len() ==> #[trigger] rest[i] == outcomes[i + 1]);
        if exists|i: int| 0 <= i < outcomes.len() && (#[trigger] outcomes[i]).0 == outcome {
            let i = choose|i: int| 0 <= i < outcomes.len() && (#[trigger] outcomes[i]).0 == outcome;
            assert(rest[i - 1] == outcomes[i]);
            let k = choose|k: int|
                {
                    &&& 0 <= k < rest.len()
                    &&& (#[trigger] rest[k]).0 == outcome
                    &&& rest[k].1 == count_for(rest, outcome)
                    &&& forall|j: int| 0 <= j < k ==> (#[trigger] rest[j]).0 != outcome
                };
            assert(outcomes[k + 1].0 == outcome);
            assert forall|j: int| 0 <= j < k + 1 implies (#[trigger] outcomes[j]).0 != outcome by {
                if j > 0 {
                    assert(rest[j - 1] == outcomes[j]);
                }
            }
        }
    } else if outcomes.len() > 0 {
        assert(outcomes[0].0 == outcome);
    }
}

proof fn lemma_first_of(places: Seq<Seq<char>>, there: Seq<Seq<char>>)
    ensures
        match first_of(places, there) {
            Some(p) => exists|k: int|
                0 <= k < places.len() && #[trigger] places[k] == p && there.contains(p) && forall|
                    j: int,
                |
                    0 <= j < k ==> !there.contains(#[trigger] places[j]),
            None => forall|j: int| 0 <= j < places.len() ==> !there.contains(#[trigger] places[j]),
        },
    decreases places.len(),
{
    if places.len() > 0 {
        if !there.contains(places[0]) {
            let rest = places.skip(1);
            lemma_first_of(rest, there);
            assert(forall|j: int| 0 <= j < rest.len() ==> #[trigger] rest[j] == places[j + 1]);
            match first_of(places, there) {
                Some(p) => {
                    let k = choose|k: int|
                        0 <= k < rest.len() && #[trigger] rest[k] == p && there.contains(p)
                            && forall|j: int| 0 <= j < k ==> !there.contains(#[trigger] rest[j]);
                    assert(places[k + 1] == p);
                    assert forall|j: int| 0 <= j < k + 1 implies !there.contains(
                        #[trigger] places[j],
                    ) by {
                        if j > 0 {
                            assert(rest[j - 1] == places[j]);
                        }
                    }
                },
                None => {
                    assert forall|j: int| 0 <= j < places.len() implies !there.contains(
                        #[trigger] places[j],
                    ) by {
                        if j > 0 {
                            assert(rest[j - 1] == places[j]);
                        }
                    }
                },
            }
        } else {
            assert(there.contains(places[0]));
        }
    }
}

/// A launcher is found in the first directory of the search path that has it; a
/// name with a separator is a path and is looked for nowhere else. One that is
/// named and not found is missing.
pub proof fn lemma_launcher_is_found_on_the_path(
    name: Seq<char>,
    search: Seq<char>,
    runnable: Seq<Seq<char>>,
)
    requires
        has(name, "/"@) == false,
    ensures
        launcher(None, Some(search), runnable) == BinaryView::NotConfigured,
        match launcher(Some(name), Some(search), runnable) {
            BinaryView::Present { path } => exists|k: int|
                {
                    &&& 0 <= k < split(search, ':').len()
                    &&& path == joined(#[trigger] split(search, ':')[k], name)
                    &&& runnable.contains(path)
                    &&& forall|j: int|
                        0 <= j < k ==> !runnable.contains(
                            joined(#[trigger] split(search, ':')[j], name),
                        )
                },
            BinaryView::Missing { binary } => binary == name && forall|j: int|
                0 <= j < split(search, ':').len() ==> !runnable.contains(
                    joined(#[trigger] split(search, ':')[j], name),
                ),
            BinaryView::NotConfigured => false,
        },
{
    let dirs = split(search, ':');
    let ps = search_places(name, Some(search));
    lemma_first_of(ps, runnable);
    match launcher(Some(name), Some(search), runnable) {
        BinaryView::Present { path } => {
            let k = choose|k: int|
                0 <= k < ps.len() && #[trigger] ps[k] == path && runnable.contains(path) && forall|
                    j: int,
                |
                    0 <= j < k ==> !runnable.contains(#[trigger] ps[j]);
            assert(path == joined(dirs[k], name));
            assert forall|j: int| 0 <= j < k implies !runnable.contains(
                joined(#[trigger] dirs[j], name),
            ) by {
                assert(ps[j] == joined(dirs[j], name));
            }
        },
        _ => {
            assert forall|j: int| 0 <= j < dirs.len() implies !runnable.contains(
                joined(#[trigger] dirs[j], name),
            ) by {
                assert(ps[j] == joined(dirs[j], name));
            }
        },
    }
}

proof fn lemma_first_version(w: Seq<Seq<char>>)
    ensures
        match first_version(w) {
            Some(v) => exists|k: int|
                0 <= k < w.len() && #[trigger] w[k] == v && version_of(v) is Some && forall|j: int|
                    0 <= j < k ==> version_of(#[trigger] w[j]) is None,
            None => forall|j: int| 0 <= j < w.len() ==> version_of(#[trigger] w[j]) is None,
        },
    decreases w.len(),
{
    if w.len() > 0 {
        if version_of(w[0]) is None {
            let rest = w.skip(1);
            lemma_first_version(rest);
            assert(forall|j: int| 0 <= j < rest.len() ==> #[trigger] rest[j] == w[j + 1]);
            match first_version(w) {
                Some(v) => {
                    let k = choose|k: int|
                        0 <= k < rest.len() && #[trigger] rest[k] == v && version_of(v) is Some
                            && forall|j: int| 0 <= j < k ==> version_of(#[trigger] rest[j]) is None;
                    assert(w[k + 1] == v);
                    assert forall|j: int| 0 <= j < k + 1 implies version_of(
                        #[trigger] w[j],
                    ) is None by {
                        if j > 0 {
                            assert(rest[j - 1] == w[j]);
                        }
                    }
                },
                None => {
                    assert forall|j: int| 0 <= j < w.len() implies version_of(
                        #[trigger] w[j],
                    ) is None by {
                        if j > 0 {
                            assert(rest[j - 1] == w[j]);
                        }
                    }
                },
            }
        } else {
            assert(version_of(w[0]) is Some);
        }
    }
}

/// A machine can be asked exactly if the first version among the words that it
/// prints is 0.7.0 or a later one.
pub proof fn lemma_old_machines_are_refused(host: Seq<char>, output: Seq<char>)
    ensures
        match version_verdict(host, output) {
            Ok(()) => exists|k: int|
                {
                    &&& 0 <= k < words(output).len()
                    &&& version_of(#[trigger] words(output)[k]) matches Some(v) && (v.0 > 0 || v.1
                        >= 7)
                    &&& forall|j: int|
                        0 <= j < k ==> version_of(#[trigger] words(output)[j]) is None
                },
            Err(FleetErrorView::TooOld { host: h, found }) => h == host && exists|k: int|
                {
                    &&& 0 <= k < words(output).len()
                    &&& #[trigger] words(output)[k] == found
                    &&& version_of(found) matches Some(v) && v.0 == 0 && v.1 < 7
                },
            Err(FleetErrorView::BadOutput { host: h, .. }) => h == host && forall|j: int|
                0 <= j < words(output).len() ==> version_of(#[trigger] words(output)[j]) is None,
            Err(_) => false,
        },
{
    lemma_first_version(words(output));
}

/// A machine is first asked for its version, and for its sessions only when
/// that will do; what it sends then is what is read.
pub proof fn lemma_version_is_asked_for_first(host: HostSpec, seen: Seq<SshReply>)
    ensures
        census_step(host, seen) matches CensusStepView::Run(args) ==> args == ssh_line(
            host,
            if seen.len() == 0 {
                seq![remote_binary(host), "--version"@]
            } else {
                seq![remote_binary(host), "sessions"@, "--format"@, "json"@]
            },
        ) && (seen.len() == 0 || (seen.len() == 1 && (seen[0] matches SshReply::Output(o)
            && version_verdict(host.name@, o@) is Ok))),
        census_step(host, seen) matches CensusStepView::Read(json) ==> seen.len() >= 2 && (
        seen[0] matches SshReply::Output(o) && version_verdict(host.name@, o@) is Ok) && (
        seen[1] matches SshReply::Output(o) && o@ == json),
        host.binary is None ==> remote_binary(host) == "sessionguard"@,
        host.binary matches Some(b) ==> remote_binary(host) == b@,
{
}

/// What another machine sends of a project is taken as it is. Where an older
/// release does not say how well the path is known, it is known exactly if it
/// was decoded, and else not resolved.
pub proof fn lemma_other_machines_are_believed(g: RemoteGroup)
    ensures
        upgraded(g).project_path == g.project_path@,
        upgraded(g).orphaned == g.orphaned,
        upgraded(g).decoded == g.decoded,
        g.confidence matches Some(c) ==> upgraded(g).confidence == c,
        g.confidence is None && g.decoded ==> upgraded(g).confidence is Exact,
        g.confidence is None && !g.decoded ==> upgraded(g).confidence is Unresolved,
        g.host matches Some(h) ==> upgraded(g).host == h@,
        upgraded(g).tools.len() == g.tools@.len(),
        forall|i: int|
            0 <= i < g.tools@.len() ==> #[trigger] upgraded(g).tools[i].tool == g.tools@[i].tool@
                && upgraded(g).tools[i].sessions == g.tools@[i].sessions,
{
}

/// A `~` at the start of a path stands for the home directory, alone or before
/// a separator; any other path stays as it is.
pub proof fn lemma_tilde_is_home(home: Seq<char>, rest: Seq<char>, raw: Seq<char>)
    ensures
        expanded(Some(home), "~"@) == home,
        expanded(Some(home), "~/"@ + rest) == joined(home, rest),
        raw.len() == 0 || raw[0] != '~' ==> expanded(Some(home), raw) == raw,
        expanded(None, raw) == raw,
{
    reveal_strlit("~");
    reveal_strlit("~/");
    let p = "~/"@ + rest;
    assert(p.subrange(0, 2) =~= "~/"@);
    assert(p.skip(2) =~= rest);
    if crate::text::begins(raw, "~/"@) {
        assert(raw.subrange(0, 2)[0] == '~');
    }
    if crate::text::begins("~"@, "~/"@) {
        assert("~"@.len() >= 2);
    }
}

/// The files of a directory of data.
pub open spec fn data_files(children: Seq<DataView>) -> Seq<DataView> {
    children.filter(|c: DataView| c is File)
}

/// A directory of data that is small enough is counted whole: every file is one,
/// with its size, as far as the sum fits, and the latest time of any of them;
/// the directories in it come on top of those that are still to be listed.
pub proof fn lemma_data_is_counted_whole(w: DataWalkView, children: Seq<DataView>)
    requires
        !w.truncated,
        w.count + children.len() < 200_000,
    ensures
        ({
            let v = w.after_all(children);
            &&& !v.truncated
            &&& v.count == w.count + data_files(children).len()
            &&& v.stack == w.stack + children.filter(|c: DataView| c is Dir).map(
                |i: int, c: DataView| c->Dir_path,
            )
            &&& forall|i: int|
                0 <= i < children.len() ==> ((#[trigger] children[i]) matches DataView::File {
                    mtime: Some(t),
                    ..
                } ==> v.latest matches Some(l) && t <= l)
            &&& w.latest matches Some(t) ==> v.latest matches Some(l) && t <= l
            &&& v.latest matches Some(l) ==> w.latest == Some(l) || exists|i: int|
                0 <= i < children.len() && ((#[trigger] children[i]) matches DataView::File {
                    mtime,
                    ..
                } && mtime == Some(l))
            &&& w.size + sizes(children) <= u64::MAX ==> v.size == w.size + sizes(children)
            &&& w.size + sizes(children) > u64::MAX ==> v.size == u64::MAX
        }),
    decreases children.len(),
{
    reveal(Seq::filter);
    let is_dir = |c: DataView| c is Dir;
    let path = |i: int, c: DataView| c->Dir_path;
    let v = w.after_all(children);
    if children.len() > 0 {
        let d = children.drop_last();
        let n = children.len() - 1;
        let c = children[n];
        lemma_data_is_counted_whole(w, d);
        let before = w.after_all(d);
        assert(forall|i: int| 0 <= i < n ==> #[trigger] d[i] == children[i]);
        assert(before.count <= w.count + d.len()) by {
            lemma_files_are_some(d);
        }
        let dirs = d.filter(is_dir);
        if c is Dir {
            assert(children.filter(is_dir) == dirs.push(c));
            assert(w.stack + dirs.push(c).map(path) =~= (w.stack + dirs.map(path)).push(
                c->Dir_path,
            ));
        }
        assert forall|i: int| 0 <= i < children.len() implies ((
        #[trigger] children[i]) matches DataView::File { mtime: Some(t), .. }
            ==> v.latest matches Some(l) && t <= l) by {
            if i < n {
                assert(d[i] == children[i]);
            }
        }
        if let Some(l) = v.latest {
            if v.latest == before.latest {
                if w.latest != Some(l) {
                    let i = choose|i: int|
                        0 <= i < d.len() && ((#[trigger] d[i]) matches DataView::File {
                            mtime,
                            ..
                        } && mtime == Some(l));
                    assert(children[i] == d[i]);
                }
            } else {
                assert(children[n] is File);
            }
        }
    } else {
        assert(w.stack + children.filter(is_dir).map(path) =~= w.stack);
    }
}

proof fn lemma_files_are_some(children: Seq<DataView>)
    ensures
        data_files(children).len() <= children.len(),
    decreases children.len(),
{
    reveal(Seq::filter);
    if children.len() > 0 {
        lemma_files_are_some(children.drop_last());
    }
}

/// The sizes of the files together.
pub open spec fn sizes(children: Seq<DataView>) -> nat
    decreases children.len(),
{
    if children.len() == 0 {
        0
    } else {
        sizes(children.drop_last()) + match children.last() {
            DataView::File { len, .. } => len as nat,
            _ => 0,
        }
    }
}

/// What the inventory would say of each tool that keeps data.
pub open spec fn each_entry(
    tools: Seq<ToolView>,
    home: Option<Seq<char>>,
    tallies: Seq<Option<DataTally>>,
) -> Seq<InventoryView> {
    Seq::new(
        tools.len(),
        |i: int|
            entry_of(tools[i], expanded(home, tools[i].home_dir_layout->0.default_path), tallies[i]),
    )
}

/// The inventory has one entry for each tool that keeps data under the home
/// directory, in the order of the tools: its own name, place and tally.
pub proof fn lemma_inventory_lists_every_tool_with_data(
    tools: Seq<ToolView>,
    home: Option<Seq<char>>,
    tallies: Seq<Option<DataTally>>,
)
    requires
        tallies.len() >= tools.len(),
    ensures
        picked(
            each_entry(tools, home, tallies),
            entries_of(tools, home, tallies),
            |i: int| tools[i].home_dir_layout is Some,
        ),
        forall|i: int|
            0 <= i < tools.len() ==> {
                let e = #[trigger] each_entry(tools, home, tallies)[i];
                &&& e.tool_name == tools[i].name
                &&& e.display_name == tools[i].display_name
                &&& e.path == expanded(home, tools[i].home_dir_layout->0.default_path)
                &&& e.exists <==> tallies[i] is Some
                &&& tallies[i] matches Some(t) ==> e.size_bytes == t.size_bytes && e.file_count
                    == t.file_count && e.last_modified == t.last_modified && e.truncated
                    == t.truncated
                &&& tallies[i] is None ==> e.size_bytes == 0 && e.file_count == 0
            },
    decreases tools.len(),
{
    let keep = |i: int| tools[i].home_dir_layout is Some;
    let all = each_entry(tools, home, tallies);
    if tools.len() == 0 {
        lemma_picked_none(all, entries_of(tools, home, tallies), keep);
    } else {
        let d = tools.drop_last();
        let kept_before = |i: int| d[i].home_dir_layout is Some;
        lemma_inventory_lists_every_tool_with_data(d, home, tallies);
        assert(all.drop_last() =~= each_entry(d, home, tallies));
        let rest = entries_of(d, home, tallies);
        lemma_same_choice(all.drop_last(), rest, kept_before, keep);
        lemma_picked_more(all, rest, keep);
    }
}

/// The service runs the first entry of the search path that leads to the
/// program, and the program itself where none does.
pub proof fn lemma_service_runs_a_stable_path(
    exe: Seq<char>,
    places: Seq<Seq<char>>,
    resolved: Seq<Option<String>>,
)
    requires
        resolved.len() == places.len(),
    ensures
        (exists|k: int|
            {
                &&& 0 <= k < places.len()
                &&& stable_path(exe, places, resolved) == places[k]
                &&& #[trigger] leads_to(resolved, k, exe)
                &&& forall|j: int| 0 <= j < k ==> !#[trigger] leads_to(resolved, j, exe)
            }) || (stable_path(exe, places, resolved) == exe && forall|j: int|
            0 <= j < places.len() ==> !#[trigger] leads_to(resolved, j, exe)),
    decreases places.len(),
{
    if places.len() > 0 {
        if leads_to(resolved, 0, exe) {
            assert(stable_path(exe, places, resolved) == places[0]);
        } else {
            let ps = places.skip(1);
            let rs = resolved.skip(1);
            lemma_service_runs_a_stable_path(exe, ps, rs);
            assert(forall|j: int| 0 <= j < rs.len() ==> #[trigger] leads_to(rs, j, exe) == leads_to(
                resolved,
                j + 1,
                exe,
            )) by {
                assert forall|j: int| 0 <= j < rs.len() implies #[trigger] leads_to(rs, j, exe)
                    == leads_to(resolved, j + 1, exe) by {
                    assert(rs[j] == resolved[j + 1]);
                }
            }
            if exists|k: int|
                {
                    &&& 0 <= k < ps.len()
                    &&& stable_path(exe, ps, rs) == ps[k]
                    &&& #[trigger] leads_to(rs, k, exe)
                    &&& forall|j: int| 0 <= j < k ==> !#[trigger] leads_to(rs, j, exe)
                } {
                let k = choose|k: int|
                    {
                        &&& 0 <= k < ps.len()
                        &&& stable_path(exe, ps, rs) == ps[k]
                        &&& #[trigger] leads_to(rs, k, exe)
                        &&& forall|j: int| 0 <= j < k ==> !#[trigger] leads_to(rs, j, exe)
                    };
                assert(leads_to(resolved, k + 1, exe));
                assert(places[k + 1] == ps[k]);
                assert forall|j: int| 0 <= j < k + 1 implies !#[trigger] leads_to(
                    resolved,
                    j,
                    exe,
                ) by {
                    if j > 0 {
                        assert(!leads_to(rs, j - 1, exe));
                    }
                }
            } else {
                assert forall|j: int| 0 <= j < places.len() implies !#[trigger] leads_to(
                    resolved,
                    j,
                    exe,
                ) by {
                    if j > 0 {
                        assert(!leads_to(rs, j - 1, exe));
                    }
                }
            }
        }
    }
}

/// The entry leads to the program.
pub open spec fn leads_to(resolved: Seq<Option<String>>, k: int, exe: Seq<char>) -> bool {
    resolved[k] matches Some(p) && comps(p@) == comps(exe)
}

/// The definition of the service lies where its manager looks for it, and runs
/// the daemon in the foreground, with the configuration that was asked for.
pub proof fn lemma_service_is_where_it_is_looked_for(
    home: Seq<char>,
    exe: Seq<char>,
    config: Seq<char>,
)
    ensures
        Manager::Launchd.place(home) == joined(
            joined(home, "Library/LaunchAgents"@),
            "dev.droco.sessionguard"@ + ".plist"@,
        ),
        Manager::Systemd.place(home) == joined(
            joined(home, ".config/systemd/user"@),
            "sessionguard.service"@,
        ),
        daemon_args(exe, None) == seq![exe, "start"@, "--foreground"@],
        daemon_args(exe, Some(config)) == seq![
            exe,
            "--config"@,
            config,
            "start"@,
            "--foreground"@,
        ],
{
}

/// A quotient is rounded to the nearest number.
proof fn lemma_half_even(n: nat, d: nat)
    requires
        d > 0,
    ensures
        2 * n <= 2 * (half_even(n, d) * d) + d,
        2 * (half_even(n, d) * d) <= 2 * n + d,
{
    let q = n / d;
    let r = n % d;
    assert(n == q * d + r && 0 <= r < d) by (nonlinear_arith)
        requires
            d > 0,
            q == n / d,
            r == n % d,
    ;
    assert((q + 1) * d == q * d + d) by (nonlinear_arith);
}

/// A size of up to eight pebibytes is told in the largest unit that it reaches,
/// to the nearest tenth of it.
pub proof fn lemma_sizes_are_near(bytes: u64)
    requires
        bytes < 0x20_0000_0000_0000,
    ensures
        bytes < 1024 ==> size_text(bytes) == dec(bytes as nat) + " B"@,
        1024 <= bytes < 1024 * 1024 ==> told_near(bytes, 1024, " KB"@),
        1024 * 1024 <= bytes < 1024 * 1024 * 1024 ==> told_near(bytes, 1024 * 1024, " MB"@),
        1024 * 1024 * 1024 <= bytes < 1024 * 1024 * 1024 * 1024 ==> told_near(
            bytes,
            1024 * 1024 * 1024,
            " GB"@,
        ),
        bytes >= 1024 * 1024 * 1024 * 1024 ==> told_near(
            bytes,
            1024 * 1024 * 1024 * 1024,
            " TB"@,
        ),
{
    let n = bytes as nat;
    assert(spacing(n, 1) == 1);
    assert(half_even(n, 1) == n);
    assert(nearest(n) == n);
    lemma_half_even(10 * n, 1024);
    lemma_half_even(10 * n, 1024 * 1024);
    lemma_half_even(10 * n, 1024 * 1024 * 1024);
    lemma_half_even(10 * n, 1024 * 1024 * 1024 * 1024);
    if 1024 <= bytes < 1024 * 1024 {
        assert(near(bytes, 1024, tenths(n, 1024)));
    } else if 1024 * 1024 <= bytes < 1024 * 1024 * 1024 {
        assert(near(bytes, 1024 * 1024, tenths(n, 1024 * 1024)));
    } else if 1024 * 1024 * 1024 <= bytes < 1024 * 1024 * 1024 * 1024 {
        assert(near(bytes, 1024 * 1024 * 1024, tenths(n, 1024 * 1024 * 1024)));
    } else if bytes >= 1024 * 1024 * 1024 * 1024 {
        assert(near(bytes, 1024 * 1024 * 1024 * 1024, tenths(n, 1024 * 1024 * 1024 * 1024)));
    }
}

/// So many tenths of the unit are no further from the size than half a tenth.
pub open spec fn near(bytes: u64, unit: nat, t: nat) -> bool {
    20 * bytes <= 2 * (t * unit) + unit && 2 * (t * unit) <= 20 * bytes + unit
}

/// The size is told in the unit, to the nearest tenth.
pub open spec fn told_near(bytes: u64, unit: nat, name: Seq<char>) -> bool {
    exists|t: nat| #[trigger]
        near(bytes, unit, t) && size_text(bytes) == dec(t / 10) + "."@ + dec(t % 10) + name
}

/// An age is told in whole seconds, minutes, hours or days: in the largest of
/// these that it reaches.
pub proof fn lemma_ages_are_whole(age: u64)
    ensures
        age < 60 ==> ago_text(age) == dec(age as nat) + "s ago"@,
        60 <= age < 60 * 60 ==> exists|n: nat|
            60 * n <= age < 60 * (n + 1) && ago_text(age) == #[trigger] dec(n) + "m ago"@,
        60 * 60 <= age < 24 * 60 * 60 ==> exists|n: nat|
            60 * 60 * n <= age < 60 * 60 * (n + 1) && ago_text(age) == #[trigger] dec(n)
                + "h ago"@,
        age >= 24 * 60 * 60 ==> exists|n: nat|
            24 * 60 * 60 * n <= age < 24 * 60 * 60 * (n + 1) && ago_text(age)
                == #[trigger] dec(n) + "d ago"@,
{
    if 60 <= age < 3600 {
        assert(ago_text(age) == dec((age / 60) as nat) + "m ago"@);
    } else if 3600 <= age < 86_400 {
        assert(ago_text(age) == dec((age / 3600) as nat) + "h ago"@);
    } else if age >= 86_400 {
        assert(ago_text(age) == dec((age / 86_400) as nat) + "d ago"@);
    }
}

/// The versions are in the order of their numbers, the first of which counts
/// most.
pub proof fn lemma_versions_are_in_order(a: (u64, u64, u64), b: (u64, u64, u64))
    ensures
        a.0 < b.0 ==> older(a, b),
        a.0 == b.0 && a.1 < b.1 ==> older(a, b),
        a.0 == b.0 && a.1 == b.1 && a.2 < b.2 ==> older(a, b),
        a == b || older(a, b) || older(b, a),
        !(older(a, b) && older(b, a)),
{
}

/// A new binary is put in place in three steps: the old one is put aside, the
/// new one copied to where it was, and that made executable. As the superuser
/// the same is done.
pub proof fn lemma_binary_is_swapped(
    dest: Seq<char>,
    new_bin: Seq<char>,
    backup: Seq<char>,
)
    ensures
        swap_ops(dest, new_bin, backup, true) == seq![
            SwapOpView::Rename { from: dest, to: backup },
            SwapOpView::Copy { from: new_bin, to: dest },
            SwapOpView::MakeExecutable(dest),
        ],
        swap_ops(dest, new_bin, backup, false) == seq![
            SwapOpView::Sudo(seq!["mv"@, dest, backup]),
            SwapOpView::Sudo(seq!["cp"@, new_bin, dest]),
            SwapOpView::Sudo(seq!["chmod"@, "755"@, dest]),
        ],
{
}

/// A text that begins with a smaller character comes first, and a text before
/// every longer one that begins with it.
pub proof fn lemma_order_of_texts(a: Seq<char>, b: Seq<char>, rest: Seq<char>)
    requires
        a.len() > 0,
        b.len() > 0,
    ensures
        a[0] < b[0] ==> before(a, b),
        rest.len() > 0 ==> before(a, a + rest),
        before(Seq::empty(), b),
        before(rest + a, rest + b) == before(a, b),
    decreases a.len() + rest.len(),
{
    if rest.len() > 0 {
        lemma_before_longer(a, rest);
        lemma_common_start(a, b, rest);
    } else {
        assert(rest + a =~= a);
        assert(rest + b =~= b);
    }
}

proof fn lemma_before_longer(a: Seq<char>, rest: Seq<char>)
    requires
        rest.len() > 0,
    ensures
        before(a, a + rest),
    decreases a.len(),
{
    if a.len() > 0 {
        lemma_before_longer(a.skip(1), rest);
        assert((a + rest).skip(1) =~= a.skip(1) + rest);
    }
}

proof fn lemma_common_start(a: Seq<char>, b: Seq<char>, rest: Seq<char>)
    requires
        a.len() > 0,
        b.len() > 0,
    ensures
        before(rest + a, rest + b) == before(a, b),
    decreases rest.len(),
{
    if rest.len() == 0 {
        assert(rest + a =~= a);
        assert(rest + b =~= b);
    } else {
        lemma_common_start(a, b, rest.skip(1));
        assert((rest + a).skip(1) =~= rest.skip(1) + a);
        assert((rest + b).skip(1) =~= rest.skip(1) + b);
    }
}

/// A numeral stands for its number.
pub proof fn lemma_numerals_are_read_back(n: nat)
    ensures
        is_numeral(dec(n)),
        numeral(dec(n)) == n,
    decreases n,
{
    if n < 10 {
        assert(dec(n).drop_last() =~= Seq::empty());
        reveal_with_fuel(numeral, 2);
    } else {
        lemma_numerals_are_read_back(n / 10);
        let rest = dec(n / 10);
        let d = digit(n % 10);
        assert(rest.push(d).drop_last() =~= rest);
        assert forall|i: int| 0 <= i < dec(n).len() implies is_digit(#[trigger] dec(n)[i]) by {
            if i < rest.len() {
                assert(dec(n)[i] == rest[i]);
            }
        }
    }
}

/// The pieces of a text are those between its separators: none of them holds
/// one, and put together with separators between them they are the text.
pub proof fn lemma_pieces_make_the_text(s: Seq<char>, c: char)
    ensures
        split(s, c).len() > 0,
        forall|i: int| 0 <= i < split(s, c).len() ==> !(#[trigger] split(s, c)[i]).contains(c),
        rejoined(split(s, c), c) == s,
    decreases s.len(),
{
    let k = index_from(s, c, 0);
    crate::text::lemma_index_from(s, c, 0);
    if k < s.len() {
        let rest = s.skip(k + 1);
        lemma_pieces_make_the_text(rest, c);
        let all = split(s, c);
        assert(all =~= seq![s.take(k)] + split(rest, c));
        assert forall|i: int| 0 <= i < all.len() implies !(#[trigger] all[i]).contains(c) by {
            if i == 0 {
                if s.take(k).contains(c) {
                    let j = choose|j: int| 0 <= j < k && s.take(k)[j] == c;
                    assert(s[j] == c);
                }
            } else {
                assert(all[i] == split(rest, c)[i - 1]);
            }
        }
        assert(all.skip(1) =~= split(rest, c));
        assert(s.take(k) + seq![c] + rest =~= s);
    } else {
        if s.contains(c) {
            let j = choose|j: int| 0 <= j < s.len() && s[j] == c;
            assert(s[j] == c);
        }
    }
}

/// The pieces with separators between them.
pub open spec fn rejoined(pieces: Seq<Seq<char>>, c: char) -> Seq<char>
    decreases pieces.len(),
{
    if pieces.len() == 0 {
        Seq::empty()
    } else if pieces.len() == 1 {
        pieces[0]
    } else {
        pieces[0] + seq![c] + rejoined(pieces.skip(1), c)
    }
}

/// A text without the white space around it begins and ends with none, and only
/// white space is missing.
pub proof fn lemma_only_space_is_trimmed(s: Seq<char>)
    ensures
        trimmed(s).len() > 0 ==> !is_space(trimmed(s)[0]) && !is_space(trimmed(s).last()),
        exists|i: int, j: int| #[trigger] cut(s, trimmed(s), i, j),
{
    lemma_trim_start(s);
    let t = trim_start(s);
    lemma_trim_end(t);
    let i = s.len() - t.len();
    let j = i + trimmed(s).len();
    assert(s.subrange(i, j) =~= trimmed(s));
    assert forall|k: int| j <= k < s.len() implies is_space(#[trigger] s[k]) by {
        assert(s[k] == t[k - i]);
    }
    assert(cut(s, trimmed(s), i, j));
    if trimmed(s).len() > 0 {
        assert(trimmed(s)[0] == t[0]);
    }
}

/// The one text is the other from `i` to `j`, and around it is white space.
pub open spec fn cut(s: Seq<char>, t: Seq<char>, i: int, j: int) -> bool {
    &&& 0 <= i <= j <= s.len()
    &&& t == s.subrange(i, j)
    &&& forall|k: int| 0 <= k < i ==> is_space(#[trigger] s[k])
    &&& forall|k: int| j <= k < s.len() ==> is_space(#[trigger] s[k])
}

proof fn lemma_trim_start(s: Seq<char>)
    ensures
        trim_start(s).len() <= s.len(),
        trim_start(s) == s.skip(s.len() - trim_start(s).len()),
        forall|k: int| 0 <= k < s.len() - trim_start(s).len() ==> is_space(#[trigger] s[k]),
        trim_start(s).len() > 0 ==> !is_space(trim_start(s)[0]),
    decreases s.len(),
{
    if s.len() > 0 && is_space(s[0]) {
        let r = s.skip(1);
        lemma_trim_start(r);
        let t = trim_start(s);
        assert(t =~= s.skip(s.len() - t.len()));
        assert forall|k: int| 0 <= k < s.len() - t.len() implies is_space(#[trigger] s[k]) by {
            if k > 0 {
                assert(s[k] == r[k - 1]);
            }
        }
    } else {
        assert(s.skip(0) =~= s);
    }
}

proof fn lemma_trim_end(s: Seq<char>)
    ensures
        trim_end(s).len() <= s.len(),
        trim_end(s) == s.take(trim_end(s).len() as int),
        forall|k: int| trim_end(s).len() <= k < s.len() ==> is_space(#[trigger] s[k]),
        trim_end(s).len() > 0 ==> !is_space(trim_end(s).last()),
    decreases s.len(),
{
    if s.len() > 0 && is_space(s.last()) {
        let r = s.drop_last();
        lemma_trim_end(r);
        let t = trim_end(s);
        assert(t =~= s.take(t.len() as int));
        assert forall|k: int| t.len() <= k < s.len() implies is_space(#[trigger] s[k]) by {
            if k < r.len() {
                assert(s[k] == r[k]);
            }
        }
    } else {
        assert(s.take(s.len() as int) =~= s);
    }
}

/// A process is a daemon of this program if it lives and its command line names
/// the program, in whatever case, or cannot be found out.
pub proof fn lemma_daemon_is_known_by_its_command(alive: bool, command: Seq<char>)
    ensures
        is_daemon(alive, None) == alive,
        is_daemon(alive, Some(command)) == (alive && exists|i: int|
            #[trigger] occurs_at(lower(command), "sessionguard"@, i)),
{
}

/// How long things are waited for, and how much is looked at.
pub proof fn lemma_limits()
    ensures
        crate::watcher::RENAME_PAIRING_TTL == 500,
        crate::daemon::INDEX_REBUILD_MIN_AGE == 2 * 1000,
        crate::sessions::read::HINT_FILES == 4,
        crate::sessions::read::HINT_LINES == 64,
        crate::sessions::read::HINT_BYTES == 512 * 1024,
        crate::sessions::read::FIRST_LINE_BYTES == 64 * 1024,
        crate::inventory::WALK_FILE_CAP == 200 * 1000,
        crate::detector::WALK_DIR_CAP == 50 * 1000,
        crate::sessions::read::SESSION_WALK_CAP == 50 * 1000,
        crate::rekey::plan::REKEY_WALK_CAP == 50 * 1000,
{
}

/// A binary in a build directory is a checkout's, wherever that is; of the
/// others one in the directory of cargo is cargo's, and one in that of homebrew
/// homebrew's. Only what is in none of these is replaced by an update.
pub proof fn lemma_packaged_binaries_are_left_alone(exe: Seq<char>)
    ensures
        method_of(exe) is GitCheckout <==> has(exe, "/target/debug/"@) || has(
            exe,
            "/target/release/"@,
        ),
        method_of(exe) is Cargo ==> has(exe, "/.cargo/bin/"@),
        method_of(exe) is Homebrew ==> has(exe, "/Cellar/"@) || has(exe, "/homebrew/"@),
        method_of(exe) matches MethodView::Standalone { path } ==> path == exe && !(has(
            exe,
            "/.cargo/bin/"@,
        )) && !(has(exe, "/Cellar/"@)) && !(has(exe, "/homebrew/"@)),
        has(exe, "/.cargo/bin/"@) && !(method_of(exe) is GitCheckout) ==> method_of(exe) is Cargo,
{
}

/// The process that a PID file names is the number in it, whatever white space
/// is around it.
pub proof fn lemma_pid_is_read_back(pid: u32)
    ensures
        pid_of(dec(pid as nat)) == Some(pid),
        pid_of(dec(pid as nat).push('\n')) == Some(pid),
        pid_of(Seq::empty()) is None,
{
    let n = pid as nat;
    let s = dec(n);
    lemma_numerals_are_read_back(n);
    assert(s.len() > 0);
    assert(is_digit(s[0]) && is_digit(s[s.len() - 1]));
    assert(trim_start(s) == s);
    assert(trim_end(s) == s);
    let t = s.push('\n');
    assert(t[0] == s[0]);
    assert(trim_start(t) == t);
    assert(t.last() == '\n');
    assert(is_space('\n'));
    assert(t.drop_last() =~= s);
    assert(trim_end(t) == trim_end(s));
    let none = Seq::<char>::empty();
    assert(trim_start(none) == none);
    assert(trim_end(none) == none);
}

/// A pattern that ends in slashes names the same place as without them.
pub proof fn lemma_pattern_names_its_place(root: Seq<char>, pattern: Seq<char>)
    ensures
        literal_place(root, pattern.push('/')) == literal_place(root, pattern),
        pattern.len() > 0 && pattern.last() != '/' ==> literal_place(root, pattern) == joined(
            root,
            pattern,
        ),
{
    assert(pattern.push('/').drop_last() =~= pattern);
}

/// A file is a tool's definition if it has a name before `.toml`.
pub proof fn lemma_definitions_are_toml(base: Seq<char>, stem: Seq<char>)
    requires
        base.len() > 0,
        stem.len() > 0,
        !stem.contains('/'),
    ensures
        has_extension(joined(base, stem + ".toml"@), "toml"@),
{
    reveal_strlit(".toml");
    reveal_strlit("toml");
    let name = stem + ".toml"@;
    assert(".toml"@ =~= seq!['.'] + "toml"@);
    assert(!name.contains('/')) by {
        if name.contains('/') {
            let i = choose|i: int| 0 <= i < name.len() && name[i] == '/';
            if i < stem.len() {
                assert(stem[i] == '/');
            }
        }
    }
    assert(name.len() > 5);
    lemma_joined_name(base, name);
    let c = comps(joined(base, name));
    assert(c.last() == name);
    assert(c.last() != seq!['/'] && c.last() != seq!['.'] && c.last() != seq!['.', '.']);
    assert(last_name(joined(base, name)) == Some(name));
    assert(name.subrange(name.len() - 5, name.len() as int) =~= ".toml"@);
    assert(!"toml"@.contains('.'));
}

/// The directories that are watched by default are four below the home
/// directory.
pub proof fn lemma_usual_roots(home: Seq<char>)
    ensures
        usual_roots(home) == seq![
            joined(home, "projects"@),
            joined(home, "repos"@),
            joined(home, "code"@),
            joined(home, "dev"@),
        ],
{
}

/// The project of a session is named by the declared field before the fallback.
pub proof fn lemma_declared_field_comes_first(field: Seq<char>, fallback: Seq<char>)
    ensures
        key_fields(field, Some(fallback)) == seq![field, fallback],
        key_fields(field, None) == seq![field],
{
}

/// A time is told only if it is not before the epoch.
pub proof fn lemma_times_are_since_the_epoch(t: i64)
    ensures
        t >= 0 ==> (since_epoch(Some(t)) matches Some(u) && u == t),
        t < 0 ==> since_epoch(Some(t)) is None,
        since_epoch(None) is None,
{
}

/// The checksum of a file is the first word that a checksum program printed.
pub proof fn lemma_digest_is_the_first_word(output: Seq<char>)
    ensures
        words(output).len() > 0 ==> digest_in(Some(output)) == Some(words(output)[0]),
        words(output).len() == 0 ==> digest_in(Some(output)) is None,
        digest_in(None) is None,
{
}

/// The reports and the records of a re-keying are one for each store, in the
/// order of the stores, and about that store.
pub proof fn lemma_reports_are_in_order(handled: Seq<Handled>, dry_run: bool, i: int)
    requires
        0 <= i < handled.len(),
    ensures
        reports_of(handled, dry_run).len() == handled.len(),
        reports_of(handled, dry_run)[i].tool == handled[i].tool@,
        reports_of(handled, dry_run)[i].applied <==> handled[i].outcome(dry_run) is Applied,
        decisions_of(handled).len() == handled.len(),
        decisions_of(handled)[i].tool_name == Some(handled[i].tool@),
        decisions_of(handled)[i].project_path == Some(handled[i].new_path@),
{
}

/// The definitions that come with the program have names of their own, and
/// every store that they declare is in order.
pub proof fn lemma_builtin_tools_are_in_order(i: int, j: int)
    requires
        0 <= i < builtin_views().len(),
        0 <= j < builtin_views().len(),
    ensures
        i != j ==> builtin_views()[i].name != builtin_views()[j].name,
        builtin_views()[i].session_store matches Some(store) ==> store.valid(),
        builtin_views()[i].session_patterns.len() > 0,
{
    reveal_strlit("claude_code");
    reveal_strlit("cursor");
    reveal_strlit("windsurf");
    reveal_strlit("aider");
    reveal_strlit("gemini_cli");
    reveal_strlit("codex");
    reveal_strlit("opencode");
    reveal_strlit("-");
    assert("cursor"@[1] != "codex"@[1]);
    assert("claude_code"@.len() == 11);
    assert("cursor"@.len() == 6 && "windsurf"@.len() == 8 && "aider"@.len() == 5);
    assert("gemini_cli"@.len() == 10 && "codex"@.len() == 5 && "opencode"@.len() == 8);
    assert("aider"@[0] != "codex"@[0]);
    assert("windsurf"@[0] != "opencode"@[0]);
}

/// Every occurrence of a text is replaced, from the left: up to the first one
/// nothing changes, there the other text takes its place, and so on behind it.
/// So many occurrences are counted.
pub proof fn lemma_every_occurrence_is_replaced(
    s: Seq<char>,
    p: Seq<char>,
    r: Seq<char>,
    i: int,
)
    requires
        p.len() > 0,
        occurs_at(s, p, i),
        forall|j: int| 0 <= j < i ==> !#[trigger] occurs_at(s, p, j),
    ensures
        replaced(s, p, r) == s.take(i) + r + replaced(s.skip(i + p.len()), p, r),
        occurrences(s, p) == 1 + occurrences(s.skip(i + p.len()), p),
    decreases i,
{
    if i == 0 {
        assert(s.take(0) + r =~= r);
    } else {
        assert(!occurs_at(s, p, 0));
        let t = s.skip(1);
        assert forall|j: int| 0 <= j < i - 1 implies !#[trigger] occurs_at(t, p, j) by {
            lemma_occurs_later(s, p, j);
            assert(!occurs_at(s, p, j + 1));
        }
        lemma_occurs_later(s, p, i - 1);
        lemma_every_occurrence_is_replaced(t, p, r, i - 1);
        assert(t.skip(i - 1 + p.len()) =~= s.skip(i + p.len()));
        let tail = replaced(s.skip(i + p.len()), p, r);
        assert(seq![s[0]] + (t.take(i - 1) + r + tail) =~= s.take(i) + r + tail);
    }
}

proof fn lemma_occurs_later(s: Seq<char>, p: Seq<char>, j: int)
    requires
        s.len() > 0,
        0 <= j,
    ensures
        occurs_at(s.skip(1), p, j) == occurs_at(s, p, j + 1),
{
    if j + p.len() <= s.len() - 1 {
        assert(s.skip(1).subrange(j, j + p.len()) =~= s.subrange(j + 1, j + 1 + p.len()));
    }
}

/// Where a text does not occur nothing is replaced, and nothing counted.
pub proof fn lemma_nothing_else_is_replaced(s: Seq<char>, p: Seq<char>, r: Seq<char>)
    requires
        forall|j: int| !#[trigger] occurs_at(s, p, j),
    ensures
        replaced(s, p, r) == s,
        occurrences(s, p) == 0,
    decreases s.len(),
{
    if p.len() > 0 && s.len() >= p.len() {
        assert(!occurs_at(s, p, 0));
        let t = s.skip(1);
        assert forall|j: int| !#[trigger] occurs_at(t, p, j) by {
            if 0 <= j {
                lemma_occurs_later(s, p, j);
                assert(!occurs_at(s, p, j + 1));
            }
        }
        lemma_nothing_else_is_replaced(t, p, r);
        assert(seq![s[0]] + t =~= s);
    }
}

/// The words of a text hold all of it but the white space, in its order; none
/// is empty, and none holds white space.
pub proof fn lemma_words_are_all_but_space(s: Seq<char>, i: int)
    requires
        0 <= i <= s.len(),
    ensures
        forall|k: int|
            0 <= k < words_from(s, i).len() ==> (#[trigger] words_from(s, i)[k]).len() > 0,
        forall|k: int, x: int|
            0 <= k < words_from(s, i).len() && 0 <= x < words_from(s, i)[k].len() ==> !is_space(
                #[trigger] words_from(s, i)[k][x],
            ),
        strung(words_from(s, i)) == s.skip(i).filter(|c: char| !is_space(c)),
        words(s) == words_from(s, 0),
    decreases s.len() - i,
{
    let dark = |c: char| !is_space(c);
    if i < s.len() {
        let rest = s.skip(i);
        if is_space(s[i]) {
            lemma_words_are_all_but_space(s, i + 1);
            lemma_filter_head(rest, dark);
            assert(rest.skip(1) =~= s.skip(i + 1));
        } else {
            let j = space_from(s, i);
            lemma_next_space(s, i);
            lemma_words_are_all_but_space(s, j);
            let w = s.subrange(i, j);
            let all = words_from(s, i);
            let more = words_from(s, j);
            assert(all == seq![w] + more);
            assert forall|k: int| 0 <= k < all.len() implies (#[trigger] all[k]).len() > 0 by {
                if k > 0 {
                    assert(all[k] == more[k - 1]);
                }
            }
            assert forall|k: int, x: int| 0 <= k < all.len() && 0 <= x < all[k].len() implies !is_space(
                #[trigger] all[k][x],
            ) by {
                if k > 0 {
                    assert(all[k] == more[k - 1]);
                    assert(!is_space(more[k - 1][x]));
                } else {
                    assert(all[k][x] == s[i + x]);
                }
            }
            assert(all.skip(1) =~= more);
            assert(rest =~= w + s.skip(j));
            lemma_filter_of_both(w, s.skip(j), dark);
            assert(w.filter(dark) == w) by {
                assert forall|x: int| 0 <= x < w.len() implies dark(#[trigger] w[x]) by {
                    assert(w[x] == s[i + x]);
                }
                lemma_filter_keeps_all(w, dark);
            }
        }
    } else {
        reveal(Seq::filter);
        assert(s.skip(i) =~= Seq::empty());
        assert(strung(words_from(s, i)) =~= Seq::empty());
    }
}

/// The words one behind the other.
pub open spec fn strung(w: Seq<Seq<char>>) -> Seq<char>
    decreases w.len(),
{
    if w.len() == 0 {
        Seq::empty()
    } else {
        w[0] + strung(w.skip(1))
    }
}

proof fn lemma_next_space(s: Seq<char>, i: int)
    requires
        0 <= i <= s.len(),
    ensures
        i <= space_from(s, i) <= s.len(),
        i < s.len() && !is_space(s[i]) ==> i < space_from(s, i),
        forall|k: int| i <= k < space_from(s, i) ==> !is_space(#[trigger] s[k]),
    decreases s.len() - i,
{
    if i < s.len() {
        lemma_next_space(s, i + 1);
    }
}

proof fn lemma_filter_of_both(a: Seq<char>, b: Seq<char>, f: spec_fn(char) -> bool)
    ensures
        (a + b).filter(f) == a.filter(f) + b.filter(f),
    decreases b.len(),
{
    reveal(Seq::filter);
    if b.len() == 0 {
        assert(a + b =~= a);
        assert(a.filter(f) + b.filter(f) =~= a.filter(f));
    } else {
        lemma_filter_of_both(a, b.drop_last(), f);
        assert((a + b).drop_last() =~= a + b.drop_last());
        assert((a + b).last() == b.last());
        let x = a.filter(f);
        let y = b.drop_last().filter(f);
        assert((x + y).push(b.last()) =~= x + y.push(b.last()));
    }
}

proof fn lemma_filter_head(s: Seq<char>, f: spec_fn(char) -> bool)
    requires
        s.len() > 0,
        !f(s[0]),
    ensures
        s.filter(f) == s.skip(1).filter(f),
{
    let a = seq![s[0]];
    lemma_filter_of_both(a, s.skip(1), f);
    assert(a + s.skip(1) =~= s);
    assert(a.filter(f) =~= Seq::empty()) by {
        reveal(Seq::filter);
        assert(a.drop_last() =~= Seq::empty());
        assert(a.drop_last().filter(f) =~= Seq::empty());
    }
    assert(Seq::<char>::empty() + s.skip(1).filter(f) =~= s.skip(1).filter(f));
}

proof fn lemma_filter_keeps_all(s: Seq<char>, f: spec_fn(char) -> bool)
    requires
        forall|x: int| 0 <= x < s.len() ==> f(#[trigger] s[x]),
    ensures
        s.filter(f) == s,
    decreases s.len(),
{
    reveal(Seq::filter);
    if s.len() > 0 {
        let d = s.drop_last();
        assert forall|x: int| 0 <= x < d.len() implies f(#[trigger] d[x]) by {
            assert(d[x] == s[x]);
        }
        lemma_filter_keeps_all(d, f);
        assert(f(s[s.len() - 1]));
        assert(d.push(s.last()) =~= s);
    } else {
        assert(s.filter(f) =~= s);
    }
}

} // verus!
