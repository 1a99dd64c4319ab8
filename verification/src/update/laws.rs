//! What an update fetches, installs and keeps.
use vstd::prelude::*;

use crate::paths::{comps, joined, last_name, renamed};
use crate::text::{opt_view, split, without_leading, words};
use crate::update::{
    sum_in, text_of, triple_of, update_step, verified_step, UpdateErrorView, UpdateOpView,
    UpdateReply, UpdateReportView, UpdateStepView, UpdateTarget,
};

verus! {

/// The name that the platform has in the names of the release's files.
pub open spec fn platform_is(t: UpdateTarget, name: Seq<char>) -> bool {
    ||| t.arch@ == "x86_64"@ && t.os@ == "linux"@ && name == "x86_64-unknown-linux-gnu"@
    ||| t.arch@ == "x86_64"@ && t.os@ == "macos"@ && name == "x86_64-apple-darwin"@
    ||| t.arch@ == "aarch64"@ && t.os@ == "macos"@ && name == "aarch64-apple-darwin"@
}

/// Where the files of the release that is asked for are: at the address that
/// was given or, without one, under the tag in the downloads of the repository.
pub open spec fn release_address(t: UpdateTarget, address: Seq<char>) -> bool {
    match t.base_url {
        Some(b) => address == b@,
        None => address == "https://github.com/"@ + t.repo@ + "/releases/download/"@ + t.tag@,
    }
}

/// There are releases for three platforms.
proof fn lemma_platform(t: UpdateTarget)
    ensures
        triple_of(t.arch@, t.os@) matches Some(name) ==> platform_is(t, name),
        forall|name: Seq<char>| #[trigger]
            platform_is(t, name) ==> triple_of(t.arch@, t.os@) == Some(name),
{
    reveal_strlit("x86_64");
    reveal_strlit("aarch64");
    reveal_strlit("linux");
    reveal_strlit("macos");
    assert("x86_64"@.len() != "aarch64"@.len());
    assert("linux"@[0] != "macos"@[0]);
}

/// Everything that an update fetches is a file of the release that is asked
/// for, never of the version that is installed: the archive for the platform,
/// which goes to the directory for downloads under its own name, and the list
/// of checksums.
pub proof fn lemma_fetches_are_from_the_release(t: UpdateTarget, seen: Seq<UpdateReply>)
    ensures
        update_step(t, seen) matches UpdateStepView::Do(
            UpdateOpView::FetchTo { url, path },
        ) ==> exists|name: Seq<char>, address: Seq<char>|
            {
                &&& #[trigger] platform_is(t, name)
                &&& #[trigger] release_address(t, address)
                &&& url == address + "/"@ + ("sessionguard-"@ + name + ".tar.gz"@)
                &&& path == joined(t.temp@, "sessionguard-"@ + name + ".tar.gz"@)
            },
        update_step(t, seen) matches UpdateStepView::Do(
            UpdateOpView::FetchText { url },
        ) ==> exists|address: Seq<char>| #[trigger]
            release_address(t, address) && url == address + "/SHA256SUMS"@,
        t.base_url is None ==> (update_step(t, seen) matches UpdateStepView::Do(
            UpdateOpView::FetchTo { url, .. },
        ) ==> exists|name: Seq<char>| #[trigger]
            platform_is(t, name) && url == "https://github.com/"@ + t.repo@
                + "/releases/download/"@ + t.tag@ + "/"@ + ("sessionguard-"@ + name
                + ".tar.gz"@)),
        t.base_url is None ==> (update_step(t, seen) matches UpdateStepView::Do(
            UpdateOpView::FetchText { url },
        ) ==> url == "https://github.com/"@ + t.repo@ + "/releases/download/"@ + t.tag@
            + "/SHA256SUMS"@),
{
    lemma_platform(t);
    if triple_of(t.arch@, t.os@) is Some {
        assert(platform_is(t, triple_of(t.arch@, t.os@)->0));
    }
    assert(release_address(t, t.base()));
}

/// A reply that is not a failure.
pub open spec fn well(reply: UpdateReply) -> bool {
    !(reply is Failed)
}

/// The update asks for these operations in this order, as long as each goes
/// well: the checksum that was released for the archive has to be that of what
/// was downloaded, the archive has to be unpacked, and the binary to be in it.
pub proof fn lemma_course_of_an_update(
    t: UpdateTarget,
    seen: Seq<UpdateReply>,
    platform: Seq<char>,
    address: Seq<char>,
)
    requires
        !t.dry_run,
        platform_is(t, platform),
        release_address(t, address),
        seen.len() <= 8,
        seen.len() > 0 ==> well(seen[0]),
        seen.len() > 1 ==> well(seen[1]),
        seen.len() > 2 ==> well(seen[2]) && sum_in(
            split(text_of(seen[2]), '\n'),
            "sessionguard-"@ + platform + ".tar.gz"@,
        ) is Some,
        seen.len() > 3 ==> well(seen[3]) && sum_in(
            split(text_of(seen[2]), '\n'),
            "sessionguard-"@ + platform + ".tar.gz"@,
        ) == Some(text_of(seen[3])),
        seen.len() > 4 ==> seen[4] == UpdateReply::Flag(true),
        seen.len() > 5 ==> seen[5] == UpdateReply::Flag(true),
        seen.len() > 6 ==> well(seen[6]),
    ensures
        ({
            let archive = "sessionguard-"@ + platform + ".tar.gz"@;
            let step = update_step(t, seen);
            let download = joined(t.temp@, archive);
            let new_bin = joined(t.temp@, "sessionguard"@);
            &&& seen.len() == 0 ==> step == UpdateStepView::Do(UpdateOpView::MakeTemp(t.temp@))
            &&& seen.len() == 1 ==> step == UpdateStepView::Do(
                UpdateOpView::FetchTo { url: address + "/"@ + archive, path: download },
            )
            &&& seen.len() == 2 ==> step == UpdateStepView::Do(
                UpdateOpView::FetchText { url: address + "/SHA256SUMS"@ },
            )
            &&& seen.len() == 3 ==> step == UpdateStepView::Do(UpdateOpView::Checksum(download))
            &&& seen.len() == 4 ==> step == UpdateStepView::Do(
                UpdateOpView::Unpack { tarball: download, into: t.temp@ },
            )
            &&& seen.len() == 5 ==> step == UpdateStepView::Do(UpdateOpView::Exists(new_bin))
            &&& seen.len() == 6 ==> (step matches UpdateStepView::Do(
                UpdateOpView::Swap { dest, new_bin: b, backup },
            ) && dest == t.dest@ && b == new_bin && is_backup(t, backup))
            &&& seen.len() == 7 ==> step == UpdateStepView::Do(UpdateOpView::Restart)
            &&& seen.len() == 8 ==> (step matches UpdateStepView::Finished {
                result: Ok(r),
                remove_temp,
            } && remove_temp && !r.dry_run && is_plain(t.current@, r.from) && is_plain(
                t.tag@,
                r.to,
            ) && (r.backup matches Some(b) && is_backup(t, b)))
        }),
{
    lemma_platform(t);
    lemma_plain(t.current@);
    lemma_plain(t.tag@);
    assert(address =~= t.base());
}

/// The version without what is before it: no `v` at its start, and only these
/// are missing.
pub open spec fn is_plain(version: Seq<char>, plain: Seq<char>) -> bool {
    &&& plain.len() <= version.len()
    &&& plain == version.skip(version.len() - plain.len())
    &&& forall|i: int| 0 <= i < version.len() - plain.len() ==> #[trigger] version[i] == 'v'
    &&& plain.len() > 0 ==> plain[0] != 'v'
}

/// The place of the binary, under its name with the installed version behind.
pub open spec fn is_backup(t: UpdateTarget, backup: Seq<char>) -> bool {
    exists|plain: Seq<char>| #[trigger]
        is_plain(t.current@, plain) && backup == renamed(
            t.dest@,
            (match last_name(t.dest@) {
                Some(n) => n,
                None => "sessionguard"@,
            }) + ".bak-"@ + plain,
        )
}

proof fn lemma_plain(version: Seq<char>)
    ensures
        is_plain(version, without_leading(version, 'v')),
    decreases version.len(),
{
    let plain = without_leading(version, 'v');
    if version.len() > 0 && version[0] == 'v' {
        lemma_plain(version.skip(1));
        let n = version.len() - plain.len();
        assert(plain =~= version.skip(n));
        assert forall|i: int| 0 <= i < n implies #[trigger] version[i] == 'v' by {
            if i > 0 {
                assert(version.skip(1)[i - 1] == version[i]);
            }
        }
    } else {
        assert(plain =~= version.skip(0));
    }
}

/// The checksum that counts for a file is that on the first line that names it:
/// the first word of the line, where the second is the name of the file.
pub proof fn lemma_checksum_is_that_of_the_file(lines: Seq<Seq<char>>, asset: Seq<char>)
    ensures
        sum_in(lines, asset) is Some <==> exists|i: int|
            0 <= i < lines.len() && words(#[trigger] lines[i]).len() >= 2 && words(lines[i])[1]
                == asset,
        sum_in(lines, asset) matches Some(sum) ==> exists|i: int|
            {
                &&& 0 <= i < lines.len()
                &&& words(#[trigger] lines[i]).len() >= 2
                &&& words(lines[i])[1] == asset
                &&& words(lines[i])[0] == sum
                &&& forall|j: int|
                    0 <= j < i ==> !(words(#[trigger] lines[j]).len() >= 2 && words(lines[j])[1]
                        == asset)
            },
    decreases lines.len(),
{
    if lines.len() > 0 {
        let w = words(lines[0]);
        if !(w.len() >= 2 && w[1] == asset) {
            let rest = lines.skip(1);
            lemma_checksum_is_that_of_the_file(rest, asset);
            assert(forall|i: int| 0 <= i < rest.len() ==> #[trigger] rest[i] == lines[i + 1]);
            if sum_in(lines, asset) is Some {
                let sum = sum_in(lines, asset)->0;
                let i = choose|i: int|
                    {
                        &&& 0 <= i < rest.len()
                        &&& words(#[trigger] rest[i]).len() >= 2
                        &&& words(rest[i])[1] == asset
                        &&& words(rest[i])[0] == sum
                        &&& forall|j: int|
                            0 <= j < i ==> !(words(#[trigger] rest[j]).len() >= 2 && words(
                                rest[j],
                            )[1] == asset)
                    };
                assert(lines[i + 1] == rest[i]);
                assert forall|j: int| 0 <= j < i + 1 implies !(words(#[trigger] lines[j]).len() >= 2
                    && words(lines[j])[1] == asset) by {
                    if j > 0 {
                        assert(rest[j - 1] == lines[j]);
                    }
                }
            }
            if exists|i: int|
                0 <= i < lines.len() && words(#[trigger] lines[i]).len() >= 2 && words(lines[i])[1]
                    == asset {
                let i = choose|i: int|
                    0 <= i < lines.len() && words(#[trigger] lines[i]).len() >= 2 && words(
                        lines[i],
                    )[1] == asset;
                assert(rest[i - 1] == lines[i]);
            }
        } else {
            assert(lines[0] == lines[0]);
        }
    }
}

/// A rehearsal says where the release's files would be fetched from, what would
/// be kept and what would be installed: the release that is asked for.
pub proof fn lemma_rehearsal_tells_the_release(
    t: UpdateTarget,
    seen: Seq<UpdateReply>,
    platform: Seq<char>,
    address: Seq<char>,
)
    requires
        t.dry_run,
        platform_is(t, platform),
        release_address(t, address),
    ensures
        update_step(t, seen) matches UpdateStepView::Finished { result: Ok(r), remove_temp } && {
            &&& !remove_temp
            &&& r.dry_run
            &&& r.backup is None
            &&& is_plain(t.current@, r.from)
            &&& is_plain(t.tag@, r.to)
            &&& r.steps.len() == 5
            &&& r.steps[0] == "would download "@ + (address + "/"@ + ("sessionguard-"@ + platform
                + ".tar.gz"@))
            &&& r.steps[1] == "would verify against "@ + (address + "/SHA256SUMS"@)
            &&& r.steps[3] == "would install "@ + t.tag@ + " to "@ + t.dest@
        },
{
    lemma_platform(t);
    lemma_plain(t.current@);
    lemma_plain(t.tag@);
    assert(address =~= t.base());
}

/// There is no update without a released binary for the platform.
pub proof fn lemma_other_platforms_are_refused(t: UpdateTarget, seen: Seq<UpdateReply>)
    requires
        forall|name: Seq<char>| !#[trigger] platform_is(t, name),
    ensures
        update_step(t, seen) matches UpdateStepView::Finished { result: Err(e), remove_temp }
            && e is Refused && !remove_temp,
{
    lemma_platform(t);
    if triple_of(t.arch@, t.os@) is Some {
        assert(platform_is(t, triple_of(t.arch@, t.os@)->0));
    }
}

/// A download whose checksum is not the one that was released is refused, with
/// both told, and removed; nothing is asked for any more.
pub proof fn lemma_wrong_download_is_refused(
    t: UpdateTarget,
    seen: Seq<UpdateReply>,
    platform: Seq<char>,
    expected: Seq<char>,
)
    requires
        !t.dry_run,
        platform_is(t, platform),
        seen.len() >= 4,
        well(seen[0]) && well(seen[1]) && well(seen[2]) && well(seen[3]),
        sum_in(split(text_of(seen[2]), '\n'), "sessionguard-"@ + platform + ".tar.gz"@) == Some(
            expected,
        ),
        expected != text_of(seen[3]),
    ensures
        update_step(t, seen) == (UpdateStepView::Finished {
            result: Err(
                UpdateErrorView::Checksum {
                    asset: "sessionguard-"@ + platform + ".tar.gz"@,
                    expected,
                    actual: text_of(seen[3]),
                },
            ),
            remove_temp: true,
        }),
{
    lemma_platform(t);
}

} // verus!
