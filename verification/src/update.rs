//! Updating the program itself.
//!
//! A package manager's files are left to it; only a binary that was put in
//! place by hand is replaced. What is downloaded is held against the release's
//! checksums before it is installed, and the old binary is kept.
pub mod laws;

use vstd::prelude::*;

use crate::documents::{json_field, json_parse, json_read, text_at};
use crate::paths::{file_name, join_path, joined, last_name, renamed, with_file_name};
use crate::text::{
    contains, dec_int, decimal_signed, find_char, has, index_from, join, join_all,
    lemma_index_from, opt_view, owned, parse_decimal, same, split, split_on, split_words,
    string_of, trim, trim_leading, trimmed, views, without_leading, words,
};
use crate::text::{chars_of, is_numeral, numeral};

verus! {

/// Where the releases are.
pub const REPO: &'static str = "PilotDevo/sessionguard";

/// Why an update failed.
#[derive(Debug, PartialEq, Eq)]
pub enum UpdateError {
    Network(String),
    Parse(String),
    /// It was not to be.
    Refused(String),
    /// What was downloaded is not what was released.
    Checksum { asset: String, expected: String, actual: String },
    Io(String),
}

/// The model of an [`UpdateError`].
pub enum UpdateErrorView {
    Network(Seq<char>),
    Parse(Seq<char>),
    Refused(Seq<char>),
    Checksum { asset: Seq<char>, expected: Seq<char>, actual: Seq<char> },
    Io(Seq<char>),
}

impl View for UpdateError {
    type V = UpdateErrorView;

    open spec fn view(&self) -> UpdateErrorView {
        match self {
            UpdateError::Network(m) => UpdateErrorView::Network(m@),
            UpdateError::Parse(m) => UpdateErrorView::Parse(m@),
            UpdateError::Refused(m) => UpdateErrorView::Refused(m@),
            UpdateError::Checksum { asset, expected, actual } => UpdateErrorView::Checksum {
                asset: asset@,
                expected: expected@,
                actual: actual@,
            },
            UpdateError::Io(m) => UpdateErrorView::Io(m@),
        }
    }
}

impl Clone for UpdateError {
    fn clone(&self) -> (r: Self)
        ensures
            r@ == self@,
    {
        match self {
            UpdateError::Network(m) => UpdateError::Network(m.clone()),
            UpdateError::Parse(m) => UpdateError::Parse(m.clone()),
            UpdateError::Refused(m) => UpdateError::Refused(m.clone()),
            UpdateError::Checksum { asset, expected, actual } => UpdateError::Checksum {
                asset: asset.clone(),
                expected: expected.clone(),
                actual: actual.clone(),
            },
            UpdateError::Io(m) => UpdateError::Io(m.clone()),
        }
    }
}

impl UpdateErrorView {
    /// The text of the error.
    pub open spec fn text(self) -> Seq<char> {
        match self {
            UpdateErrorView::Network(m) => "network error: "@ + m,
            UpdateErrorView::Parse(m) => "could not parse release metadata: "@ + m,
            UpdateErrorView::Refused(m) => m,
            UpdateErrorView::Checksum { asset, expected, actual } => "checksum mismatch for "@
                + asset + ": expected "@ + expected + ", got "@ + actual,
            UpdateErrorView::Io(m) => m,
        }
    }
}

impl UpdateError {
    /// The error as a sentence for people.
    pub fn message(&self) -> (r: String)
        ensures
            r@ == self@.text(),
    {
        match self {
            UpdateError::Network(m) => owned("network error: ").concat(m),
            UpdateError::Parse(m) => owned("could not parse release metadata: ").concat(m),
            UpdateError::Refused(m) => m.clone(),
            UpdateError::Checksum { asset, expected, actual } => owned(
                "checksum mismatch for ",
            ).concat(asset).concat(": expected ").concat(expected).concat(", got ").concat(actual),
            UpdateError::Io(m) => m.clone(),
        }
    }
}

/// How the running binary came to be where it is.
#[derive(Debug, PartialEq, Eq)]
pub enum InstallMethod {
    /// It was put there by hand; it may be replaced.
    Standalone { path: String },
    Cargo,
    Homebrew,
    /// It was built from a checkout.
    GitCheckout,
}

/// The model of an [`InstallMethod`].
pub enum MethodView {
    Standalone { path: Seq<char> },
    Cargo,
    Homebrew,
    GitCheckout,
}

impl View for InstallMethod {
    type V = MethodView;

    open spec fn view(&self) -> MethodView {
        match self {
            InstallMethod::Standalone { path } => MethodView::Standalone { path: path@ },
            InstallMethod::Cargo => MethodView::Cargo,
            InstallMethod::Homebrew => MethodView::Homebrew,
            InstallMethod::GitCheckout => MethodView::GitCheckout,
        }
    }
}

/// How a binary at this path came to be there.
pub open spec fn method_of(exe: Seq<char>) -> MethodView {
    if has(exe, "/target/debug/"@) || has(exe, "/target/release/"@) {
        MethodView::GitCheckout
    } else if has(exe, "/.cargo/bin/"@) {
        MethodView::Cargo
    } else if has(exe, "/Cellar/"@) || has(exe, "/homebrew/"@) {
        MethodView::Homebrew
    } else {
        MethodView::Standalone { path: exe }
    }
}

/// How a binary at this path came to be there.
pub fn classify_install_method(exe: &str) -> (r: InstallMethod)
    ensures
        r@ == method_of(exe@),
{
    if contains(exe, "/target/debug/") || contains(exe, "/target/release/") {
        InstallMethod::GitCheckout
    } else if contains(exe, "/.cargo/bin/") {
        InstallMethod::Cargo
    } else if contains(exe, "/Cellar/") || contains(exe, "/homebrew/") {
        InstallMethod::Homebrew
    } else {
        InstallMethod::Standalone { path: owned(exe) }
    }
}

/// How the running binary came to be where it is: by the path with its links
/// resolved, where that could be done.
pub fn detect_install_method(exe: &str, resolved: &Option<String>) -> (r: InstallMethod)
    ensures
        r@ == method_of(
            match opt_view(*resolved) {
                Some(p) => p,
                None => exe@,
            },
        ),
{
    match resolved {
        Some(p) => classify_install_method(p),
        None => classify_install_method(exe),
    }
}

/// The text before the first of two characters.
pub open spec fn before_either(s: Seq<char>, a: char, b: char) -> Seq<char> {
    let i = index_from(s, a, 0);
    let j = index_from(s, b, 0);
    s.take(
        if i < j {
            i
        } else {
            j
        },
    )
}

/// A number of a version, when it is one and fits.
pub open spec fn version_number(s: Seq<char>) -> Option<u64> {
    if is_numeral(s) && numeral(s) <= u64::MAX {
        Some(numeral(s) as u64)
    } else {
        None
    }
}

/// The numbers of a version: three of them, behind any `v`, before any suffix.
pub open spec fn version_of(tag: Seq<char>) -> Option<(u64, u64, u64)> {
    let core = before_either(without_leading(trimmed(tag), 'v'), '-', '+');
    let parts = split(core, '.');
    if parts.len() == 3 {
        match (version_number(parts[0]), version_number(parts[1]), version_number(parts[2])) {
            (Some(a), Some(b), Some(c)) => Some((a, b, c)),
            _ => None,
        }
    } else {
        None
    }
}

/// The numbers of a version: three of them, behind any `v`, before any suffix.
pub fn parse_version(tag: &str) -> (r: Option<(u64, u64, u64)>)
    ensures
        r == version_of(tag@),
{
    let v = trim_leading(&trim(tag), 'v');
    let cs = chars_of(&v);
    let i: usize = find_char(&cs, '-', 0);
    let j: usize = find_char(&cs, '+', 0);
    let n: usize = if i < j {
        i
    } else {
        j
    };
    proof {
        lemma_index_from(v@, '-', 0);
        lemma_index_from(v@, '+', 0);
    }
    let core = string_of(&cs, 0, n);
    assert(v@.subrange(0, n as int) =~= v@.take(n as int));
    let parts = split_on(&core, '.');
    assert(views(parts@).len() == parts@.len());
    if parts.len() != 3 {
        return None;
    }
    assert(views(parts@)[0] == parts@[0]@);
    assert(views(parts@)[1] == parts@[1]@);
    assert(views(parts@)[2] == parts@[2]@);
    match (parse_decimal(&parts[0]), parse_decimal(&parts[1]), parse_decimal(&parts[2])) {
        (Some(a), Some(b), Some(c)) => Some((a, b, c)),
        _ => None,
    }
}

/// One version comes before another.
pub open spec fn older(a: (u64, u64, u64), b: (u64, u64, u64)) -> bool {
    a.0 < b.0 || (a.0 == b.0 && (a.1 < b.1 || (a.1 == b.1 && a.2 < b.2)))
}

/// One version comes before another.
pub fn is_older(a: (u64, u64, u64), b: (u64, u64, u64)) -> (r: bool)
    ensures
        r == older(a, b),
{
    a.0 < b.0 || (a.0 == b.0 && (a.1 < b.1 || (a.1 == b.1 && a.2 < b.2)))
}

/// The one tag is of a later version than the other; never when either is no
/// version.
pub open spec fn newer(latest: Seq<char>, current: Seq<char>) -> bool {
    match (version_of(latest), version_of(current)) {
        (Some(l), Some(c)) => older(c, l),
        _ => false,
    }
}

/// The one tag is of a later version than the other. What cannot be understood
/// is never taken for an update.
pub fn is_newer(latest: &str, current: &str) -> (r: bool)
    ensures
        r == newer(latest@, current@),
{
    match (parse_version(latest), parse_version(current)) {
        (Some(l), Some(c)) => is_older(c, l),
        _ => false,
    }
}

/// A release that is older than the running program is installed only where
/// that is allowed.
pub fn check_downgrade(current: &str, tag: &str, allowed: bool) -> (r: Result<(), UpdateError>)
    ensures
        match r {
            Ok(()) => allowed || !newer(current@, tag@),
            Err(e) => !allowed && newer(current@, tag@) && e@ == UpdateErrorView::Refused(
                tag@ + " is older than "@ + current@ + "; pass --allow-downgrade to install it"@,
            ),
        },
{
    if is_newer(current, tag) && !allowed {
        Err(
            UpdateError::Refused(
                owned(tag).concat(" is older than ").concat(current).concat(
                    "; pass --allow-downgrade to install it",
                ),
            ),
        )
    } else {
        Ok(())
    }
}

/// No version is later than itself; of two only one is later; and what is later
/// than a later one is later.
pub proof fn lemma_newer_is_an_order(a: Seq<char>, b: Seq<char>, c: Seq<char>)
    ensures
        !newer(a, a),
        newer(a, b) ==> !newer(b, a),
        newer(a, b) && newer(b, c) ==> newer(a, c),
{
}

/// What cannot be understood is never taken for an update.
pub proof fn lemma_garbage_is_no_update(latest: Seq<char>, current: Seq<char>)
    requires
        version_of(latest) is None || version_of(current) is None,
    ensures
        !newer(latest, current),
{
}

/// Whether there is an update.
#[derive(Debug, PartialEq, Eq)]
pub struct UpdateCheck {
    /// The running version, without a leading `v`.
    pub current: String,
    /// The tag of the latest release, as it was published.
    pub latest: String,
    pub update_available: bool,
}

/// Where releases are looked up and fetched.
pub trait ReleaseClient {
    /// The tag of the latest release.
    fn latest_tag(&self, repo: &str) -> Result<String, UpdateError>;

    /// The text at an address.
    fn fetch_text(&self, url: &str) -> Result<String, UpdateError>;

    /// Download what is at an address.
    fn fetch_to(&self, url: &str, dest: &str) -> Result<(), UpdateError>;
}

/// Compare the running version with a release.
pub fn judge_update(latest: String, current: &str) -> (r: UpdateCheck)
    ensures
        r.current@ == without_leading(current@, 'v'),
        r.latest@ == latest@,
        r.update_available == newer(latest@, current@),
{
    let update_available = is_newer(&latest, current);
    UpdateCheck { current: trim_leading(current, 'v'), latest, update_available }
}

/// Compare the running version with the latest release. Nothing is changed.
/// What the client says of the latest release decides: its tag is compared,
/// its error handed on.
pub fn check_update<C: ReleaseClient>(client: &C, repo: &str, current: &str) -> (r: Result<
    UpdateCheck,
    UpdateError,
>)
    ensures
        exists|said: Result<String, UpdateError>|
            #[trigger] call_ensures(C::latest_tag, (client, repo), said) && match (said, r) {
                (Ok(tag), Ok(c)) => c.current@ == without_leading(current@, 'v') && c.latest@
                    == tag@ && c.update_available == newer(tag@, current@),
                (Err(e), Err(f)) => f == e,
                _ => false,
            },
{
    let said = client.latest_tag(repo);
    assert(call_ensures(C::latest_tag, (client, repo), said));
    match said {
        Ok(latest) => Ok(judge_update(latest, current)),
        Err(e) => Err(e),
    }
}

/// The address of the description of the latest release.
pub fn latest_url(repo: &str) -> (r: String)
    ensures
        r@ == "https://api.github.com/repos/"@ + repo@ + "/releases/latest"@,
{
    owned("https://api.github.com/repos/").concat(repo).concat("/releases/latest")
}

/// The tag in the description of a release.
pub open spec fn tag_in(body: Seq<char>) -> Result<Seq<char>, UpdateErrorView> {
    match json_read(body) {
        Ok(m) => match text_at(m, split("tag_name"@, '.')) {
            Some(tag) => Ok(tag),
            None => Err(UpdateErrorView::Parse("no tag_name in releases/latest"@)),
        },
        Err(e) => Err(UpdateErrorView::Parse(e)),
    }
}

/// The tag in the description of a release.
pub fn tag_of(body: &str) -> (r: Result<String, UpdateError>)
    ensures
        match (tag_in(body@), r) {
            (Ok(t), Ok(s)) => s@ == t,
            (Err(e), Err(f)) => f@ == e,
            _ => false,
        },
{
    match json_parse(body) {
        Ok(v) => match json_field(&v, "tag_name") {
            Some(tag) => Ok(tag),
            None => Err(UpdateError::Parse(owned("no tag_name in releases/latest"))),
        },
        Err(e) => Err(UpdateError::Parse(e)),
    }
}

/// A download that failed: with the code that the program left with, where it
/// left with any, and its words.
pub fn fetch_failed(url: &str, code: Option<i32>, stderr: &str) -> (r: UpdateError)
    ensures
        r@ == UpdateErrorView::Network(
            "curl "@ + url@ + " exited "@ + dec_int(
                match code {
                    Some(c) => c as int,
                    None => -1,
                },
            ) + ": "@ + trimmed(stderr@),
        ),
{
    let n: i64 = match code {
        Some(c) => c as i64,
        None => -1,
    };
    UpdateError::Network(
        owned("curl ").concat(url).concat(" exited ").concat(&decimal_signed(n)).concat(
            ": ",
        ).concat(&trim(stderr)),
    )
}

/// The name of the platform in the names of the release's files; nothing where
/// there is no such file.
pub open spec fn triple_of(arch: Seq<char>, os: Seq<char>) -> Option<Seq<char>> {
    if arch == "x86_64"@ && os == "linux"@ {
        Some("x86_64-unknown-linux-gnu"@)
    } else if arch == "x86_64"@ && os == "macos"@ {
        Some("x86_64-apple-darwin"@)
    } else if arch == "aarch64"@ && os == "macos"@ {
        Some("aarch64-apple-darwin"@)
    } else {
        None
    }
}

/// There is no file for the platform.
pub open spec fn no_triple() -> UpdateErrorView {
    UpdateErrorView::Refused(
        "no prebuilt release binary for this platform — use `cargo install sessionguard`"@,
    )
}

/// The name of the platform in the names of the release's files.
pub fn target_triple(arch: &str, os: &str) -> (r: Result<String, UpdateError>)
    ensures
        match (triple_of(arch@, os@), r) {
            (Some(t), Ok(s)) => s@ == t,
            (None, Err(e)) => e@ == no_triple(),
            _ => false,
        },
{
    if same(arch, "x86_64") && same(os, "linux") {
        Ok(owned("x86_64-unknown-linux-gnu"))
    } else if same(arch, "x86_64") && same(os, "macos") {
        Ok(owned("x86_64-apple-darwin"))
    } else if same(arch, "aarch64") && same(os, "macos") {
        Ok(owned("aarch64-apple-darwin"))
    } else {
        Err(
            UpdateError::Refused(
                owned(
                    "no prebuilt release binary for this platform — use `cargo install sessionguard`",
                ),
            ),
        )
    }
}

/// The checksum for a file, by the first of the lines that names it.
pub open spec fn sum_in(lines: Seq<Seq<char>>, asset: Seq<char>) -> Option<Seq<char>>
    decreases lines.len(),
{
    if lines.len() == 0 {
        None
    } else {
        let w = words(lines[0]);
        if w.len() >= 2 && w[1] == asset {
            Some(w[0])
        } else {
            sum_in(lines.skip(1), asset)
        }
    }
}

/// The checksum for a file in a list of checksums: a checksum and a name on
/// each line.
pub fn expected_sha(sums: &str, asset: &str) -> (r: Option<String>)
    ensures
        opt_view(r) == sum_in(split(sums@, '\n'), asset@),
{
    let lines = split_on(sums, '\n');
    let ghost ls = views(lines@);
    let mut i: usize = 0;
    assert(ls.skip(0) =~= ls);
    while i < lines.len()
        invariant
            ls == views(lines@),
            ls == split(sums@, '\n'),
            i <= lines@.len(),
            sum_in(ls, asset@) == sum_in(ls.skip(i as int), asset@),
        decreases lines@.len() - i,
    {
        assert(ls.skip(i as int)[0] == lines@[i as int]@);
        assert(ls.skip(i as int).skip(1) =~= ls.skip(i + 1));
        let w = split_words(&lines[i]);
        assert(views(w@).len() == w@.len());
        if w.len() >= 2 {
            assert(views(w@)[0] == w@[0]@);
            assert(views(w@)[1] == w@[1]@);
            if same(&w[1], asset) {
                return Some(w[0].clone());
            }
        }
        i = i + 1;
    }
    None
}

/// The checksum in what a checksum program printed: its first word.
pub open spec fn digest_in(output: Option<Seq<char>>) -> Option<Seq<char>> {
    match output {
        Some(o) => if words(o).len() > 0 {
            Some(words(o)[0])
        } else {
            None
        },
        None => None,
    }
}

fn digest_of(output: &Option<String>) -> (r: Option<String>)
    ensures
        opt_view(r) == digest_in(opt_view(*output)),
{
    match output {
        Some(o) => {
            let w = split_words(o);
            assert(views(w@).len() == w@.len());
            if w.len() > 0 {
                assert(views(w@)[0] == w@[0]@);
                Some(w[0].clone())
            } else {
                None
            }
        },
        None => None,
    }
}

/// The checksum of a file, by what the one program printed or, failing that,
/// the other.
pub fn sha256_file(sha256sum: &Option<String>, shasum: &Option<String>) -> (r: Result<
    String,
    UpdateError,
>)
    ensures
        match (digest_in(opt_view(*sha256sum)), digest_in(opt_view(*shasum)), r) {
            (Some(d), _, Ok(s)) => s@ == d,
            (None, Some(d), Ok(s)) => s@ == d,
            (None, None, Err(e)) => e@ == UpdateErrorView::Refused(
                "need `sha256sum` or `shasum` to verify the download"@,
            ),
            _ => false,
        },
{
    match digest_of(sha256sum) {
        Some(d) => Ok(d),
        None => match digest_of(shasum) {
            Some(d) => Ok(d),
            None => Err(
                UpdateError::Refused(
                    owned("need `sha256sum` or `shasum` to verify the download"),
                ),
            ),
        },
    }
}

/// What was done, or would be.
#[derive(Debug, PartialEq, Eq)]
pub struct UpdateReport {
    pub dry_run: bool,
    pub from: String,
    pub to: String,
    pub steps: Vec<String>,
    /// The binary that was kept.
    pub backup: Option<String>,
}

/// The model of an [`UpdateReport`].
pub struct UpdateReportView {
    pub dry_run: bool,
    pub from: Seq<char>,
    pub to: Seq<char>,
    pub steps: Seq<Seq<char>>,
    pub backup: Option<Seq<char>>,
}

impl View for UpdateReport {
    type V = UpdateReportView;

    open spec fn view(&self) -> UpdateReportView {
        UpdateReportView {
            dry_run: self.dry_run,
            from: self.from@,
            to: self.to@,
            steps: views(self.steps@),
            backup: opt_view(self.backup),
        }
    }
}

/// What is said of the daemon after an update: it is restarted only where it
/// was running.
pub open spec fn restart_note(active: bool, restarted: bool) -> Seq<char> {
    if !active {
        "no active systemd --user daemon; nothing to restart"@
    } else if restarted {
        "restarted systemd --user sessionguard.service"@
    } else {
        "WARNING: failed to restart sessionguard.service — restart it manually"@
    }
}

/// What is said of the daemon after an update.
pub fn restart_daemon_if_running(active: bool, restarted: bool) -> (r: String)
    ensures
        r@ == restart_note(active, restarted),
{
    if !active {
        owned("no active systemd --user daemon; nothing to restart")
    } else if restarted {
        owned("restarted systemd --user sessionguard.service")
    } else {
        owned("WARNING: failed to restart sessionguard.service — restart it manually")
    }
}

/// A step of putting the new binary in place.
#[derive(Debug, PartialEq, Eq)]
pub enum SwapOp {
    Rename { from: String, to: String },
    Copy { from: String, to: String },
    MakeExecutable(String),
    /// As the superuser.
    Sudo(Vec<String>),
}

/// The model of a [`SwapOp`].
pub enum SwapOpView {
    Rename { from: Seq<char>, to: Seq<char> },
    Copy { from: Seq<char>, to: Seq<char> },
    MakeExecutable(Seq<char>),
    Sudo(Seq<Seq<char>>),
}

impl View for SwapOp {
    type V = SwapOpView;

    open spec fn view(&self) -> SwapOpView {
        match self {
            SwapOp::Rename { from, to } => SwapOpView::Rename { from: from@, to: to@ },
            SwapOp::Copy { from, to } => SwapOpView::Copy { from: from@, to: to@ },
            SwapOp::MakeExecutable(p) => SwapOpView::MakeExecutable(p@),
            SwapOp::Sudo(args) => SwapOpView::Sudo(views(args@)),
        }
    }
}

/// The steps of putting a new binary in the place of an old one, which is kept:
/// where the directory cannot be written, as the superuser.
pub open spec fn swap_ops(
    dest: Seq<char>,
    new_bin: Seq<char>,
    backup: Seq<char>,
    writable: bool,
) -> Seq<SwapOpView> {
    if writable {
        seq![
            SwapOpView::Rename { from: dest, to: backup },
            SwapOpView::Copy { from: new_bin, to: dest },
            SwapOpView::MakeExecutable(dest),
        ]
    } else {
        seq![
            SwapOpView::Sudo(seq!["mv"@, dest, backup]),
            SwapOpView::Sudo(seq!["cp"@, new_bin, dest]),
            SwapOpView::Sudo(seq!["chmod"@, "755"@, dest]),
        ]
    }
}

fn sudo(a: &str, b: &str, c: &str) -> (r: SwapOp)
    ensures
        r@ == SwapOpView::Sudo(seq![a@, b@, c@]),
{
    let mut args: Vec<String> = Vec::new();
    args.push(owned(a));
    args.push(owned(b));
    args.push(owned(c));
    assert(views(args@) =~= seq![a@, b@, c@]);
    SwapOp::Sudo(args)
}

/// The steps of putting a new binary in the place of an old one, which is kept.
pub fn swap_binary(dest: &str, new_bin: &str, backup: &str, writable: bool) -> (r: Vec<SwapOp>)
    ensures
        views(r@) == swap_ops(dest@, new_bin@, backup@, writable),
{
    let mut out: Vec<SwapOp> = Vec::new();
    if writable {
        out.push(SwapOp::Rename { from: owned(dest), to: owned(backup) });
        out.push(SwapOp::Copy { from: owned(new_bin), to: owned(dest) });
        out.push(SwapOp::MakeExecutable(owned(dest)));
    } else {
        out.push(sudo("mv", dest, backup));
        out.push(sudo("cp", new_bin, dest));
        out.push(sudo("chmod", "755", dest));
    }
    assert(views(out@) =~= swap_ops(dest@, new_bin@, backup@, writable));
    out
}

/// The error of a step that was done as the superuser and failed.
pub fn sudo_failed(args: &Vec<String>) -> (r: UpdateError)
    ensures
        r@ == UpdateErrorView::Refused("sudo "@ + join(views(args@), " "@) + " failed"@),
{
    UpdateError::Refused(owned("sudo ").concat(&join_all(args, " ")).concat(" failed"))
}

/// What an update is about.
#[derive(Debug)]
pub struct UpdateTarget {
    /// The binary to replace.
    pub dest: String,
    pub repo: String,
    pub tag: String,
    pub current: String,
    pub dry_run: bool,
    pub arch: String,
    pub os: String,
    /// Where the release's files are, in place of the usual address.
    pub base_url: Option<String>,
    /// The directory for what is downloaded.
    pub temp: String,
}

impl UpdateTarget {
    /// The name of the file to download.
    pub open spec fn asset(self) -> Seq<char> {
        "sessionguard-"@ + triple_of(self.arch@, self.os@)->0 + ".tar.gz"@
    }

    /// The address of the release's files.
    pub open spec fn base(self) -> Seq<char> {
        match opt_view(self.base_url) {
            Some(b) => b,
            None => "https://github.com/"@ + self.repo@ + "/releases/download/"@ + self.tag@,
        }
    }

    /// The address of the file.
    pub open spec fn asset_url(self) -> Seq<char> {
        self.base() + "/"@ + self.asset()
    }

    /// The address of the checksums.
    pub open spec fn sums_url(self) -> Seq<char> {
        self.base() + "/SHA256SUMS"@
    }

    /// Where the old binary is kept.
    pub open spec fn backup(self) -> Seq<char> {
        let name = match last_name(self.dest@) {
            Some(n) => n,
            None => "sessionguard"@,
        };
        renamed(self.dest@, name + ".bak-"@ + without_leading(self.current@, 'v'))
    }

    /// Where the download goes.
    pub open spec fn tarball(self) -> Seq<char> {
        joined(self.temp@, self.asset())
    }

    /// Where the new binary is unpacked to.
    pub open spec fn new_bin(self) -> Seq<char> {
        joined(self.temp@, "sessionguard"@)
    }

    /// The report with these steps.
    pub open spec fn report(self, steps: Seq<Seq<char>>) -> UpdateReportView {
        UpdateReportView {
            dry_run: self.dry_run,
            from: without_leading(self.current@, 'v'),
            to: without_leading(self.tag@, 'v'),
            steps,
            backup: if self.dry_run {
                None
            } else {
                Some(self.backup())
            },
        }
    }
}

/// An operation of an update.
#[derive(Debug, PartialEq, Eq)]
pub enum UpdateOp {
    /// Make the directory for what is downloaded.
    MakeTemp(String),
    FetchTo { url: String, path: String },
    FetchText { url: String },
    /// The checksum of a file.
    Checksum(String),
    Unpack { tarball: String, into: String },
    Exists(String),
    Swap { dest: String, new_bin: String, backup: String },
    /// Restart the daemon where it runs, and say what was done.
    Restart,
}

/// The model of an [`UpdateOp`].
pub enum UpdateOpView {
    MakeTemp(Seq<char>),
    FetchTo { url: Seq<char>, path: Seq<char> },
    FetchText { url: Seq<char> },
    Checksum(Seq<char>),
    Unpack { tarball: Seq<char>, into: Seq<char> },
    Exists(Seq<char>),
    Swap { dest: Seq<char>, new_bin: Seq<char>, backup: Seq<char> },
    Restart,
}

impl View for UpdateOp {
    type V = UpdateOpView;

    open spec fn view(&self) -> UpdateOpView {
        match self {
            UpdateOp::MakeTemp(p) => UpdateOpView::MakeTemp(p@),
            UpdateOp::FetchTo { url, path } => UpdateOpView::FetchTo { url: url@, path: path@ },
            UpdateOp::FetchText { url } => UpdateOpView::FetchText { url: url@ },
            UpdateOp::Checksum(p) => UpdateOpView::Checksum(p@),
            UpdateOp::Unpack { tarball, into } => UpdateOpView::Unpack {
                tarball: tarball@,
                into: into@,
            },
            UpdateOp::Exists(p) => UpdateOpView::Exists(p@),
            UpdateOp::Swap { dest, new_bin, backup } => UpdateOpView::Swap {
                dest: dest@,
                new_bin: new_bin@,
                backup: backup@,
            },
            UpdateOp::Restart => UpdateOpView::Restart,
        }
    }
}

/// What came of an operation.
#[derive(Debug, PartialEq, Eq)]
pub enum UpdateReply {
    Done,
    Text(String),
    Flag(bool),
    Failed(UpdateError),
}

/// How to go on with an update.
#[derive(Debug, PartialEq, Eq)]
pub enum UpdateStep {
    Do(UpdateOp),
    /// It is over; whether what was downloaded is to be removed.
    Finished { result: Result<UpdateReport, UpdateError>, remove_temp: bool },
}

/// The model of an [`UpdateStep`].
pub enum UpdateStepView {
    Do(UpdateOpView),
    Finished { result: Result<UpdateReportView, UpdateErrorView>, remove_temp: bool },
}

impl View for UpdateStep {
    type V = UpdateStepView;

    open spec fn view(&self) -> UpdateStepView {
        match self {
            UpdateStep::Do(op) => UpdateStepView::Do(op@),
            UpdateStep::Finished { result, remove_temp } => UpdateStepView::Finished {
                result: match result {
                    Ok(r) => Ok(r@),
                    Err(e) => Err(e@),
                },
                remove_temp: *remove_temp,
            },
        }
    }
}

/// The update failed.
pub open spec fn over(e: UpdateErrorView, remove_temp: bool) -> UpdateStepView {
    UpdateStepView::Finished { result: Err(e), remove_temp }
}

/// The text of a reply.
pub open spec fn text_of(reply: UpdateReply) -> Seq<char> {
    match reply {
        UpdateReply::Text(t) => t@,
        _ => ""@,
    }
}

/// What a rehearsal says.
pub open spec fn rehearsal(t: UpdateTarget) -> Seq<Seq<char>> {
    seq![
        "would download "@ + t.asset_url(),
        "would verify against "@ + t.sums_url(),
        "would back up "@ + t.dest@ + " → "@ + t.backup(),
        "would install "@ + t.tag@ + " to "@ + t.dest@,
        "would restart the daemon if running"@,
    ]
}

/// What is said when all is done.
pub open spec fn account(t: UpdateTarget, restart: Seq<char>) -> Seq<Seq<char>> {
    seq![
        "downloaded "@ + t.asset(),
        "verified checksum ("@ + t.asset() + ")"@,
        "installed "@ + t.tag@ + "; previous kept at "@ + t.backup(),
        restart,
    ]
}

/// How to go on from the check of the download.
pub open spec fn verified_step(t: UpdateTarget, seen: Seq<UpdateReply>) -> UpdateStepView {
    if seen.len() == 4 {
        UpdateStepView::Do(UpdateOpView::Unpack { tarball: t.tarball(), into: t.temp@ })
    } else if seen[4] != UpdateReply::Flag(true) {
        match seen[4] {
            UpdateReply::Failed(e) => over(e@, false),
            _ => over(
                UpdateErrorView::Refused("failed to extract the downloaded tarball"@),
                true,
            ),
        }
    } else if seen.len() == 5 {
        UpdateStepView::Do(UpdateOpView::Exists(t.new_bin()))
    } else if seen[5] != UpdateReply::Flag(true) {
        over(
            UpdateErrorView::Refused("tarball did not contain a `sessionguard` binary"@),
            true,
        )
    } else if seen.len() == 6 {
        UpdateStepView::Do(
            UpdateOpView::Swap { dest: t.dest@, new_bin: t.new_bin(), backup: t.backup() },
        )
    } else {
        match seen[6] {
            UpdateReply::Failed(e) => over(e@, false),
            _ => if seen.len() == 7 {
                UpdateStepView::Do(UpdateOpView::Restart)
            } else {
                UpdateStepView::Finished {
                    result: Ok(t.report(account(t, text_of(seen[7])))),
                    remove_temp: true,
                }
            },
        }
    }
}

/// How to go on with an update after these replies. Nothing is unpacked or
/// installed before the download was found to be what was released.
pub open spec fn update_step(t: UpdateTarget, seen: Seq<UpdateReply>) -> UpdateStepView {
    if triple_of(t.arch@, t.os@) is None {
        over(no_triple(), false)
    } else if t.dry_run {
        UpdateStepView::Finished { result: Ok(t.report(rehearsal(t))), remove_temp: false }
    } else if seen.len() == 0 {
        UpdateStepView::Do(UpdateOpView::MakeTemp(t.temp@))
    } else {
        match seen[0] {
            UpdateReply::Failed(e) => over(e@, false),
            _ => if seen.len() == 1 {
                UpdateStepView::Do(UpdateOpView::FetchTo { url: t.asset_url(), path: t.tarball() })
            } else {
                match seen[1] {
                    UpdateReply::Failed(e) => over(e@, false),
                    _ => if seen.len() == 2 {
                        UpdateStepView::Do(UpdateOpView::FetchText { url: t.sums_url() })
                    } else {
                        match seen[2] {
                            UpdateReply::Failed(e) => over(e@, false),
                            _ => match sum_in(split(text_of(seen[2]), '\n'), t.asset()) {
                                None => over(
                                    UpdateErrorView::Refused(
                                        "SHA256SUMS has no entry for "@ + t.asset(),
                                    ),
                                    false,
                                ),
                                Some(expected) => if seen.len() == 3 {
                                    UpdateStepView::Do(UpdateOpView::Checksum(t.tarball()))
                                } else {
                                    match seen[3] {
                                        UpdateReply::Failed(e) => over(e@, false),
                                        _ => if expected != text_of(seen[3]) {
                                            over(
                                                UpdateErrorView::Checksum {
                                                    asset: t.asset(),
                                                    expected,
                                                    actual: text_of(seen[3]),
                                                },
                                                true,
                                            )
                                        } else {
                                            verified_step(t, seen)
                                        },
                                    }
                                },
                            },
                        }
                    },
                }
            },
        }
    }
}

fn fail(error: UpdateError, remove_temp: bool) -> (r: UpdateStep)
    ensures
        r@ == over(error@, remove_temp),
{
    UpdateStep::Finished { result: Err(error), remove_temp }
}

fn failure(reply: &UpdateReply) -> (r: Option<UpdateStep>)
    ensures
        match (*reply, r) {
            (UpdateReply::Failed(e), Some(s)) => s@ == over(e@, false),
            (UpdateReply::Failed(_), None) => false,
            (_, None) => true,
            (_, Some(_)) => false,
        },
{
    match reply {
        UpdateReply::Failed(e) => Some(fail(e.clone(), false)),
        _ => None,
    }
}

fn reply_text(reply: &UpdateReply) -> (r: String)
    ensures
        r@ == text_of(*reply),
{
    match reply {
        UpdateReply::Text(t) => t.clone(),
        _ => owned(""),
    }
}

fn is_true(reply: &UpdateReply) -> (r: bool)
    ensures
        r == (*reply == UpdateReply::Flag(true)),
{
    match reply {
        UpdateReply::Flag(b) => *b,
        _ => false,
    }
}

fn backup_of(t: &UpdateTarget) -> (r: String)
    ensures
        r@ == t.backup(),
{
    let name = match file_name(&t.dest) {
        Some(n) => n,
        None => owned("sessionguard"),
    };
    let version = trim_leading(&t.current, 'v');
    with_file_name(&t.dest, &name.concat(".bak-").concat(&version))
}

fn make_report(t: &UpdateTarget, steps: Vec<String>) -> (r: UpdateReport)
    ensures
        r@ == t.report(views(steps@)),
{
    UpdateReport {
        dry_run: t.dry_run,
        from: trim_leading(&t.current, 'v'),
        to: trim_leading(&t.tag, 'v'),
        steps,
        backup: if t.dry_run {
            None
        } else {
            Some(backup_of(t))
        },
    }
}

/// How to go on with an update, after the replies so far.
pub fn perform_update(t: &UpdateTarget, seen: &Vec<UpdateReply>) -> (r: UpdateStep)
    ensures
        r@ == update_step(*t, seen@),
{
    let triple = match target_triple(&t.arch, &t.os) {
        Ok(x) => x,
        Err(e) => {
            return fail(e, false);
        },
    };
    let asset = owned("sessionguard-").concat(&triple).concat(".tar.gz");
    let base = match &t.base_url {
        Some(b) => b.clone(),
        None => owned("https://github.com/").concat(&t.repo).concat("/releases/download/").concat(
            &t.tag,
        ),
    };
    let asset_url = base.clone().concat("/").concat(&asset);
    let sums_url = base.concat("/SHA256SUMS");
    let backup = backup_of(t);
    if t.dry_run {
        let mut steps: Vec<String> = Vec::new();
        steps.push(owned("would download ").concat(&asset_url));
        steps.push(owned("would verify against ").concat(&sums_url));
        steps.push(owned("would back up ").concat(&t.dest).concat(" → ").concat(&backup));
        steps.push(owned("would install ").concat(&t.tag).concat(" to ").concat(&t.dest));
        steps.push(owned("would restart the daemon if running"));
        assert(views(steps@) =~= rehearsal(*t));
        return UpdateStep::Finished { result: Ok(make_report(t, steps)), remove_temp: false };
    }
    let tarball = join_path(&t.temp, &asset);
    if seen.len() == 0 {
        return UpdateStep::Do(UpdateOp::MakeTemp(t.temp.clone()));
    }
    if let Some(s) = failure(&seen[0]) {
        return s;
    }
    if seen.len() == 1 {
        return UpdateStep::Do(UpdateOp::FetchTo { url: asset_url, path: tarball });
    }
    if let Some(s) = failure(&seen[1]) {
        return s;
    }
    if seen.len() == 2 {
        return UpdateStep::Do(UpdateOp::FetchText { url: sums_url });
    }
    if let Some(s) = failure(&seen[2]) {
        return s;
    }
    let sums = reply_text(&seen[2]);
    let expected = match expected_sha(&sums, &asset) {
        Some(x) => x,
        None => {
            return fail(
                UpdateError::Refused(owned("SHA256SUMS has no entry for ").concat(&asset)),
                false,
            );
        },
    };
    if seen.len() == 3 {
        return UpdateStep::Do(UpdateOp::Checksum(tarball));
    }
    if let Some(s) = failure(&seen[3]) {
        return s;
    }
    let actual = reply_text(&seen[3]);
    if !same(&expected, &actual) {
        return fail(UpdateError::Checksum { asset, expected, actual }, true);
    }
    install(t, seen, asset, tarball, backup)
}

fn install(
    t: &UpdateTarget,
    seen: &Vec<UpdateReply>,
    asset: String,
    tarball: String,
    backup: String,
) -> (r: UpdateStep)
    requires
        seen@.len() >= 4,
        !t.dry_run,
        asset@ == t.asset(),
        tarball@ == t.tarball(),
        backup@ == t.backup(),
    ensures
        r@ == verified_step(*t, seen@),
{
    if seen.len() == 4 {
        return UpdateStep::Do(UpdateOp::Unpack { tarball, into: t.temp.clone() });
    }
    if !is_true(&seen[4]) {
        if let Some(s) = failure(&seen[4]) {
            return s;
        }
        return fail(
            UpdateError::Refused(owned("failed to extract the downloaded tarball")),
            true,
        );
    }
    let new_bin = join_path(&t.temp, "sessionguard");
    if seen.len() == 5 {
        return UpdateStep::Do(UpdateOp::Exists(new_bin));
    }
    if !is_true(&seen[5]) {
        return fail(
            UpdateError::Refused(owned("tarball did not contain a `sessionguard` binary")),
            true,
        );
    }
    if seen.len() == 6 {
        return UpdateStep::Do(UpdateOp::Swap { dest: t.dest.clone(), new_bin, backup });
    }
    if let Some(s) = failure(&seen[6]) {
        return s;
    }
    if seen.len() == 7 {
        return UpdateStep::Do(UpdateOp::Restart);
    }
    let mut steps: Vec<String> = Vec::new();
    steps.push(owned("downloaded ").concat(&asset));
    steps.push(owned("verified checksum (").concat(&asset).concat(")"));
    steps.push(owned("installed ").concat(&t.tag).concat("; previous kept at ").concat(&backup));
    steps.push(reply_text(&seen[7]));
    assert(views(steps@) =~= account(*t, text_of(seen@[7])));
    UpdateStep::Finished { result: Ok(make_report(t, steps)), remove_temp: true }
}

/// Nothing is unpacked or installed unless the checksum of the download is the
/// one that was released for it.
pub proof fn lemma_installed_means_verified(t: UpdateTarget, seen: Seq<UpdateReply>)
    requires
        update_step(t, seen) matches UpdateStepView::Do(op) && (op is Unpack || op is Swap
            || op is Restart),
    ensures
        seen.len() >= 4,
        sum_in(split(text_of(seen[2]), '\n'), t.asset()) == Some(text_of(seen[3])),
{
}

/// A rehearsal does nothing.
pub proof fn lemma_rehearsal_does_nothing(t: UpdateTarget, seen: Seq<UpdateReply>)
    requires
        t.dry_run,
    ensures
        update_step(t, seen) is Finished,
{
}

/// The old binary is put aside before the new one is put in its place.
pub proof fn lemma_old_binary_is_kept(
    dest: Seq<char>,
    new_bin: Seq<char>,
    backup: Seq<char>,
    writable: bool,
)
    ensures
        swap_ops(dest, new_bin, backup, writable)[0] == (if writable {
            SwapOpView::Rename { from: dest, to: backup }
        } else {
            SwapOpView::Sudo(seq!["mv"@, dest, backup])
        }),
{
}

/// The tag that an update is to, as it was asked for: with a leading `v`.
pub fn wanted_tag(to: &str) -> (r: String)
    ensures
        r@ == (if to@.len() > 0 && to@[0] == 'v' {
            to@
        } else {
            "v"@ + to@
        }),
{
    proof {
        reveal_strlit("v");
    }
    if crate::text::starts_with(to, "v") {
        assert(to@.subrange(0, 1)[0] == "v"@[0]);
        owned(to)
    } else {
        assert(!(to@.len() > 0 && to@[0] == 'v')) by {
            if to@.len() > 0 && to@[0] == 'v' {
                assert(to@.subrange(0, 1) =~= "v"@);
            }
        }
        owned("v").concat(to)
    }
}

} // verus!
