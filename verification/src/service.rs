//! Running the daemon at login: a launchd agent, or a systemd user unit.
//!
//! The definitions are written out here, and the commands that load them are
//! named; writing the files and running the commands is for the caller.
use vstd::prelude::*;

use crate::paths::{components, comps, join_path, joined, path_eq, same_path};
use crate::text::{chars_of, dec, decimal, opt_view, owned, same, split, split_on, views};

verus! {

/// The label of the launchd agent.
pub const LAUNCHD_LABEL: &'static str = "dev.droco.sessionguard";

/// The name of the systemd unit.
pub const SYSTEMD_UNIT: &'static str = "sessionguard.service";

/// Who starts services at login.
#[derive(Debug, Clone, Copy, PartialEq, Eq, Structural)]
pub enum Manager {
    Launchd,
    Systemd,
}

/// A character in XML text.
pub open spec fn xml_char(c: char) -> Seq<char> {
    if c == '&' {
        "&amp;"@
    } else if c == '<' {
        "&lt;"@
    } else if c == '>' {
        "&gt;"@
    } else if c == '"' {
        "&quot;"@
    } else if c == '\'' {
        "&apos;"@
    } else {
        seq![c]
    }
}

/// A text in XML.
pub open spec fn xml_text(s: Seq<char>) -> Seq<char>
    decreases s.len(),
{
    if s.len() == 0 {
        seq![]
    } else {
        xml_text(s.drop_last()) + xml_char(s.last())
    }
}

/// A text in XML.
pub fn xml_escape(s: &str) -> (r: String)
    ensures
        r@ == xml_text(s@),
{
    let v = chars_of(s);
    let mut out = String::new();
    let mut i: usize = 0;
    assert(s@.take(0) =~= Seq::<char>::empty());
    assert(out@ =~= Seq::<char>::empty());
    while i < v.len()
        invariant
            v@ == s@,
            i <= v@.len(),
            out@ == xml_text(s@.take(i as int)),
        decreases v@.len() - i,
    {
        let c = v[i];
        let ghost so_far = out@;
        proof {
            assert(s@.take(i + 1).drop_last() =~= s@.take(i as int));
            assert(s@.take(i + 1).last() == c);
        }
        if c == '&' {
            out.append("&amp;");
        } else if c == '<' {
            out.append("&lt;");
        } else if c == '>' {
            out.append("&gt;");
        } else if c == '"' {
            out.append("&quot;");
        } else if c == '\'' {
            out.append("&apos;");
        } else {
            out.push(c);
            assert(out@ =~= so_far + seq![c]);
        }
        i = i + 1;
    }
    assert(s@.take(i as int) =~= s@);
    out
}

/// No character that is special in XML is left, but for the ampersands that
/// begin what stands for one.
pub proof fn lemma_xml_text_is_plain(s: Seq<char>, i: int)
    requires
        0 <= i < xml_text(s).len(),
    ensures
        xml_text(s)[i] != '<',
        xml_text(s)[i] != '>',
        xml_text(s)[i] != '"',
        xml_text(s)[i] != '\'',
        xml_text(s)[i] == '&' ==> exists|n: int|
            i < n <= xml_text(s).len() && is_entity(#[trigger] xml_text(s).subrange(i, n)),
    decreases s.len(),
{
    reveal_strlit("&amp;");
    reveal_strlit("&lt;");
    reveal_strlit("&gt;");
    reveal_strlit("&quot;");
    reveal_strlit("&apos;");
    let d = xml_text(s.drop_last());
    let c = xml_char(s.last());
    let all = xml_text(s);
    assert(all == d + c);
    if i < d.len() {
        lemma_xml_text_is_plain(s.drop_last(), i);
        assert(all[i] == d[i]);
        if all[i] == '&' {
            let n = choose|n: int| i < n <= d.len() && is_entity(#[trigger] d.subrange(i, n));
            assert(all.subrange(i, n) =~= d.subrange(i, n));
        }
    } else {
        assert(all[i] == c[i - d.len()]);
        if all[i] == '&' {
            assert(i == d.len());
            assert(all.subrange(i, all.len() as int) =~= c);
            assert(is_entity(all.subrange(i, all.len() as int)));
        }
    }
}

/// What stands for a special character.
pub open spec fn is_entity(s: Seq<char>) -> bool {
    s == "&amp;"@ || s == "&lt;"@ || s == "&gt;"@ || s == "&quot;"@ || s == "&apos;"@
}

/// The command line of the daemon.
pub open spec fn daemon_args(exe: Seq<char>, config: Option<Seq<char>>) -> Seq<Seq<char>> {
    match config {
        Some(c) => seq![exe, "--config"@, c, "start"@, "--foreground"@],
        None => seq![exe, "start"@, "--foreground"@],
    }
}

/// The arguments, each in an element of its own.
pub open spec fn args_xml(args: Seq<Seq<char>>) -> Seq<char>
    decreases args.len(),
{
    if args.len() == 0 {
        ""@
    } else {
        args_xml(args.drop_last()) + ("        <string>"@ + xml_text(args.last())
            + "</string>\n"@)
    }
}

/// The definition of the launchd agent. It starts at login, and again after a
/// crash only: after a clean exit it stays stopped.
pub open spec fn plist(exe: Seq<char>, log: Seq<char>, config: Option<Seq<char>>) -> Seq<char> {
    "<?xml version=\"1.0\" encoding=\"UTF-8\"?>\n<!DOCTYPE plist PUBLIC \"-//Apple//DTD PLIST 1.0//EN\" \"http://www.apple.com/DTDs/PropertyList-1.0.dtd\">\n<!-- Written by `sessionguard service install`; remove with `sessionguard service uninstall`. -->\n<plist version=\"1.0\">\n<dict>\n    <key>Label</key>\n    <string>"@
        + LAUNCHD_LABEL@
        + "</string>\n    <key>ProgramArguments</key>\n    <array>\n"@ + args_xml(
        daemon_args(exe, config),
    )
        + "    </array>\n    <!-- Start at login. -->\n    <key>RunAtLoad</key>\n    <true/>\n    <!-- Restart only if it CRASHES: a clean exit (`sessionguard stop`) stays stopped. -->\n    <key>KeepAlive</key>\n    <dict>\n        <key>SuccessfulExit</key>\n        <false/>\n    </dict>\n    <key>ProcessType</key>\n    <string>Background</string>\n    <key>EnvironmentVariables</key>\n    <dict>\n        <key>RUST_LOG</key>\n        <string>info</string>\n    </dict>\n    <key>StandardOutPath</key>\n    <string>"@
        + xml_text(log) + "</string>\n    <key>StandardErrorPath</key>\n    <string>"@ + xml_text(
        log,
    ) + "</string>\n</dict>\n</plist>\n"@
}

/// The definition of the systemd unit. It is started again after a crash only.
pub open spec fn unit(exe: Seq<char>, config: Option<Seq<char>>) -> Seq<char> {
    "# Written by `sessionguard service install`; remove with `sessionguard service uninstall`.\n[Unit]\nDescription=SessionGuard — AI session artifact reconciliation daemon\nDocumentation=https://github.com/PilotDevo/sessionguard\n\n[Service]\nType=simple\nExecStart="@
        + exe + (match config {
        Some(c) => " --config "@ + c,
        None => ""@,
    })
        + " start --foreground\n# Restart only on a crash; `sessionguard stop` (a clean exit) stays stopped.\nRestart=on-failure\nRestartSec=5s\nEnvironment=RUST_LOG=info\n# Not ProtectHome: the daemon rewrites session files under your home.\nPrivateTmp=true\nNoNewPrivileges=true\nProtectSystem=full\n\n[Install]\nWantedBy=default.target\n"@
}

fn list_args(exe: &str, config: &Option<String>) -> (r: Vec<String>)
    ensures
        views(r@) == daemon_args(exe@, opt_view(*config)),
{
    let mut args: Vec<String> = Vec::new();
    args.push(owned(exe));
    if let Some(c) = config {
        args.push(owned("--config"));
        args.push(c.clone());
    }
    args.push(owned("start"));
    args.push(owned("--foreground"));
    assert(views(args@) =~= daemon_args(exe@, opt_view(*config)));
    args
}

/// The definition of the launchd agent.
pub fn render_launchd_plist(exe: &str, log: &str, config: &Option<String>) -> (r: String)
    ensures
        r@ == plist(exe@, log@, opt_view(*config)),
{
    let args = list_args(exe, config);
    let ghost all = views(args@);
    let mut listed = owned("");
    let mut i: usize = 0;
    assert(all.take(0) =~= Seq::<Seq<char>>::empty());
    while i < args.len()
        invariant
            all == views(args@),
            i <= args@.len(),
            listed@ == args_xml(all.take(i as int)),
        decreases args@.len() - i,
    {
        proof {
            assert(all.take(i + 1).drop_last() =~= all.take(i as int));
            assert(all.take(i + 1).last() == args@[i as int]@);
        }
        let line = owned("        <string>").concat(&xml_escape(&args[i])).concat("</string>\n");
        listed.append(&line);
        i = i + 1;
    }
    assert(all.take(i as int) =~= all);
    let log = xml_escape(log);
    owned(
        "<?xml version=\"1.0\" encoding=\"UTF-8\"?>\n<!DOCTYPE plist PUBLIC \"-//Apple//DTD PLIST 1.0//EN\" \"http://www.apple.com/DTDs/PropertyList-1.0.dtd\">\n<!-- Written by `sessionguard service install`; remove with `sessionguard service uninstall`. -->\n<plist version=\"1.0\">\n<dict>\n    <key>Label</key>\n    <string>",
    ).concat(LAUNCHD_LABEL).concat(
        "</string>\n    <key>ProgramArguments</key>\n    <array>\n",
    ).concat(&listed).concat(
        "    </array>\n    <!-- Start at login. -->\n    <key>RunAtLoad</key>\n    <true/>\n    <!-- Restart only if it CRASHES: a clean exit (`sessionguard stop`) stays stopped. -->\n    <key>KeepAlive</key>\n    <dict>\n        <key>SuccessfulExit</key>\n        <false/>\n    </dict>\n    <key>ProcessType</key>\n    <string>Background</string>\n    <key>EnvironmentVariables</key>\n    <dict>\n        <key>RUST_LOG</key>\n        <string>info</string>\n    </dict>\n    <key>StandardOutPath</key>\n    <string>",
    ).concat(&log).concat(
        "</string>\n    <key>StandardErrorPath</key>\n    <string>",
    ).concat(&log).concat("</string>\n</dict>\n</plist>\n")
}

/// The definition of the systemd unit.
pub fn render_systemd_unit(exe: &str, config: &Option<String>) -> (r: String)
    ensures
        r@ == unit(exe@, opt_view(*config)),
{
    let config_arg = match config {
        Some(c) => owned(" --config ").concat(c),
        None => owned(""),
    };
    owned(
        "# Written by `sessionguard service install`; remove with `sessionguard service uninstall`.\n[Unit]\nDescription=SessionGuard — AI session artifact reconciliation daemon\nDocumentation=https://github.com/PilotDevo/sessionguard\n\n[Service]\nType=simple\nExecStart=",
    ).concat(exe).concat(&config_arg).concat(
        " start --foreground\n# Restart only on a crash; `sessionguard stop` (a clean exit) stays stopped.\nRestart=on-failure\nRestartSec=5s\nEnvironment=RUST_LOG=info\n# Not ProtectHome: the daemon rewrites session files under your home.\nPrivateTmp=true\nNoNewPrivileges=true\nProtectSystem=full\n\n[Install]\nWantedBy=default.target\n",
    )
}

fn words2(a: &str, b: &str) -> (r: Vec<String>)
    ensures
        views(r@) == seq![a@, b@],
{
    let mut v: Vec<String> = Vec::new();
    v.push(owned(a));
    v.push(owned(b));
    assert(views(v@) =~= seq![a@, b@]);
    v
}

fn words3(a: &str, b: &str, c: &str) -> (r: Vec<String>)
    ensures
        views(r@) == seq![a@, b@, c@],
{
    let mut v = words2(a, b);
    let ghost first = views(v@);
    v.push(owned(c));
    assert(views(v@) =~= first.push(c@));
    assert(views(v@) =~= seq![a@, b@, c@]);
    v
}

fn words4(a: &str, b: &str, c: &str, d: &str) -> (r: Vec<String>)
    ensures
        views(r@) == seq![a@, b@, c@, d@],
{
    let mut v = words3(a, b, c);
    let ghost first = views(v@);
    v.push(owned(d));
    assert(views(v@) =~= first.push(d@));
    assert(views(v@) =~= seq![a@, b@, c@, d@]);
    v
}

fn words5(a: &str, b: &str, c: &str, d: &str, e: &str) -> (r: Vec<String>)
    ensures
        views(r@) == seq![a@, b@, c@, d@, e@],
{
    let mut v = words4(a, b, c, d);
    let ghost first = views(v@);
    v.push(owned(e));
    assert(views(v@) =~= first.push(e@));
    assert(views(v@) =~= seq![a@, b@, c@, d@, e@]);
    v
}

/// Each list of words, as texts.
pub open spec fn commands(v: Seq<Vec<String>>) -> Seq<Seq<Seq<char>>> {
    Seq::new(v.len(), |i: int| views(v[i]@))
}

/// The agent in launchd's words.
pub open spec fn agent(uid: u32) -> Seq<char> {
    "gui/"@ + dec(uid as nat) + "/"@ + LAUNCHD_LABEL@
}

fn agent_of(uid: u32) -> (r: String)
    ensures
        r@ == agent(uid),
{
    owned("gui/").concat(&decimal(uid as u64)).concat("/").concat(LAUNCHD_LABEL)
}

impl Manager {
    /// Who starts services on this system.
    pub fn current(os: &str) -> (r: Option<Manager>)
        ensures
            r == (if os@ == "macos"@ {
                Some(Manager::Launchd)
            } else if os@ == "linux"@ {
                Some(Manager::Systemd)
            } else {
                None
            }),
    {
        if same(os, "macos") {
            Some(Manager::Launchd)
        } else if same(os, "linux") {
            Some(Manager::Systemd)
        } else {
            None
        }
    }

    /// Where the definition of the service is.
    pub open spec fn place(self, home: Seq<char>) -> Seq<char> {
        match self {
            Manager::Launchd => joined(
                joined(home, "Library/LaunchAgents"@),
                LAUNCHD_LABEL@ + ".plist"@,
            ),
            Manager::Systemd => joined(joined(home, ".config/systemd/user"@), SYSTEMD_UNIT@),
        }
    }

    /// Where the definition of the service is.
    pub fn unit_path(self, home: &str) -> (r: String)
        ensures
            r@ == self.place(home@),
    {
        match self {
            Manager::Launchd => join_path(
                &join_path(home, "Library/LaunchAgents"),
                &owned(LAUNCHD_LABEL).concat(".plist"),
            ),
            Manager::Systemd => join_path(&join_path(home, ".config/systemd/user"), SYSTEMD_UNIT),
        }
    }

    /// The definition of the service.
    pub fn render(self, exe: &str, log: &str, config: &Option<String>) -> (r: String)
        ensures
            r@ == (match self {
                Manager::Launchd => plist(exe@, log@, opt_view(*config)),
                Manager::Systemd => unit(exe@, opt_view(*config)),
            }),
    {
        match self {
            Manager::Launchd => render_launchd_plist(exe, log, config),
            Manager::Systemd => render_systemd_unit(exe, config),
        }
    }

    /// The commands that load the service and start it. The first one for
    /// launchd unloads what was loaded before, and may fail.
    pub fn install_commands(self, unit: &str, uid: u32) -> (r: Vec<Vec<String>>)
        ensures
            commands(r@) == (match self {
                Manager::Launchd => seq![
                    seq!["launchctl"@, "bootout"@, agent(uid)],
                    seq!["launchctl"@, "bootstrap"@, "gui/"@ + dec(uid as nat), unit@],
                ],
                Manager::Systemd => seq![
                    seq!["systemctl"@, "--user"@, "daemon-reload"@],
                    seq!["systemctl"@, "--user"@, "enable"@, "--now"@, SYSTEMD_UNIT@],
                ],
            }),
    {
        let mut out: Vec<Vec<String>> = Vec::new();
        match self {
            Manager::Launchd => {
                let domain = owned("gui/").concat(&decimal(uid as u64));
                out.push(words3("launchctl", "bootout", &agent_of(uid)));
                out.push(words4("launchctl", "bootstrap", &domain, unit));
                assert(commands(out@) =~= seq![
                    seq!["launchctl"@, "bootout"@, agent(uid)],
                    seq!["launchctl"@, "bootstrap"@, "gui/"@ + dec(uid as nat), unit@],
                ]);
            },
            Manager::Systemd => {
                out.push(words3("systemctl", "--user", "daemon-reload"));
                out.push(words5("systemctl", "--user", "enable", "--now", SYSTEMD_UNIT));
                assert(commands(out@) =~= seq![
                    seq!["systemctl"@, "--user"@, "daemon-reload"@],
                    seq!["systemctl"@, "--user"@, "enable"@, "--now"@, SYSTEMD_UNIT@],
                ]);
            },
        }
        out
    }

    /// The commands that stop the service, now and at login.
    pub fn uninstall_commands(self, uid: u32) -> (r: Vec<Vec<String>>)
        ensures
            commands(r@) == (match self {
                Manager::Launchd => seq![seq!["launchctl"@, "bootout"@, agent(uid)]],
                Manager::Systemd => seq![
                    seq!["systemctl"@, "--user"@, "disable"@, "--now"@, SYSTEMD_UNIT@],
                    seq!["systemctl"@, "--user"@, "daemon-reload"@],
                ],
            }),
    {
        let mut out: Vec<Vec<String>> = Vec::new();
        match self {
            Manager::Launchd => {
                out.push(words3("launchctl", "bootout", &agent_of(uid)));
                assert(commands(out@) =~= seq![seq!["launchctl"@, "bootout"@, agent(uid)]]);
            },
            Manager::Systemd => {
                out.push(words5("systemctl", "--user", "disable", "--now", SYSTEMD_UNIT));
                out.push(words3("systemctl", "--user", "daemon-reload"));
                assert(commands(out@) =~= seq![
                    seq!["systemctl"@, "--user"@, "disable"@, "--now"@, SYSTEMD_UNIT@],
                    seq!["systemctl"@, "--user"@, "daemon-reload"@],
                ]);
            },
        }
        out
    }

    /// The command that succeeds when the service is loaded.
    pub fn loaded_check(self, uid: u32) -> (r: Vec<String>)
        ensures
            views(r@) == (match self {
                Manager::Launchd => seq!["launchctl"@, "print"@, agent(uid)],
                Manager::Systemd => seq![
                    "systemctl"@,
                    "--user"@,
                    "is-enabled"@,
                    "--quiet"@,
                    SYSTEMD_UNIT@,
                ],
            }),
    {
        match self {
            Manager::Launchd => words3("launchctl", "print", &agent_of(uid)),
            Manager::Systemd => words5(
                "systemctl",
                "--user",
                "is-enabled",
                "--quiet",
                SYSTEMD_UNIT,
            ),
        }
    }
}

/// Whether the service is installed, by whether its definition is there;
/// nothing where services are not supported.
pub fn is_installed(manager: Option<Manager>, is_file: bool) -> (r: Option<bool>)
    ensures
        r == (match manager {
            Some(_) => Some(is_file),
            None => None,
        }),
{
    match manager {
        Some(_) => Some(is_file),
        None => None,
    }
}

/// Where the program may be found on the search path.
pub open spec fn exe_places(search: Option<Seq<char>>) -> Seq<Seq<char>> {
    match search {
        Some(path) => {
            let dirs = split(path, ':');
            Seq::new(dirs.len(), |i: int| joined(dirs[i], "sessionguard"@))
        },
        None => seq![],
    }
}

/// Where the program may be found on the search path.
pub fn path_entries(search: &Option<String>) -> (r: Vec<String>)
    ensures
        views(r@) == exe_places(opt_view(*search)),
{
    let mut out: Vec<String> = Vec::new();
    if let Some(path) = search {
        let dirs = split_on(path, ':');
        let ghost want = exe_places(opt_view(*search));
        let mut i: usize = 0;
        assert(views(out@) =~= want.take(0));
        while i < dirs.len()
            invariant
                views(dirs@) == split(path@, ':'),
                want.len() == dirs@.len(),
                want == Seq::new(
                    views(dirs@).len(),
                    |i: int| joined(views(dirs@)[i], "sessionguard"@),
                ),
                i <= dirs@.len(),
                views(out@) == want.take(i as int),
            decreases dirs@.len() - i,
        {
            let ghost so_far = views(out@);
            out.push(join_path(&dirs[i], "sessionguard"));
            assert(views(out@) =~= so_far.push(want[i as int]));
            assert(views(out@) =~= want.take(i + 1));
            i = i + 1;
        }
        assert(want.take(i as int) =~= want);
    }
    assert(views(out@) =~= exe_places(opt_view(*search)));
    out
}

/// The first of the places that is the program, or the program's own path.
pub open spec fn stable_path(
    exe: Seq<char>,
    places: Seq<Seq<char>>,
    resolved: Seq<Option<String>>,
) -> Seq<char>
    decreases places.len(),
{
    if places.len() == 0 {
        exe
    } else if resolved[0] matches Some(p) && same_path(p@, exe) {
        places[0]
    } else {
        stable_path(exe, places.skip(1), resolved.skip(1))
    }
}

/// The path that a service should run: an entry of the search path that leads
/// to the running program, since the program's own directory may be one that
/// the next upgrade deletes. `resolved` holds, for each of the
/// [`path_entries`], where it leads to, if it is a file.
pub fn stable_exe_path(
    exe_canonical: &str,
    search: &Option<String>,
    resolved: &Vec<Option<String>>,
) -> (r: String)
    requires
        resolved@.len() == exe_places(opt_view(*search)).len(),
    ensures
        r@ == stable_path(exe_canonical@, exe_places(opt_view(*search)), resolved@),
{
    let places = path_entries(search);
    let ghost ps = views(places@);
    let ghost rs = resolved@;
    let mut i: usize = 0;
    assert(ps.skip(0) =~= ps);
    assert(rs.skip(0) =~= rs);
    while i < places.len()
        invariant
            ps == views(places@),
            ps == exe_places(opt_view(*search)),
            rs == resolved@,
            rs.len() == ps.len(),
            i <= places@.len(),
            stable_path(exe_canonical@, ps, rs) == stable_path(
                exe_canonical@,
                ps.skip(i as int),
                rs.skip(i as int),
            ),
        decreases places@.len() - i,
    {
        assert(ps.skip(i as int)[0] == places@[i as int]@);
        assert(rs.skip(i as int)[0] == resolved@[i as int]);
        assert(ps.skip(i as int).skip(1) =~= ps.skip(i + 1));
        assert(rs.skip(i as int).skip(1) =~= rs.skip(i + 1));
        if let Some(p) = &resolved[i] {
            if path_eq(p, exe_canonical) {
                return places[i].clone();
            }
        }
        i = i + 1;
    }
    owned(exe_canonical)
}

/// A program in a build directory: a service that runs it breaks with the next
/// build.
pub fn looks_like_dev_build(exe: &str) -> (r: bool)
    ensures
        r == comps(exe@).contains("target"@),
{
    let all = components(exe);
    let mut i: usize = 0;
    while i < all.len()
        invariant
            views(all@) == comps(exe@),
            i <= all@.len(),
            forall|j: int| 0 <= j < i ==> (#[trigger] views(all@)[j]) != "target"@,
        decreases all@.len() - i,
    {
        assert(views(all@)[i as int] == all@[i as int]@);
        if same(&all[i], "target") {
            assert(comps(exe@)[i as int] == "target"@);
            return true;
        }
        i = i + 1;
    }
    assert(!comps(exe@).contains("target"@)) by {
        if comps(exe@).contains("target"@) {
            let j = choose|j: int| 0 <= j < comps(exe@).len() && comps(exe@)[j] == "target"@;
            assert(views(all@)[j] != "target"@);
        }
    }
    false
}

} // verus!
