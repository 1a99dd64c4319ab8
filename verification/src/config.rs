//! Configuration: what to watch, how eagerly, and which hosts to ask.
use vstd::prelude::*;

use crate::error::Error;
use crate::paths::{join_path, joined};
use crate::text::{owned, same, trim, trimmed, views};
use crate::tools::ToolDefinition;

verus! {

/// How eagerly moves are watched for.
#[derive(Debug, Clone, Copy, PartialEq, Eq, Structural)]
pub enum WatchMode {
    /// Most responsive.
    Aggressive,
    /// Balanced.
    Balanced,
    /// Least costly.
    Passive,
}

impl Default for WatchMode {
    fn default() -> (r: Self)
        ensures
            r == WatchMode::Balanced,
    {
        WatchMode::Balanced
    }
}

/// A machine whose sessions can be counted over ssh.
#[derive(Debug)]
pub struct HostSpec {
    /// Short name; `local` is reserved for this machine.
    pub name: String,
    /// The ssh destination.
    pub ssh: String,
    /// The binary to run there; `sessionguard` by default.
    pub binary: Option<String>,
}

impl HostSpec {
    /// The binary to run on the host.
    pub fn binary(&self) -> (r: &str)
        ensures
            r@ == (match self.binary {
                Some(b) => b@,
                None => "sessionguard"@,
            }),
    {
        match &self.binary {
            Some(b) => b.as_str(),
            None => "sessionguard",
        }
    }

    /// The name that stands for this machine.
    pub fn local() -> (r: &'static str)
        ensures
            r@ == "local"@,
    {
        "local"
    }
}

/// The whole configuration.
#[derive(Debug)]
pub struct Config {
    /// Directories to watch.
    pub watch_roots: Vec<String>,
    /// How eagerly.
    pub watch_mode: WatchMode,
    /// Tool definitions of the project.
    pub tools: Vec<ToolDefinition>,
    /// Hosts that can be asked for their sessions.
    pub hosts: Vec<HostSpec>,
}

/// The usual configuration, as long as it is not known which of the usual
/// directories there are.
impl Default for Config {
    fn default() -> (r: Self)
        ensures
            r.watch_roots@.len() == 0,
            r.watch_mode == WatchMode::Balanced,
            r.tools@.len() == 0,
            r.hosts@.len() == 0,
            r.sound(),
    {
        Config {
            watch_roots: Vec::new(),
            watch_mode: WatchMode::Balanced,
            tools: Vec::new(),
            hosts: Vec::new(),
        }
    }
}

/// The directories below the home directory that are watched when they exist.
pub open spec fn usual_roots(home: Seq<char>) -> Seq<Seq<char>> {
    seq![
        joined(home, "projects"@),
        joined(home, "repos"@),
        joined(home, "code"@),
        joined(home, "dev"@),
    ]
}

/// The directories worth watching by default, before it is known which exist.
pub fn usual_watch_roots(home: &str) -> (r: Vec<String>)
    ensures
        views(r@) == usual_roots(home@),
{
    let mut r: Vec<String> = Vec::new();
    r.push(join_path(home, "projects"));
    r.push(join_path(home, "repos"));
    r.push(join_path(home, "code"));
    r.push(join_path(home, "dev"));
    assert(views(r@) =~= usual_roots(home@));
    r
}

/// The entries whose flag is set.
pub open spec fn kept(roots: Seq<Seq<char>>, is_dir: Seq<bool>) -> Seq<Seq<char>>
    decreases roots.len(),
{
    if roots.len() == 0 || roots.len() != is_dir.len() {
        Seq::empty()
    } else {
        let rest = kept(roots.drop_last(), is_dir.drop_last());
        if is_dir.last() {
            rest.push(roots.last())
        } else {
            rest
        }
    }
}

/// The default watch roots: those of the usual directories that exist.
pub fn default_watch_roots(home: &str, is_dir: &Vec<bool>) -> (r: Vec<String>)
    requires
        is_dir@.len() == 4,
    ensures
        views(r@) == kept(usual_roots(home@), is_dir@),
{
    let all = usual_watch_roots(home);
    let mut r: Vec<String> = Vec::new();
    let mut i: usize = 0;
    let ghost roots = usual_roots(home@);
    assert(views(r@) =~= Seq::<Seq<char>>::empty());
    while i < all.len()
        invariant
            views(all@) == roots,
            roots.len() == 4,
            is_dir@.len() == 4,
            i <= all@.len(),
            views(r@) == kept(roots.take(i as int), is_dir@.take(i as int)),
        decreases all@.len() - i,
    {
        proof {
            assert(roots.take(i + 1).drop_last() =~= roots.take(i as int));
            assert(is_dir@.take(i + 1).drop_last() =~= is_dir@.take(i as int));
        }
        if is_dir[i] {
            let ghost before = views(r@);
            r.push(all[i].clone());
            assert(views(r@) =~= before.push(roots[i as int]));
        }
        i = i + 1;
    }
    assert(roots.take(i as int) =~= roots);
    assert(is_dir@.take(i as int) =~= is_dir@);
    r
}

/// A host entry on its own is in order.
pub open spec fn host_ok(h: HostSpec) -> bool {
    &&& trimmed(h.name@).len() > 0
    &&& h.name@ != "local"@
    &&& trimmed(h.ssh@).len() > 0
}

/// The host at `i` has the name of an earlier one.
pub open spec fn repeats(hosts: Seq<HostSpec>, i: int) -> bool {
    exists|j: int| 0 <= j < i && (#[trigger] hosts[j]).name@ == hosts[i].name@
}

/// What is wrong with the host at `i`.
pub open spec fn host_fault(hosts: Seq<HostSpec>, i: int) -> Seq<char> {
    let h = hosts[i];
    if trimmed(h.name@).len() == 0 {
        "[[hosts]] entry has an empty `name`"@
    } else if h.name@ == "local"@ {
        "[[hosts]] name `local` is reserved for this machine"@
    } else if trimmed(h.ssh@).len() == 0 {
        "[[hosts]] `"@ + h.name@ + "` has an empty `ssh` destination"@
    } else {
        "[[hosts]] name `"@ + h.name@ + "` is declared twice"@
    }
}

/// The first `n` hosts are in order and have distinct names.
pub open spec fn hosts_ok(hosts: Seq<HostSpec>, n: int) -> bool {
    forall|i: int| 0 <= i < n ==> host_ok(#[trigger] hosts[i]) && !repeats(hosts, i)
}

impl Config {
    /// Every host has a name of its own, other than `local`, and a destination.
    pub open spec fn sound(self) -> bool {
        hosts_ok(self.hosts@, self.hosts@.len() as int)
    }

    /// Reject a configuration that cannot mean what it says; the message is
    /// about the first host that is at fault.
    pub fn validate(&self) -> (r: Result<(), String>)
        ensures
            r is Ok <==> self.sound(),
            r matches Err(e) ==> exists|i: int|
                0 <= i < self.hosts@.len() && hosts_ok(self.hosts@, i) && !(host_ok(
                    self.hosts@[i],
                ) && !repeats(self.hosts@, i)) && e@ == #[trigger] host_fault(self.hosts@, i),
    {
        let mut i: usize = 0;
        while i < self.hosts.len()
            invariant
                i <= self.hosts@.len(),
                hosts_ok(self.hosts@, i as int),
            decreases self.hosts@.len() - i,
        {
            let h = &self.hosts[i];
            let ghost fault = host_fault(self.hosts@, i as int);
            if trim(&h.name).as_str().is_empty() {
                assert(fault == "[[hosts]] entry has an empty `name`"@);
                assert(!host_ok(self.hosts@[i as int]));
                return Err(owned("[[hosts]] entry has an empty `name`"));
            }
            if same(&h.name, "local") {
                assert(fault == "[[hosts]] name `local` is reserved for this machine"@);
                assert(!host_ok(self.hosts@[i as int]));
                return Err(owned("[[hosts]] name `local` is reserved for this machine"));
            }
            if trim(&h.ssh).as_str().is_empty() {
                assert(fault == "[[hosts]] `"@ + h.name@ + "` has an empty `ssh` destination"@);
                assert(!host_ok(self.hosts@[i as int]));
                return Err(
                    owned("[[hosts]] `").concat(&h.name).concat("` has an empty `ssh` destination"),
                );
            }
            let mut j: usize = 0;
            while j < i
                invariant
                    j <= i < self.hosts@.len(),
                    h == self.hosts@[i as int],
                    hosts_ok(self.hosts@, i as int),
                    host_ok(*h),
                    fault == host_fault(self.hosts@, i as int),
                    forall|k: int|
                        0 <= k < j ==> (#[trigger] self.hosts@[k]).name@ != self.hosts@[
                            i as int
                        ].name@,
                decreases i - j,
            {
                if same(&self.hosts[j].name, &h.name) {
                    assert(fault == "[[hosts]] name `"@ + h.name@ + "` is declared twice"@);
                    assert(repeats(self.hosts@, i as int));
                    return Err(
                        owned("[[hosts]] name `").concat(&h.name).concat("` is declared twice"),
                    );
                }
                j = j + 1;
            }
            assert(!repeats(self.hosts@, i as int));
            i = i + 1;
        }
        Ok(())
    }

    /// The configuration read from `path`, unless it is at fault.
    pub fn load_from(self, path: &str) -> (r: Result<Config, Error>)
        ensures
            match r {
                Ok(c) => c == self && self.sound(),
                Err(e) => {
                    &&& !self.sound()
                    &&& e matches Error::Config(m)
                    &&& exists|i: int|
                        0 <= i < self.hosts@.len() && hosts_ok(self.hosts@, i) && !(host_ok(
                            self.hosts@[i],
                        ) && !repeats(self.hosts@, i)) && m@ == path@ + ": "@
                            + #[trigger] host_fault(self.hosts@, i)
                },
            },
    {
        match self.validate() {
            Ok(()) => Ok(self),
            Err(msg) => Err(Error::Config(owned(path).concat(": ").concat(&msg))),
        }
    }

    /// The configuration that was read from its usual place, unless it is at
    /// fault; where there is no file, the usual one, which watches `roots`: the
    /// [`default_watch_roots`].
    pub fn load(read: Option<Config>, path: &str, roots: Vec<String>) -> (r: Result<
        Config,
        Error,
    >)
        ensures
            match (read, r) {
                (Some(c), Ok(d)) => d == c && c.sound(),
                (Some(c), Err(e)) => {
                    &&& !c.sound()
                    &&& e matches Error::Config(m)
                    &&& exists|i: int|
                        0 <= i < c.hosts@.len() && hosts_ok(c.hosts@, i) && !(host_ok(c.hosts@[i])
                            && !repeats(c.hosts@, i)) && m@ == path@ + ": "@
                            + #[trigger] host_fault(c.hosts@, i)
                },
                (None, Ok(d)) => d.watch_roots@ == roots@ && d.watch_mode == WatchMode::Balanced
                    && d.tools@.len() == 0 && d.hosts@.len() == 0,
                (None, Err(_)) => false,
            },
    {
        match read {
            Some(c) => c.load_from(path),
            None => {
                let mut config = Config::default();
                config.watch_roots = roots;
                Ok(config)
            },
        }
    }

    /// Where the configuration lies in its directory.
    pub fn default_path(config_dir: &str) -> (r: String)
        ensures
            r@ == joined(config_dir@, "config.toml"@),
    {
        join_path(config_dir, "config.toml")
    }

    /// The directory for state, from what the environment and the platform say.
    pub fn data_dir(
        overridden: Option<String>,
        platform: Option<String>,
        temp_dir: &str,
        uid: u32,
    ) -> (r: String)
        ensures
            r@ == chosen_dir(overridden, platform, temp_dir@, uid),
    {
        choose_dir(overridden, platform, temp_dir, uid)
    }
}

/// An absolute directory for a user, where the platform names none.
pub open spec fn fallback_dir(temp_dir: Seq<char>, uid: u32) -> Seq<char> {
    joined(temp_dir, "sessionguard-"@ + crate::text::dec(uid as nat))
}

/// An override wins over the platform's directory, which wins over the fallback.
pub open spec fn chosen_dir(
    overridden: Option<String>,
    platform: Option<String>,
    temp_dir: Seq<char>,
    uid: u32,
) -> Seq<char> {
    match overridden {
        Some(d) => d@,
        None => match platform {
            Some(p) => p@,
            None => fallback_dir(temp_dir, uid),
        },
    }
}

fn choose_dir(
    overridden: Option<String>,
    platform: Option<String>,
    temp_dir: &str,
    uid: u32,
) -> (r: String)
    ensures
        r@ == chosen_dir(overridden, platform, temp_dir@, uid),
{
    match overridden {
        Some(d) => d,
        None => match platform {
            Some(p) => p,
            None => fallback_state_dir(temp_dir, uid),
        },
    }
}

/// An absolute directory for a user, where the platform names none.
pub fn fallback_state_dir(temp_dir: &str, uid: u32) -> (r: String)
    ensures
        r@ == fallback_dir(temp_dir@, uid),
{
    let name = owned("sessionguard-").concat(&crate::text::decimal(uid as u64));
    join_path(temp_dir, &name)
}

/// The directory of the configuration, from what the environment and the platform say.
pub fn config_dir(
    overridden: Option<String>,
    platform: Option<String>,
    temp_dir: &str,
    uid: u32,
) -> (r: String)
    ensures
        r@ == chosen_dir(overridden, platform, temp_dir@, uid),
{
    choose_dir(overridden, platform, temp_dir, uid)
}

} // verus!
