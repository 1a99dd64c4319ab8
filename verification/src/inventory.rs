//! Which tools keep data under the home directory, and how much.
use vstd::prelude::*;

use crate::paths::{join_path, joined};
use crate::text::{begins, copy_all, opt_view, owned, same, strip_prefix, views};
use crate::tools::{ToolDefinition, ToolView};

verus! {

/// A path with a leading `~` replaced by the home directory, when there is one.
pub open spec fn expanded(home: Option<Seq<char>>, raw: Seq<char>) -> Seq<char> {
    match home {
        Some(h) => if begins(raw, "~/"@) {
            joined(h, raw.skip(2))
        } else if raw == "~"@ {
            h
        } else {
            raw
        },
        None => raw,
    }
}

/// A path with a leading `~` replaced by the home directory, when there is one.
pub fn expand_home(home: &Option<String>, raw: &str) -> (r: String)
    ensures
        r@ == expanded(opt_view(*home), raw@),
{
    proof {
        reveal_strlit("~/");
    }
    match home {
        None => owned(raw),
        Some(h) => match strip_prefix(raw, "~/") {
            Some(rest) => join_path(h, &rest),
            None => {
                if same(raw, "~") {
                    h.clone()
                } else {
                    owned(raw)
                }
            },
        },
    }
}

/// Files that are counted for one tool, at most.
pub const WALK_FILE_CAP: usize = 200_000;

/// An entry of a directory of a tool's data.
#[derive(Debug, PartialEq, Eq)]
pub enum DataChild {
    /// It could not be read.
    Broken { error: String },
    /// Nothing could be found out about it.
    Unstatted { path: String, error: String },
    Dir { path: String },
    /// Its size, and when it was written, in seconds since the epoch.
    File { len: u64, mtime: Option<i64> },
    /// A link, or something else.
    Other,
}

/// The model of a [`DataChild`].
pub enum DataView {
    Broken { error: Seq<char> },
    Unstatted { path: Seq<char>, error: Seq<char> },
    Dir { path: Seq<char> },
    File { len: u64, mtime: Option<i64> },
    Other,
}

impl View for DataChild {
    type V = DataView;

    open spec fn view(&self) -> DataView {
        match self {
            DataChild::Broken { error } => DataView::Broken { error: error@ },
            DataChild::Unstatted { path, error } => DataView::Unstatted {
                path: path@,
                error: error@,
            },
            DataChild::Dir { path } => DataView::Dir { path: path@ },
            DataChild::File { len, mtime } => DataView::File { len: *len, mtime: *mtime },
            DataChild::Other => DataView::Other,
        }
    }
}

/// A walk through the data of a tool.
#[derive(Debug)]
pub struct DataWalk {
    stack: Vec<String>,
    size: u64,
    count: usize,
    latest: Option<i64>,
    truncated: bool,
    notes: Vec<String>,
}

/// The model of a [`DataWalk`].
pub struct DataWalkView {
    /// The directories still to list, the next one last.
    pub stack: Seq<Seq<char>>,
    pub size: u64,
    pub count: nat,
    pub latest: Option<i64>,
    pub truncated: bool,
    pub notes: Seq<Seq<char>>,
}

impl View for DataWalk {
    type V = DataWalkView;

    closed spec fn view(&self) -> DataWalkView {
        DataWalkView {
            stack: views(self.stack@),
            size: self.size,
            count: self.count as nat,
            latest: self.latest,
            truncated: self.truncated,
            notes: views(self.notes@),
        }
    }
}

/// The sum, or the greatest number there is.
pub open spec fn capped_sum(a: u64, b: u64) -> u64 {
    if a + b > u64::MAX {
        u64::MAX
    } else {
        (a + b) as u64
    }
}

/// The later of two times, as far as they are known.
pub open spec fn later(a: Option<i64>, b: Option<i64>) -> Option<i64> {
    match (a, b) {
        (Some(x), Some(y)) => if y > x {
            Some(y)
        } else {
            Some(x)
        },
        (Some(x), None) => Some(x),
        (None, y) => y,
    }
}

impl DataWalkView {
    /// The walk after one entry. It stops where there are too many files.
    pub open spec fn after(self, child: DataView) -> DataWalkView {
        if self.truncated {
            self
        } else {
            match child {
                DataView::Broken { error } => DataWalkView {
                    notes: self.notes.push("entry error: "@ + error),
                    ..self
                },
                DataView::Unstatted { path, error } => DataWalkView {
                    notes: self.notes.push("stat failed on "@ + path + ": "@ + error),
                    ..self
                },
                DataView::Dir { path } => DataWalkView { stack: self.stack.push(path), ..self },
                DataView::File { len, mtime } => DataWalkView {
                    size: capped_sum(self.size, len),
                    count: self.count + 1,
                    latest: later(self.latest, mtime),
                    truncated: self.count + 1 >= WALK_FILE_CAP,
                    ..self
                },
                DataView::Other => self,
            }
        }
    }

    /// The walk after these entries.
    pub open spec fn after_all(self, children: Seq<DataView>) -> DataWalkView
        decreases children.len(),
    {
        if children.len() == 0 {
            self
        } else {
            self.after_all(children.drop_last()).after(children.last())
        }
    }

    /// The walk after the next directory: its entries, or why it cannot be
    /// listed.
    pub open spec fn listed(self, listing: Result<Seq<DataView>, Seq<char>>) -> DataWalkView {
        let rest = DataWalkView { stack: self.stack.drop_last(), ..self };
        match listing {
            Ok(children) => rest.after_all(children),
            Err(error) => DataWalkView {
                notes: rest.notes.push(
                    "read_dir failed on "@ + self.stack.last() + ": "@ + error,
                ),
                ..rest
            },
        }
    }

    /// The count is below the bound, unless the walk has stopped at it.
    pub open spec fn bounded(self) -> bool {
        &&& self.count <= WALK_FILE_CAP
        &&& self.truncated == (self.count >= WALK_FILE_CAP)
    }
}

/// However much data a tool has, no more than so many files are counted, and a
/// walk that stopped there says so.
pub proof fn lemma_data_walk_is_bounded(w: DataWalkView, children: Seq<DataView>)
    requires
        w.bounded(),
    ensures
        w.after_all(children).bounded(),
    decreases children.len(),
{
    if children.len() > 0 {
        lemma_data_walk_is_bounded(w, children.drop_last());
    }
}

/// What a walk came to.
#[derive(Debug, PartialEq, Eq)]
pub struct DataTally {
    pub size_bytes: u64,
    pub file_count: usize,
    pub last_modified: Option<u64>,
    pub truncated: bool,
    pub notes: Vec<String>,
}

impl DataTally {
    /// No more files were counted than may be, and there is more than was
    /// counted only where as many were.
    pub open spec fn bounded(self) -> bool {
        &&& self.file_count <= WALK_FILE_CAP
        &&& self.truncated == (self.file_count >= WALK_FILE_CAP)
    }
}

/// Every tally is that of a bounded walk.
pub open spec fn all_bounded(tallies: Seq<Option<DataTally>>) -> bool {
    forall|i: int|
        0 <= i < tallies.len() ==> ((#[trigger] tallies[i]) matches Some(t) ==> t.bounded())
}

/// Every entry counts no more files than may be counted, and says that there is
/// more only where as many were.
pub open spec fn entries_bounded(entries: Seq<InventoryView>) -> bool {
    forall|i: int|
        0 <= i < entries.len() ==> (#[trigger] entries[i]).file_count <= WALK_FILE_CAP
            && entries[i].truncated == (entries[i].file_count >= WALK_FILE_CAP)
}

/// The time in seconds since the epoch, when it is not before it.
pub open spec fn since_epoch(t: Option<i64>) -> Option<u64> {
    match t {
        Some(x) => if x >= 0 {
            Some(x as u64)
        } else {
            None
        },
        None => None,
    }
}

impl DataWalk {
    /// Start at a directory.
    pub fn start(path: &str) -> (r: DataWalk)
        ensures
            r@ == (DataWalkView {
                stack: seq![path@],
                size: 0,
                count: 0,
                latest: None,
                truncated: false,
                notes: seq![],
            }),
            r@.bounded(),
    {
        let mut stack: Vec<String> = Vec::new();
        stack.push(owned(path));
        assert(views(stack@) =~= seq![path@]);
        let notes: Vec<String> = Vec::new();
        assert(views(notes@) =~= seq![]);
        DataWalk { stack, size: 0, count: 0, latest: None, truncated: false, notes }
    }

    /// The directory to list next; none when the walk is over.
    pub fn next(&self) -> (r: Option<String>)
        ensures
            match r {
                Some(d) => !self@.truncated && self@.stack.len() > 0 && d@ == self@.stack.last(),
                None => self@.truncated || self@.stack.len() == 0,
            },
    {
        if self.truncated || self.stack.len() == 0 {
            None
        } else {
            assert(self@.stack.last() == self.stack@.last()@);
            Some(self.stack[self.stack.len() - 1].clone())
        }
    }

    /// Take the entries of the next directory, or why it cannot be listed.
    pub fn walk_into(&mut self, listing: &Result<Vec<DataChild>, String>)
        requires
            old(self)@.bounded(),
            !old(self)@.truncated,
            old(self)@.stack.len() > 0,
        ensures
            final(self)@ == old(self)@.listed(
                match *listing {
                    Ok(children) => Ok(views(children@)),
                    Err(e) => Err(e@),
                },
            ),
            final(self)@.bounded(),
    {
        let ghost start = self@;
        let n: usize = self.stack.len();
        assert(start.stack.last() == self.stack@.last()@);
        let dir = self.stack[n - 1].clone();
        self.stack.pop();
        assert(self@.stack =~= start.stack.drop_last());
        let ghost rest = self@;
        match listing {
            Err(e) => {
                let ghost so_far = self@.notes;
                let note = owned("read_dir failed on ").concat(&dir).concat(": ").concat(e);
                let ghost text = note@;
                self.notes.push(note);
                assert(self@.notes =~= so_far.push(text));
            },
            Ok(children) => {
                let ghost cs = views(children@);
                let mut i: usize = 0;
                assert(cs.take(0) =~= Seq::<DataView>::empty());
                while i < children.len() && !self.truncated
                    invariant
                        cs == views(children@),
                        i <= children@.len(),
                        self@ == rest.after_all(cs.take(i as int)),
                        self@.bounded(),
                    decreases children@.len() - i,
                {
                    proof {
                        assert(cs.take(i + 1).drop_last() =~= cs.take(i as int));
                        assert(cs.take(i + 1).last() == children@[i as int]@);
                    }
                    self.take_child(&children[i]);
                    i = i + 1;
                }
                proof {
                    lemma_data_walk_is_bounded(rest, cs);
                    lemma_stopped(rest, cs, i as int);
                }
            },
        }
    }

    fn take_child(&mut self, child: &DataChild)
        requires
            old(self)@.bounded(),
            !old(self)@.truncated,
        ensures
            final(self)@ == old(self)@.after(child@),
            final(self)@.bounded(),
    {
        let ghost notes = self@.notes;
        let ghost stack = self@.stack;
        match child {
            DataChild::Broken { error } => {
                let note = owned("entry error: ").concat(error);
                let ghost text = note@;
                self.notes.push(note);
                assert(self@.notes =~= notes.push(text));
            },
            DataChild::Unstatted { path, error } => {
                let note = owned("stat failed on ").concat(path).concat(": ").concat(error);
                let ghost text = note@;
                self.notes.push(note);
                assert(self@.notes =~= notes.push(text));
            },
            DataChild::Dir { path } => {
                self.stack.push(path.clone());
                assert(self@.stack =~= stack.push(path@));
            },
            DataChild::File { len, mtime } => {
                self.size = if *len > u64::MAX - self.size {
                    u64::MAX
                } else {
                    self.size + *len
                };
                self.count = self.count + 1;
                self.latest = match (self.latest, *mtime) {
                    (Some(x), Some(y)) => if y > x {
                        Some(y)
                    } else {
                        Some(x)
                    },
                    (Some(x), None) => Some(x),
                    (None, y) => y,
                };
                self.truncated = self.count >= WALK_FILE_CAP;
            },
            DataChild::Other => {},
        }
    }

    /// What the walk came to.
    pub fn outcome(self) -> (r: DataTally)
        ensures
            r.size_bytes == self@.size,
            r.file_count == self@.count,
            r.last_modified == since_epoch(self@.latest),
            r.truncated == self@.truncated,
            views(r.notes@) == self@.notes,
            self@.bounded() ==> r.bounded(),
    {
        let last_modified = match self.latest {
            Some(x) => if x >= 0 {
                Some(x as u64)
            } else {
                None
            },
            None => None,
        };
        DataTally {
            size_bytes: self.size,
            file_count: self.count,
            last_modified,
            truncated: self.truncated,
            notes: self.notes,
        }
    }
}

proof fn lemma_stopped(w: DataWalkView, children: Seq<DataView>, i: int)
    requires
        0 <= i <= children.len(),
        i < children.len() ==> w.after_all(children.take(i)).truncated,
    ensures
        w.after_all(children) == w.after_all(children.take(i)),
    decreases children.len() - i,
{
    if i < children.len() {
        assert(children.take(i + 1).drop_last() =~= children.take(i));
        lemma_stopped(w, children, i + 1);
    } else {
        assert(children.take(i) =~= children);
    }
}

/// The data of one tool under the home directory.
#[derive(Debug, PartialEq, Eq)]
pub struct InventoryEntry {
    pub tool_name: String,
    pub display_name: String,
    /// Where the data is, or would be.
    pub path: String,
    pub exists: bool,
    pub size_bytes: u64,
    pub file_count: usize,
    /// When any of it was written last, in seconds since the epoch.
    pub last_modified: Option<u64>,
    /// There is more than was counted.
    pub truncated: bool,
    /// What could not be read.
    pub notes: Vec<String>,
}

/// The model of an [`InventoryEntry`].
pub struct InventoryView {
    pub tool_name: Seq<char>,
    pub display_name: Seq<char>,
    pub path: Seq<char>,
    pub exists: bool,
    pub size_bytes: u64,
    pub file_count: usize,
    pub last_modified: Option<u64>,
    pub truncated: bool,
    pub notes: Seq<Seq<char>>,
}

impl View for InventoryEntry {
    type V = InventoryView;

    open spec fn view(&self) -> InventoryView {
        InventoryView {
            tool_name: self.tool_name@,
            display_name: self.display_name@,
            path: self.path@,
            exists: self.exists,
            size_bytes: self.size_bytes,
            file_count: self.file_count,
            last_modified: self.last_modified,
            truncated: self.truncated,
            notes: views(self.notes@),
        }
    }
}

/// The entry for a tool, by what a walk of its data came to; nothing was
/// walked where there is none.
pub open spec fn entry_of(tool: ToolView, path: Seq<char>, tally: Option<DataTally>) -> InventoryView {
    match tally {
        Some(t) => InventoryView {
            tool_name: tool.name,
            display_name: tool.display_name,
            path,
            exists: true,
            size_bytes: t.size_bytes,
            file_count: t.file_count,
            last_modified: t.last_modified,
            truncated: t.truncated,
            notes: views(t.notes@),
        },
        None => InventoryView {
            tool_name: tool.name,
            display_name: tool.display_name,
            path,
            exists: false,
            size_bytes: 0,
            file_count: 0,
            last_modified: None,
            truncated: false,
            notes: seq![],
        },
    }
}

/// The entries for the tools that keep data under the home directory.
pub open spec fn entries_of(
    tools: Seq<ToolView>,
    home: Option<Seq<char>>,
    tallies: Seq<Option<DataTally>>,
) -> Seq<InventoryView>
    decreases tools.len(),
{
    if tools.len() == 0 {
        seq![]
    } else {
        let rest = entries_of(tools.drop_last(), home, tallies);
        match tools.last().home_dir_layout {
            Some(layout) => rest.push(
                entry_of(
                    tools.last(),
                    expanded(home, layout.default_path),
                    tallies[tools.len() - 1],
                ),
            ),
            None => rest,
        }
    }
}

/// Where the data of a tool is, or would be; nothing for a tool that keeps none
/// under the home directory.
pub fn data_path(tool: &ToolDefinition, home: &Option<String>) -> (r: Option<String>)
    ensures
        opt_view(r) == (match tool@.home_dir_layout {
            Some(layout) => Some(expanded(opt_view(*home), layout.default_path)),
            None => None,
        }),
{
    match &tool.home_dir_layout {
        Some(layout) => Some(expand_home(home, &layout.default_path)),
        None => None,
    }
}

/// The entries for the tools that keep data under the home directory. `tallies`
/// holds, for each tool, what a walk of its data came to, where there is any.
pub fn inventory_tools_impl(
    tools: &Vec<ToolDefinition>,
    home: &Option<String>,
    tallies: &Vec<Option<DataTally>>,
) -> (r: Vec<InventoryEntry>)
    requires
        tallies@.len() == tools@.len(),
    ensures
        views(r@) == entries_of(views(tools@), opt_view(*home), tallies@),
        all_bounded(tallies@) ==> entries_bounded(views(r@)),
{
    let ghost ts = views(tools@);
    let ghost h = opt_view(*home);
    let mut out: Vec<InventoryEntry> = Vec::new();
    let mut i: usize = 0;
    assert(ts.take(0) =~= Seq::<ToolView>::empty());
    assert(views(out@) =~= Seq::<InventoryView>::empty());
    while i < tools.len()
        invariant
            ts == views(tools@),
            h == opt_view(*home),
            tallies@.len() == tools@.len(),
            i <= tools@.len(),
            views(out@) == entries_of(ts.take(i as int), h, tallies@),
        decreases tools@.len() - i,
    {
        let tool = &tools[i];
        let ghost so_far = views(out@);
        proof {
            assert(ts.take(i + 1).drop_last() =~= ts.take(i as int));
            assert(ts.take(i + 1).last() == tool@);
        }
        if let Some(path) = data_path(tool, home) {
            let ghost at = path@;
            let entry = match &tallies[i] {
                Some(t) => InventoryEntry {
                    tool_name: tool.name.clone(),
                    display_name: tool.display_name.clone(),
                    path,
                    exists: true,
                    size_bytes: t.size_bytes,
                    file_count: t.file_count,
                    last_modified: t.last_modified,
                    truncated: t.truncated,
                    notes: copy_all(&t.notes),
                },
                None => {
                    let notes: Vec<String> = Vec::new();
                    assert(views(notes@) =~= seq![]);
                    InventoryEntry {
                        tool_name: tool.name.clone(),
                        display_name: tool.display_name.clone(),
                        path,
                        exists: false,
                        size_bytes: 0,
                        file_count: 0,
                        last_modified: None,
                        truncated: false,
                        notes,
                    }
                },
            };
            assert(entry@ == entry_of(tool@, at, tallies@[i as int]));
            out.push(entry);
            assert(views(out@) =~= so_far.push(entry_of(tool@, at, tallies@[i as int])));
        }
        i = i + 1;
    }
    assert(ts.take(i as int) =~= ts);
    proof {
        if all_bounded(tallies@) {
            lemma_entries_are_bounded(ts, h, tallies@);
        }
    }
    out
}

proof fn lemma_entries_are_bounded(
    tools: Seq<ToolView>,
    home: Option<Seq<char>>,
    tallies: Seq<Option<DataTally>>,
)
    requires
        all_bounded(tallies),
        tools.len() <= tallies.len(),
    ensures
        entries_bounded(entries_of(tools, home, tallies)),
    decreases tools.len(),
{
    if tools.len() > 0 {
        let d = tools.drop_last();
        lemma_entries_are_bounded(d, home, tallies);
        let rest = entries_of(d, home, tallies);
        let all = entries_of(tools, home, tallies);
        let last = tallies[tools.len() - 1];
        assert forall|i: int| 0 <= i < all.len() implies (#[trigger] all[i]).file_count
            <= WALK_FILE_CAP && all[i].truncated == (all[i].file_count >= WALK_FILE_CAP) by {
            if i < rest.len() {
                assert(all[i] == rest[i]);
            }
        }
    }
}

/// The entries for the tools that keep data under the home directory.
pub fn inventory_tools(
    tools: &Vec<ToolDefinition>,
    home: &Option<String>,
    tallies: &Vec<Option<DataTally>>,
) -> (r: Vec<InventoryEntry>)
    requires
        tallies@.len() == tools@.len(),
    ensures
        views(r@) == entries_of(views(tools@), opt_view(*home), tallies@),
        all_bounded(tallies@) ==> entries_bounded(views(r@)),
{
    inventory_tools_impl(tools, home, tallies)
}

} // verus!
