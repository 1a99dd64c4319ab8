//! What the commands decide and print.
use vstd::prelude::*;

use crate::event_log::LogEntry;
use crate::order::{
    before, is_before, lemma_before_irreflexive, lemma_before_total, lemma_before_transitive,
};
use crate::sorted::{insert_sorted, sorted, Ranked};
use crate::text::{dec, dec_int, decimal, decimal_signed, decimal_wide, owned, views};
use crate::tools::{ToolDefinition, ToolRegistry, ToolView};

verus! {

/// How a command prints what it has found.
#[derive(Debug, Clone, Copy, PartialEq, Eq, Structural)]
pub enum Format {
    /// For people.
    Text,
    /// For programs.
    Json,
}

impl Default for Format {
    fn default() -> (r: Self)
        ensures
            r == Format::Text,
    {
        Format::Text
    }
}

/// What to rehearse.
#[derive(Debug, PartialEq, Eq)]
pub enum SimulateAction {
    /// The move of a project.
    Mv { from: String, to: String },
}

/// What to do with the configuration.
#[derive(Debug, Clone, Copy, PartialEq, Eq, Structural)]
pub enum ConfigAction {
    Show,
    Path,
    Edit,
}

/// What to do with the tools.
#[derive(Debug, Clone, Copy, PartialEq, Eq, Structural)]
pub enum ToolsAction {
    List { verbose: bool, format: Format },
}

/// What to do with the tools where nothing was said.
pub fn tools_action(action: Option<ToolsAction>) -> (r: (bool, Format))
    ensures
        r == (match action {
            Some(ToolsAction::List { verbose, format }) => (verbose, format),
            None => (false, Format::Text),
        }),
{
    match action {
        Some(ToolsAction::List { verbose, format }) => (verbose, format),
        None => (false, Format::Text),
    }
}

/// What to do with the configuration where nothing was said.
pub fn config_action(action: Option<ConfigAction>) -> (r: ConfigAction)
    ensures
        r == (match action {
            Some(a) => a,
            None => ConfigAction::Show,
        }),
{
    match action {
        Some(a) => a,
        None => ConfigAction::Show,
    }
}

/// A quotient, rounded to the nearest number, and to the even one of two.
pub open spec fn half_even(n: nat, d: nat) -> nat {
    let q = n / d;
    let r = n % d;
    if 2 * r > d || (2 * r == d && q % 2 == 1) {
        q + 1
    } else {
        q
    }
}

/// How far apart the numbers near `n` are that have 53 binary digits.
pub open spec fn spacing(n: nat, p: nat) -> nat
    decreases
            (if n >= 0x20_0000_0000_0000 * p {
                n - 0x20_0000_0000_0000 * p + 1
            } else {
                0
            }),
{
    if p == 0 || n < 0x20_0000_0000_0000 * p {
        p
    } else {
        spacing(n, 2 * p)
    }
}

/// The nearest number that has 53 binary digits.
pub open spec fn nearest(n: nat) -> nat {
    half_even(n, spacing(n, 1)) * spacing(n, 1)
}

/// The quotient of the nearest number with 53 binary digits and a unit, in
/// tenths.
pub open spec fn tenths(bytes: nat, unit: nat) -> nat {
    half_even(10 * nearest(bytes), unit)
}

/// A number of tenths.
pub open spec fn tenths_text(t: nat) -> Seq<char> {
    dec(t / 10) + "."@ + dec(t % 10)
}

/// A number of bytes, in the largest unit that it reaches.
pub open spec fn size_text(bytes: u64) -> Seq<char> {
    if bytes >= 0x100_0000_0000 {
        tenths_text(tenths(bytes as nat, 0x100_0000_0000)) + " TB"@
    } else if bytes >= 0x4000_0000 {
        tenths_text(tenths(bytes as nat, 0x4000_0000)) + " GB"@
    } else if bytes >= 0x10_0000 {
        tenths_text(tenths(bytes as nat, 0x10_0000)) + " MB"@
    } else if bytes >= 0x400 {
        tenths_text(tenths(bytes as nat, 0x400)) + " KB"@
    } else {
        dec(bytes as nat) + " B"@
    }
}

fn round_half_even(n: u128, d: u128) -> (r: u128)
    requires
        0 < d <= 0x100_0000_0000,
        n <= 0x1000_0000_0000_0000_0000_0000,
    ensures
        r == half_even(n as nat, d as nat),
        r <= n + 1,
{
    let q: u128 = n / d;
    let m: u128 = n % d;
    assert(q <= n) by (nonlinear_arith)
        requires
            d > 0,
            q == n / d,
    ;
    if 2 * m > d || (2 * m == d && q % 2 == 1) {
        q + 1
    } else {
        q
    }
}

fn tenths_of(bytes: u64, unit: u128) -> (r: u128)
    requires
        0 < unit <= 0x100_0000_0000,
    ensures
        r == tenths(bytes as nat, unit as nat),
{
    let n: u128 = bytes as u128;
    let mut p: u128 = 1;
    while n >= 0x20_0000_0000_0000 * p
        invariant
            n == bytes,
            0 < p <= 4096,
            spacing(n as nat, 1) == spacing(n as nat, p as nat),
        decreases
                (if n >= 0x20_0000_0000_0000 * p {
                    n - 0x20_0000_0000_0000 * p + 1
                } else {
                    0
                }),
    {
        p = 2 * p;
    }
    let q: u128 = round_half_even(n, p);
    assert(q * p <= 0x1_0000_0000_0000_0001 * 4096) by (nonlinear_arith)
        requires
            q <= 0x1_0000_0000_0000_0000,
            p <= 4096,
    ;
    let near: u128 = q * p;
    assert(near == nearest(bytes as nat));
    round_half_even(10 * near, unit)
}

/// A number of bytes, in the largest unit that it reaches.
pub fn fmt_size(bytes: u64) -> (r: String)
    ensures
        r@ == size_text(bytes),
{
    if bytes >= 0x100_0000_0000 {
        in_tenths(tenths_of(bytes, 0x100_0000_0000)).concat(" TB")
    } else if bytes >= 0x4000_0000 {
        in_tenths(tenths_of(bytes, 0x4000_0000)).concat(" GB")
    } else if bytes >= 0x10_0000 {
        in_tenths(tenths_of(bytes, 0x10_0000)).concat(" MB")
    } else if bytes >= 0x400 {
        in_tenths(tenths_of(bytes, 0x400)).concat(" KB")
    } else {
        decimal(bytes).concat(" B")
    }
}

fn in_tenths(t: u128) -> (r: String)
    ensures
        r@ == tenths_text(t as nat),
{
    decimal_wide(t / 10).concat(".").concat(&decimal_wide(t % 10))
}

/// How long ago it was, in the largest unit that fits.
pub open spec fn ago_text(age: u64) -> Seq<char> {
    if age < 60 {
        dec(age as nat) + "s ago"@
    } else if age < 3600 {
        dec((age / 60) as nat) + "m ago"@
    } else if age < 86_400 {
        dec((age / 3600) as nat) + "h ago"@
    } else {
        dec((age / 86_400) as nat) + "d ago"@
    }
}

/// How long ago a time was, in seconds since the epoch both.
pub fn fmt_ago(unix_seconds: u64, now: u64) -> (r: String)
    ensures
        r@ == ago_text(
            if now >= unix_seconds {
                (now - unix_seconds) as u64
            } else {
                0
            },
        ),
{
    let age: u64 = if now >= unix_seconds {
        now - unix_seconds
    } else {
        0
    };
    if age < 60 {
        decimal(age).concat("s ago")
    } else if age < 3600 {
        decimal(age / 60).concat("m ago")
    } else if age < 86_400 {
        decimal(age / 3600).concat("h ago")
    } else {
        decimal(age / 86_400).concat("d ago")
    }
}

/// What an undo is about.
#[derive(Debug, Clone, Copy, PartialEq, Eq, Structural)]
pub enum UndoTarget {
    /// This migration.
    Migration(i64),
    /// The latest migration, where there is one that can be undone; else so
    /// many rewrites.
    LatestMigration { otherwise: usize },
    /// This rewrite.
    Event(i64),
}

/// What an undo is about: the migration that was named, the rewrite that was
/// named, or else the latest migration before the latest rewrites.
pub fn undo_target(last: usize, id: Option<i64>, migration: Option<i64>) -> (r: UndoTarget)
    ensures
        r == (match (migration, id) {
            (Some(m), _) => UndoTarget::Migration(m),
            (None, Some(e)) => UndoTarget::Event(e),
            (None, None) => UndoTarget::LatestMigration {
                otherwise: if last > 1 {
                    last
                } else {
                    1
                },
            },
        }),
{
    match (migration, id) {
        (Some(m), _) => UndoTarget::Migration(m),
        (None, Some(e)) => UndoTarget::Event(e),
        (None, None) => UndoTarget::LatestMigration {
            otherwise: if last > 1 {
                last
            } else {
                1
            },
        },
    }
}

/// Whether a migration can be undone.
#[derive(Debug, Clone, Copy, PartialEq, Eq, Structural)]
pub enum UndoGate {
    Open,
    AlreadyUndone,
    /// What was kept for it is gone.
    CleanedUp,
}

/// Whether a migration can be undone: not twice, and not after what was kept
/// for it was deleted.
pub fn undo_gate(undone: bool, cleaned: bool) -> (r: UndoGate)
    ensures
        r == (if undone {
            UndoGate::AlreadyUndone
        } else if cleaned {
            UndoGate::CleanedUp
        } else {
            UndoGate::Open
        }),
{
    if undone {
        UndoGate::AlreadyUndone
    } else if cleaned {
        UndoGate::CleanedUp
    } else {
        UndoGate::Open
    }
}

/// A recorded rewrite, in one line.
pub fn log_line(e: &LogEntry) -> (r: String)
    ensures
        r@ == "["@ + e.timestamp@ + "] "@ + e.tool_name@ + " "@ + e.file_path@ + " :: "@
            + e.old_value@ + " -> "@ + e.new_value@ + (if e.undone_at is Some {
            " (undone)"@
        } else {
            ""@
        }),
{
    let undone = if e.undone_at.is_some() {
        owned(" (undone)")
    } else {
        owned("")
    };
    owned("[").concat(&e.timestamp).concat("] ").concat(&e.tool_name).concat(" ").concat(
        &e.file_path,
    ).concat(" :: ").concat(&e.old_value).concat(" -> ").concat(&e.new_value).concat(&undone)
}

/// What became of the undo of a rewrite, in one line.
pub fn undo_line(e: &LogEntry, changed: bool, dry_run: bool) -> (r: String)
    ensures
        r@ == "  ["@ + dec_int(e.id as int) + "] "@ + e.tool_name@ + " "@ + e.file_path@ + " :: "@
            + e.new_value@ + " → "@ + e.old_value@ + (if !changed {
            " (no match — file may have been modified)"@
        } else if dry_run {
            " (dry run)"@
        } else {
            ""@
        }),
{
    let note = if !changed {
        owned(" (no match — file may have been modified)")
    } else if dry_run {
        owned(" (dry run)")
    } else {
        owned("")
    };
    owned("  [").concat(&decimal_signed(e.id)).concat("] ").concat(&e.tool_name).concat(
        " ",
    ).concat(&e.file_path).concat(" :: ").concat(&e.new_value).concat(" → ").concat(
        &e.old_value,
    ).concat(&note)
}

impl Ranked for ToolDefinition {
    open spec fn precedes(a: ToolView, b: ToolView) -> bool {
        before(a.name, b.name)
    }

    proof fn lemma_irreflexive(a: ToolView) {
        lemma_before_irreflexive(a.name);
    }

    proof fn lemma_transitive(a: ToolView, b: ToolView, c: ToolView) {
        lemma_before_transitive(a.name, b.name, c.name);
    }

    proof fn lemma_ties(a: ToolView, b: ToolView, c: ToolView) {
        lemma_before_total(a.name, b.name);
    }

    fn comes_before(&self, other: &Self) -> (r: bool) {
        is_before(&self.name, &other.name)
    }
}

/// The registered tools, in the order of their names.
pub fn tools_by_name(registry: &ToolRegistry) -> (r: Vec<ToolDefinition>)
    ensures
        views(r@) == sorted::<ToolDefinition>(registry@),
{
    let tools = registry.all();
    let ghost ts = views(tools@);
    let mut out: Vec<ToolDefinition> = Vec::new();
    let mut i: usize = 0;
    assert(ts.take(0) =~= Seq::<ToolView>::empty());
    assert(views(out@) =~= Seq::<ToolView>::empty());
    while i < tools.len()
        invariant
            ts == views(tools@),
            i <= tools@.len(),
            views(out@) == sorted::<ToolDefinition>(ts.take(i as int)),
        decreases tools@.len() - i,
    {
        proof {
            assert(ts.take(i + 1).drop_last() =~= ts.take(i as int));
            assert(ts.take(i + 1).last() == tools@[i as int]@);
        }
        insert_sorted(&mut out, tools[i].clone());
        i = i + 1;
    }
    assert(ts.take(i as int) =~= ts);
    out
}

} // verus!
