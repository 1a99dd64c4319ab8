//! What re-keying does to a store, and that it can be taken back.
use vstd::prelude::*;

use crate::globs::is_pattern;
use crate::paths::parts::{lemma_joined_name, lemma_one_name, lemma_parent};
use crate::paths::{comps, joined, parent_of, same_path};
use crate::rekey::apply::{
    action_step, finished, rollback_of, ActionStepView, StoreOpView, StoreReply,
};
use crate::rekey::plan::{
    dir_rewrites, file_rewrites, first_entries, keyed_dir, records_path, steps, update_text,
    CountedView, SightView,
};
use crate::rekey::tokens::{lemma_fresh_is_reversible, lemma_rewrite_is_undone, token};
use crate::rekey::types::{reversed, RekeyPlanView, StepView};
use crate::text::{occurrences, replaced};
use crate::tools::StoreView;

verus! {

/// A place on a disk: the components of its path. Paths of different
/// components are taken to be different places.
pub type Place = Seq<Seq<char>>;

/// What a store holds.
pub struct Store {
    /// The files, by place.
    pub files: Map<Place, Seq<char>>,
    /// The directories.
    pub dirs: Set<Place>,
    /// The values that a statement may change in a database.
    pub rows: Map<(Seq<char>, Seq<char>), Seq<Seq<char>>>,
}

/// The place is the directory, or lies in it.
pub open spec fn at_or_in(p: Place, dir: Place) -> bool {
    dir.is_prefix_of(p)
}

/// Where something was before the directory `from` became `to`.
pub open spec fn before(p: Place, from: Place, to: Place) -> Place {
    if at_or_in(p, to) {
        from + p.skip(to.len() as int)
    } else {
        p
    }
}

/// The files after a directory was renamed.
pub open spec fn renamed(files: Map<Place, Seq<char>>, from: Place, to: Place) -> Map<
    Place,
    Seq<char>,
> {
    Map::new(
        |p: Place|
            (at_or_in(p, to) || !at_or_in(p, from)) && files.contains_key(before(p, from, to)),
        |p: Place| files[before(p, from, to)],
    )
}

/// The directories after one of them was renamed.
pub open spec fn renamed_dirs(dirs: Set<Place>, from: Place, to: Place) -> Set<Place> {
    Set::new(
        |p: Place| (at_or_in(p, to) || !at_or_in(p, from)) && dirs.contains(before(p, from, to)),
    )
}

/// The directories after one was made, with those above it.
pub open spec fn with_dirs(dirs: Set<Place>, dir: Place) -> Set<Place> {
    Set::new(|p: Place| dirs.contains(p) || p.is_prefix_of(dir))
}

/// The directories after that above the path was made, where there is one.
pub open spec fn with_parent(dirs: Set<Place>, path: Seq<char>) -> Set<Place> {
    match parent_of(path) {
        Some(dir) => with_dirs(dirs, comps(dir)),
        None => dirs,
    }
}

/// The values after those that were the one are the other.
pub open spec fn updated(values: Seq<Seq<char>>, from: Seq<char>, to: Seq<char>) -> Seq<Seq<char>> {
    Seq::new(
        values.len(),
        |i: int|
            if values[i] == from {
                to
            } else {
                values[i]
            },
    )
}

impl Store {
    /// There is something at the place.
    pub open spec fn there(self, p: Place) -> bool {
        self.files.contains_key(p) || self.dirs.contains(p)
    }

    /// What is above anything that is there is a directory.
    pub open spec fn sound(self) -> bool {
        &&& forall|p: Place, q: Place| #[trigger]
            self.dirs.contains(p) && #[trigger] q.is_prefix_of(p) ==> self.dirs.contains(q)
        &&& forall|p: Place, q: Place| #[trigger]
            self.files.contains_key(p) && #[trigger] q.is_prefix_of(p) && q != p
                ==> self.dirs.contains(q)
    }

    /// Nothing is at the place or in it.
    pub open spec fn free(self, dir: Place) -> bool {
        &&& forall|p: Place| #[trigger] self.files.contains_key(p) ==> !at_or_in(p, dir)
        &&& forall|p: Place| #[trigger] self.dirs.contains(p) ==> !at_or_in(p, dir)
    }

    /// The store after an operation.
    pub open spec fn with(self, op: StoreOpView) -> Store {
        match op {
            StoreOpView::CreateDirs(dir) => Store {
                dirs: with_dirs(self.dirs, comps(dir)),
                ..self
            },
            StoreOpView::Rename { from, to } => Store {
                files: renamed(self.files, comps(from), comps(to)),
                dirs: renamed_dirs(self.dirs, comps(from), comps(to)),
                ..self
            },
            StoreOpView::Write { file, text } => Store {
                files: self.files.insert(comps(file), text),
                ..self
            },
            StoreOpView::Update { db, statement, to, from } => if self.rows.contains_key(
                (db, statement),
            ) {
                Store {
                    rows: self.rows.insert(
                        (db, statement),
                        updated(self.rows[(db, statement)], from, to),
                    ),
                    ..self
                }
            } else {
                self
            },
            _ => self,
        }
    }

    /// A reply that tells the truth about an operation. A directory that was
    /// renamed was there, and did not become one inside itself.
    pub open spec fn tells(self, op: StoreOpView, reply: StoreReply) -> bool {
        match op {
            StoreOpView::Exists(path) => reply == StoreReply::Flag(self.there(comps(path))),
            StoreOpView::Read(file) => reply matches StoreReply::Text(t) ==> self.files.contains_key(
                comps(file),
            ) && t@ == self.files[comps(file)],
            StoreOpView::Rename { from, to } => reply is Error || reply is Locked || {
                &&& self.dirs.contains(comps(from))
                &&& !at_or_in(comps(to), comps(from))
            },
            _ => true,
        }
    }

    /// The store after a step.
    pub open spec fn after(self, step: StepView) -> Store {
        match step {
            StepView::RenameDir { from, to } => Store {
                files: renamed(self.files, comps(from), comps(to)),
                dirs: renamed_dirs(with_parent(self.dirs, to), comps(from), comps(to)),
                ..self
            },
            StepView::RewriteJsonValue { file, from, to, .. } => Store {
                files: self.files.insert(
                    comps(file),
                    replaced(self.files[comps(file)], token(from), token(to)),
                ),
                ..self
            },
            StepView::UpdateSqliteRows { db, table, column, from, to, .. } => self.with(
                StoreOpView::Update { db, statement: update_text(table, column), to, from },
            ),
        }
    }

    /// The store after the steps, one after the other.
    pub open spec fn after_all(self, steps: Seq<StepView>) -> Store
        decreases steps.len(),
    {
        if steps.len() == 0 {
            self
        } else {
            self.after(steps[0]).after_all(steps.skip(1))
        }
    }

    /// Nothing that the step puts into the store was in it already.
    pub open spec fn fresh_for(self, step: StepView) -> bool {
        match step {
            StepView::RenameDir { from, to } => {
                &&& self.dirs.contains(comps(from))
                &&& !at_or_in(comps(to), comps(from))
                &&& self.free(comps(to))
            },
            StepView::RewriteJsonValue { file, to, .. } => {
                &&& self.files.contains_key(comps(file))
                &&& occurrences(self.files[comps(file)], token(to)) == 0
            },
            StepView::UpdateSqliteRows { db, table, column, to, .. } => {
                self.rows.contains_key((db, update_text(table, column)))
                    ==> !self.rows[(db, update_text(table, column))].contains(to)
            },
        }
    }

    /// The step meets nothing in its way: the directory that is renamed is
    /// there and the place that it is renamed to is free, and the file that is
    /// rewritten is there.
    pub open spec fn open_to(self, step: StepView) -> bool {
        match step {
            StepView::RenameDir { from, to } => {
                &&& self.dirs.contains(comps(from))
                &&& !at_or_in(comps(to), comps(from))
                &&& self.free(comps(to))
            },
            StepView::RewriteJsonValue { file, .. } => self.files.contains_key(comps(file)),
            StepView::UpdateSqliteRows { .. } => true,
        }
    }

    /// The same for each of the steps, when its turn comes.
    pub open spec fn open_to_all(self, steps: Seq<StepView>) -> bool
        decreases steps.len(),
    {
        steps.len() == 0 || (self.open_to(steps[0]) && self.after(steps[0]).open_to_all(
            steps.skip(1),
        ))
    }

    /// Nothing that a step puts into the store is in it when its turn comes.
    pub open spec fn fresh_for_all(self, steps: Seq<StepView>) -> bool
        decreases steps.len(),
    {
        steps.len() == 0 || (self.fresh_for(steps[0]) && self.after(steps[0]).fresh_for_all(
            steps.skip(1),
        ))
    }
}

/// The replies to a step, each true of the store as it was then.
pub open spec fn replies_to(
    tool: Seq<char>,
    step: StepView,
    store: Store,
    seen: Seq<StoreReply>,
) -> bool
    decreases seen.len(),
{
    seen.len() == 0 || {
        let before = seen.drop_last();
        &&& replies_to(tool, step, store, before)
        &&& action_step(tool, step, before) matches ActionStepView::Do(op) && store_then(
            tool,
            step,
            store,
            before,
        ).tells(op, seen.last())
    }
}

/// The store after the operations that were replied to.
pub open spec fn store_then(
    tool: Seq<char>,
    step: StepView,
    store: Store,
    seen: Seq<StoreReply>,
) -> Store
    decreases seen.len(),
{
    if seen.len() == 0 {
        store
    } else {
        let before = seen.drop_last();
        match action_step(tool, step, before) {
            ActionStepView::Do(op) => store_then(tool, step, store, before).with(op),
            _ => store_then(tool, step, store, before),
        }
    }
}

/// Carrying out a step to its end does to the store what the step says.
pub proof fn lemma_step_is_carried_out(
    tool: Seq<char>,
    step: StepView,
    store: Store,
    seen: Seq<StoreReply>,
)
    requires
        replies_to(tool, step, store, seen),
        action_step(tool, step, seen) == finished(),
    ensures
        store_then(tool, step, store, seen) == store.after(step),
{
    reveal_with_fuel(store_then, 5);
    reveal_with_fuel(replies_to, 5);
    lemma_heads(seen);
    match step {
        StepView::RewriteJsonValue { file, from, to, .. } => {
            assert(seen.len() == 1 || seen.len() == 2);
            let text = replaced(store.files[comps(file)], token(from), token(to));
            if seen.len() == 1 {
                assert(store.files.insert(comps(file), text) =~= store.files);
            }
        },
        _ => {},
    }
}

/// What comes before the last replies.
proof fn lemma_heads(seen: Seq<StoreReply>)
    ensures
        seen.len() > 0 ==> forall|i: int|
            0 <= i < seen.len() - 1 ==> seen.drop_last()[i] == seen[i],
        seen.len() > 1 ==> forall|i: int|
            0 <= i < seen.len() - 2 ==> seen.drop_last().drop_last()[i] == seen[i],
        seen.len() > 2 ==> forall|i: int|
            0 <= i < seen.len() - 3 ==> seen.drop_last().drop_last().drop_last()[i] == seen[i],
{
}

/// A directory that was renamed was there, its new place was free, and the one
/// is not in the other.
proof fn lemma_done_rename_is_fresh(
    tool: Seq<char>,
    from: Seq<char>,
    to: Seq<char>,
    store: Store,
    seen: Seq<StoreReply>,
)
    requires
        store.sound(),
        replies_to(tool, StepView::RenameDir { from, to }, store, seen),
        action_step(tool, StepView::RenameDir { from, to }, seen) == finished(),
    ensures
        store.fresh_for(StepView::RenameDir { from, to }),
{
    reveal_with_fuel(store_then, 5);
    reveal_with_fuel(replies_to, 5);
    lemma_heads(seen);
    lemma_parent(to);
    let f = comps(from);
    let t = comps(to);
    assert(!store.there(t));
    assert(store.free(t)) by {
        assert forall|p: Place| #[trigger] store.files.contains_key(p) implies !at_or_in(p, t) by {
            if at_or_in(p, t) {
                assert(t.is_prefix_of(p));
            }
        }
        assert forall|p: Place| #[trigger] store.dirs.contains(p) implies !at_or_in(p, t) by {
            if at_or_in(p, t) {
                assert(t.is_prefix_of(p));
            }
        }
    }
    assert(!at_or_in(t, f));
    match parent_of(to) {
        Some(q) => {
            let made = store.with(StoreOpView::CreateDirs(q));
            assert(made.dirs.contains(f));
            if f.is_prefix_of(comps(q)) {
                lemma_longer(f, comps(q), t);
            }
        },
        None => {},
    }
}

/// A prefix of all but the last is a prefix.
proof fn lemma_longer(a: Place, b: Place, c: Place)
    requires
        a.is_prefix_of(b),
        b.is_prefix_of(c) || (c.len() > 0 && b == c.drop_last()),
    ensures
        a.is_prefix_of(c),
{
    assert(a =~= c.subrange(0, a.len() as int)) by {
        assert(a =~= b.subrange(0, a.len() as int));
        if b.is_prefix_of(c) {
            assert(b =~= c.subrange(0, b.len() as int));
        }
    }
}

/// A file that was rewritten was there.
proof fn lemma_done_rewrite_had_a_file(
    tool: Seq<char>,
    step: StepView,
    store: Store,
    seen: Seq<StoreReply>,
)
    requires
        step is RewriteJsonValue,
        replies_to(tool, step, store, seen),
        action_step(tool, step, seen) == finished(),
    ensures
        store.files.contains_key(file_of(step)),
{
    reveal_with_fuel(store_then, 5);
    reveal_with_fuel(replies_to, 5);
    lemma_heads(seen);
}

/// No place lies in both of two directories of which neither holds the other.
proof fn lemma_apart(from: Place, to: Place, p: Place)
    requires
        !at_or_in(from, to),
        !at_or_in(to, from),
    ensures
        !(at_or_in(p, from) && at_or_in(p, to)),
{
    if at_or_in(p, from) && at_or_in(p, to) {
        assert(from =~= p.subrange(0, from.len() as int));
        assert(to =~= p.subrange(0, to.len() as int));
        if from.len() <= to.len() {
            assert(from =~= to.subrange(0, from.len() as int));
        } else {
            assert(to =~= from.subrange(0, to.len() as int));
        }
    }
}

/// Below one directory or the other, and back.
proof fn lemma_back_and_forth(from: Place, to: Place, p: Place)
    requires
        at_or_in(p, from),
    ensures
        at_or_in(to + p.skip(from.len() as int), to),
        before(to + p.skip(from.len() as int), from, to) == p,
        before(p, to, from) == to + p.skip(from.len() as int),
{
    let q = to + p.skip(from.len() as int);
    assert(q.subrange(0, to.len() as int) =~= to);
    assert(q.skip(to.len() as int) =~= p.skip(from.len() as int));
    assert(p.subrange(0, from.len() as int) =~= from);
    assert(from + p.skip(from.len() as int) =~= p);
}

proof fn lemma_rename_back(files: Map<Place, Seq<char>>, from: Place, to: Place)
    requires
        !at_or_in(from, to),
        !at_or_in(to, from),
        forall|p: Place| #[trigger] files.contains_key(p) ==> !at_or_in(p, to),
    ensures
        renamed(renamed(files, from, to), to, from) == files,
{
    let there = renamed(files, from, to);
    let back = renamed(there, to, from);
    assert forall|p: Place| #[trigger] back.contains_key(p) == files.contains_key(p) by {
        lemma_apart(from, to, p);
        if at_or_in(p, from) {
            lemma_back_and_forth(from, to, p);
        }
    }
    assert forall|p: Place| #[trigger] files.contains_key(p) implies back[p] == files[p] by {
        lemma_apart(from, to, p);
        if at_or_in(p, from) {
            lemma_back_and_forth(from, to, p);
        }
    }
    assert(back =~= files);
}

/// A directory that was renamed and renamed back leaves the directories as they
/// were, but that those above its new place are there.
proof fn lemma_dirs_back(dirs: Set<Place>, from: Seq<char>, to: Seq<char>)
    requires
        dirs.contains(comps(from)),
        !at_or_in(comps(to), comps(from)),
        forall|p: Place| #[trigger] dirs.contains(p) ==> !at_or_in(p, comps(to)),
        forall|p: Place, q: Place| #[trigger]
            dirs.contains(p) && #[trigger] q.is_prefix_of(p) ==> dirs.contains(q),
    ensures
        ({
            let there = renamed_dirs(with_parent(dirs, to), comps(from), comps(to));
            renamed_dirs(with_parent(there, from), comps(to), comps(from)) == with_parent(dirs, to)
        }),
{
    let f = comps(from);
    let t = comps(to);
    let d1 = with_parent(dirs, to);
    let there = renamed_dirs(d1, f, t);
    let d3 = with_parent(there, from);
    let back = renamed_dirs(d3, t, f);
    lemma_parent(from);
    lemma_parent(to);
    assert(!at_or_in(f, t));
    assert forall|p: Place| #[trigger] d1.contains(p) && !dirs.contains(p) implies !at_or_in(p, t)
        && !at_or_in(p, f) by {
        let q = comps(parent_of(to)->0);
        if at_or_in(p, t) {
            assert(t.len() <= p.len() <= q.len());
        }
        if at_or_in(p, f) {
            lemma_longer(f, p, q);
            lemma_longer(f, q, t);
        }
    }
    assert forall|p: Place| #[trigger] d3.contains(p) && !there.contains(p) implies dirs.contains(p)
        && !at_or_in(p, f) by {
        let q = comps(parent_of(from)->0);
        lemma_longer(p, q, f);
        assert(dirs.contains(p));
        if at_or_in(p, f) {
            assert(f.len() <= p.len() <= q.len());
        }
    }
    assert forall|p: Place| #[trigger] back.contains(p) == d1.contains(p) by {
        lemma_apart(f, t, p);
        if at_or_in(p, f) {
            lemma_back_and_forth(f, t, p);
            let q = t + p.skip(f.len() as int);
            assert(d3.contains(q) == there.contains(q)) by {
                if d3.contains(q) && !there.contains(q) {
                    assert(dirs.contains(q));
                }
            }
        } else if at_or_in(p, t) {
            if d1.contains(p) {
                assert(dirs.contains(p) ==> !at_or_in(p, t));
            }
        } else {
            assert(before(p, t, f) == p);
            assert(before(p, f, t) == p);
        }
    }
    assert(back =~= d1);
}

/// A step that rewrites a file or updates rows is undone by its inverse, where
/// nothing that it puts into the store was in it already.
pub proof fn lemma_step_is_undone(step: StepView, store: Store)
    requires
        store.fresh_for(step),
        !(step is RenameDir),
    ensures
        store.after(step).after(step.inverse()) == store,
        store.after(step).open_to(step.inverse()),
{
    let then = store.after(step);
    let back = then.after(step.inverse());
    match step {
        StepView::RenameDir { .. } => {},
        StepView::RewriteJsonValue { file, from, to, .. } => {
            let text = store.files[comps(file)];
            lemma_fresh_is_reversible(text, from, to);
            lemma_rewrite_is_undone(text, token(from), token(to));
            assert(back.files =~= store.files);
        },
        StepView::UpdateSqliteRows { db, table, column, from, to, .. } => {
            let key = (db, update_text(table, column));
            if store.rows.contains_key(key) {
                let values = store.rows[key];
                assert(updated(updated(values, from, to), to, from) =~= values) by {
                    assert forall|i: int| 0 <= i < values.len() implies updated(
                        updated(values, from, to),
                        to,
                        from,
                    )[i] == values[i] by {
                        assert(values.contains(values[i]));
                    }
                }
                assert(back.rows =~= store.rows);
            }
        },
    }
}

/// A directory that was renamed is renamed back by the inverse, which nothing
/// stands in the way of; the directories above its new place stay.
pub proof fn lemma_rename_is_undone(from: Seq<char>, to: Seq<char>, store: Store)
    requires
        store.sound(),
        store.fresh_for(StepView::RenameDir { from, to }),
    ensures
        ({
            let step = StepView::RenameDir { from, to };
            &&& store.after(step).after(step.inverse()) == (Store {
                dirs: with_parent(store.dirs, to),
                ..store
            })
            &&& store.after(step).open_to(step.inverse())
        }),
{
    let f = comps(from);
    let t = comps(to);
    let step = StepView::RenameDir { from, to };
    let then = store.after(step);
    assert(!at_or_in(f, t));
    lemma_rename_back(store.files, f, t);
    lemma_dirs_back(store.dirs, from, to);
    lemma_parent(to);
    assert(then.dirs.contains(t)) by {
        assert(t.subrange(0, t.len() as int) =~= t);
        assert(before(t, f, t) =~= f);
    }
    assert(then.free(f)) by {
        assert forall|p: Place| #[trigger] then.files.contains_key(p) implies !at_or_in(p, f) by {
            lemma_apart(f, t, p);
        }
        assert forall|p: Place| #[trigger] then.dirs.contains(p) implies !at_or_in(p, f) by {
            lemma_apart(f, t, p);
        }
    }
}

proof fn lemma_after_concat(store: Store, a: Seq<StepView>, b: Seq<StepView>)
    ensures
        store.after_all(a + b) == store.after_all(a).after_all(b),
    decreases a.len(),
{
    if a.len() == 0 {
        assert(a + b =~= b);
    } else {
        assert((a + b)[0] == a[0]);
        assert((a + b).skip(1) =~= a.skip(1) + b);
        lemma_after_concat(store.after(a[0]), a.skip(1), b);
    }
}

proof fn lemma_open_concat(store: Store, a: Seq<StepView>, b: Seq<StepView>)
    requires
        store.open_to_all(a),
        store.after_all(a).open_to_all(b),
    ensures
        store.open_to_all(a + b),
    decreases a.len(),
{
    if a.len() == 0 {
        assert(a + b =~= b);
    } else {
        assert((a + b)[0] == a[0]);
        assert((a + b).skip(1) =~= a.skip(1) + b);
        lemma_open_concat(store.after(a[0]), a.skip(1), b);
    }
}

/// One step before the others, and its inverse after theirs.
proof fn lemma_around(first: StepView, rest: Seq<StepView>, store: Store)
    requires
        ({
            let mid = store.after(first);
            &&& mid.after_all(rest).after_all(reversed(rest)) == mid
            &&& mid.after_all(rest).open_to_all(reversed(rest))
            &&& mid.open_to(first.inverse())
        }),
    ensures
        ({
            let steps = seq![first] + rest;
            &&& store.after_all(steps).after_all(reversed(steps)) == store.after(first).after(
                first.inverse(),
            )
            &&& store.after_all(steps).open_to_all(reversed(steps))
        }),
{
    let steps = seq![first] + rest;
    let mid = store.after(first);
    let last = seq![first.inverse()];
    assert(steps.skip(1) =~= rest);
    assert(reversed(steps) =~= reversed(rest) + last);
    lemma_after_concat(mid.after_all(rest), reversed(rest), last);
    assert(last.skip(1) =~= Seq::<StepView>::empty());
    reveal_with_fuel(Store::after_all, 2);
    reveal_with_fuel(Store::open_to_all, 2);
    assert(mid.open_to_all(last));
    lemma_open_concat(mid.after_all(rest), reversed(rest), last);
}

/// No step renames a directory.
pub open spec fn no_rename(steps: Seq<StepView>) -> bool {
    forall|i: int| 0 <= i < steps.len() ==> !((#[trigger] steps[i]) is RenameDir)
}

proof fn lemma_steps_are_undone(steps: Seq<StepView>, store: Store)
    requires
        no_rename(steps),
        store.fresh_for_all(steps),
    ensures
        store.after_all(steps).after_all(reversed(steps)) == store,
        store.after_all(steps).open_to_all(reversed(steps)),
    decreases steps.len(),
{
    if steps.len() == 0 {
        assert(reversed(steps) =~= Seq::<StepView>::empty());
    } else {
        let first = steps[0];
        let rest = steps.skip(1);
        assert(no_rename(rest)) by {
            assert forall|i: int| 0 <= i < rest.len() implies !((#[trigger] rest[i]) is RenameDir) by {
                assert(rest[i] == steps[i + 1]);
            }
        }
        lemma_steps_are_undone(rest, store.after(first));
        lemma_step_is_undone(first, store);
        lemma_around(first, rest, store);
        assert(seq![first] + rest =~= steps);
    }
}

/// The store with the directories that the steps make and do not take away
/// again: those above the new place of a directory that is renamed first.
pub open spec fn with_made(store: Store, steps: Seq<StepView>) -> Store {
    if steps.len() > 0 && steps[0] is RenameDir {
        Store { dirs: with_parent(store.dirs, steps[0]->RenameDir_to), ..store }
    } else {
        store
    }
}

/// A plan whose first step alone may rename a directory is undone by its
/// inverse, where nothing that it puts into the store was in it already: the
/// files and the rows are as they were, and so are the directories, but for
/// those that were made above the new place. Nothing stands in the way of the
/// inverse.
pub proof fn lemma_plan_is_undone(plan: RekeyPlanView, store: Store)
    requires
        store.sound(),
        no_rename(plan.actions.skip(1)) || no_rename(plan.actions),
        store.fresh_for_all(plan.actions),
    ensures
        store.after_all(plan.actions).after_all(plan.inverse().actions) == with_made(
            store,
            plan.actions,
        ),
        store.after_all(plan.actions).open_to_all(plan.inverse().actions),
{
    let steps = plan.actions;
    if steps.len() > 0 && steps[0] is RenameDir {
        let first = steps[0];
        let rest = steps.skip(1);
        lemma_steps_are_undone(rest, store.after(first));
        lemma_rename_is_undone(first->RenameDir_from, first->RenameDir_to, store);
        lemma_around(first, rest, store);
        assert(seq![first] + rest =~= steps);
    } else {
        assert(no_rename(steps)) by {
            assert forall|i: int| 0 <= i < steps.len() implies !(
            (#[trigger] steps[i]) is RenameDir) by {
                if !no_rename(steps) && i > 0 {
                    assert(steps.skip(1)[i - 1] == steps[i]);
                }
            }
        }
        lemma_steps_are_undone(steps, store);
    }
}

/// A name of a file or a directory.
pub open spec fn is_name(n: Seq<char>) -> bool {
    n.len() > 0 && !n.contains('/') && n != seq!['.']
}

/// What was found is a listing: the entries of a directory have names, each its
/// own, and the files of a walk are different ones.
pub open spec fn is_listing(sight: SightView) -> bool {
    match sight {
        SightView::Dir { entries, .. } => {
            &&& forall|i: int| 0 <= i < entries.len() ==> is_name((#[trigger] entries[i]).name)
            &&& distinct(entries)
        },
        SightView::Files { files } => different(files),
        SightView::Rows { .. } => true,
    }
}

/// The files of a walk are different ones.
pub open spec fn different(files: Seq<CountedView>) -> bool {
    forall|i: int, j: int|
        0 <= i < j < files.len() ==> comps((#[trigger] files[i]).name) != comps(
            (#[trigger] files[j]).name,
        )
}

/// The entries have names of their own.
pub open spec fn distinct(entries: Seq<CountedView>) -> bool {
    forall|i: int, j: int|
        0 <= i < j < entries.len() ==> (#[trigger] entries[i]).name != (
        #[trigger] entries[j]).name
}

/// The file that a step rewrites.
pub open spec fn file_of(step: StepView) -> Place {
    match step {
        StepView::RewriteJsonValue { file, .. } => comps(file),
        _ => seq![],
    }
}

/// Where a file that the steps name was before them.
pub open spec fn origin(steps: Seq<StepView>, p: Place) -> Place {
    if steps.len() > 0 && steps[0] is RenameDir {
        before(p, comps(steps[0]->RenameDir_from), comps(steps[0]->RenameDir_to))
    } else {
        p
    }
}

/// No file and no row that the steps name holds what they put there yet.
pub open spec fn unheld(store: Store, steps: Seq<StepView>) -> bool {
    forall|i: int|
        0 <= i < steps.len() ==> match #[trigger] steps[i] {
            StepView::RenameDir { .. } => true,
            StepView::RewriteJsonValue { to, .. } => occurrences(
                store.files[origin(steps, file_of(steps[i]))],
                token(to),
            ) == 0,
            StepView::UpdateSqliteRows { db, table, column, to, .. } => {
                let key = (db, update_text(table, column));
                store.rows.contains_key(key) ==> !store.rows[key].contains(to)
            },
        }
}

/// Every step was carried out to its end, with replies that were true of the
/// store as it was then.
pub open spec fn carried_out(
    tool: Seq<char>,
    steps: Seq<StepView>,
    store: Store,
    seen: Seq<Seq<StoreReply>>,
) -> bool {
    &&& seen.len() == steps.len()
    &&& forall|i: int|
        0 <= i < steps.len() ==> replies_to(
            tool,
            steps[i],
            store.after_all(steps.take(i)),
            #[trigger] seen[i],
        ) && action_step(tool, steps[i], seen[i]) == finished()
}

/// The files that the steps rewrite are different ones.
spec fn different_files(steps: Seq<StepView>) -> bool {
    forall|i: int, j: int|
        0 <= i < j < steps.len() ==> file_of(#[trigger] steps[i]) != file_of(#[trigger] steps[j])
}

/// Every step rewrites a file.
spec fn all_rewrites(steps: Seq<StepView>) -> bool {
    forall|i: int| 0 <= i < steps.len() ==> (#[trigger] steps[i]) is RewriteJsonValue
}

/// Rewriting other files leaves a file alone.
proof fn lemma_untouched(store: Store, steps: Seq<StepView>, p: Place)
    requires
        all_rewrites(steps),
        forall|i: int| 0 <= i < steps.len() ==> file_of(#[trigger] steps[i]) != p,
    ensures
        store.after_all(steps).files.contains_key(p) == store.files.contains_key(p),
        store.files.contains_key(p) ==> store.after_all(steps).files[p] == store.files[p],
    decreases steps.len(),
{
    if steps.len() > 0 {
        let rest = steps.skip(1);
        assert forall|i: int| 0 <= i < rest.len() implies (#[trigger] rest[i]) is RewriteJsonValue
            && file_of(rest[i]) != p by {
            assert(rest[i] == steps[i + 1]);
        }
        assert(file_of(steps[0]) != p);
        lemma_untouched(store.after(steps[0]), rest, p);
    }
}

/// Steps that are fresh when their turn comes are fresh.
proof fn lemma_each_in_turn(store: Store, steps: Seq<StepView>)
    requires
        forall|i: int|
            0 <= i < steps.len() ==> store.after_all(steps.take(i)).fresh_for(#[trigger] steps[i]),
    ensures
        store.fresh_for_all(steps),
    decreases steps.len(),
{
    if steps.len() > 0 {
        let rest = steps.skip(1);
        let next = store.after(steps[0]);
        assert(steps.take(0) =~= Seq::<StepView>::empty());
        assert(store.after_all(steps.take(0)).fresh_for(steps[0]));
        assert forall|i: int| 0 <= i < rest.len() implies next.after_all(rest.take(i)).fresh_for(
            #[trigger] rest[i],
        ) by {
            assert(rest[i] == steps[i + 1]);
            assert(steps.take(i + 1).skip(1) =~= rest.take(i));
            assert(steps.take(i + 1)[0] == steps[0]);
            assert(store.after_all(steps.take(i + 1)) == next.after_all(rest.take(i)));
        }
        lemma_each_in_turn(next, rest);
    }
}

/// Files that were rewritten, each with a text that does not hold the new path,
/// after a directory was renamed or not.
proof fn lemma_rewrites_are_fresh(
    tool: Seq<char>,
    head: Seq<StepView>,
    rewrites: Seq<StepView>,
    store: Store,
    seen: Seq<Seq<StoreReply>>,
)
    requires
        store.sound(),
        head.len() <= 1,
        head.len() == 1 ==> head[0] is RenameDir,
        all_rewrites(rewrites),
        different_files(rewrites),
        carried_out(tool, head + rewrites, store, seen),
        unheld(store, head + rewrites),
    ensures
        store.fresh_for_all(head + rewrites),
        no_rename((head + rewrites).skip(1)) || no_rename(head + rewrites),
{
    let all = head + rewrites;
    let h = head.len() as int;
    let then = store.after_all(head);
    assert(all.take(h) =~= head);
    if h == 1 {
        assert(all[0] == head[0]);
        assert(all.take(0) =~= Seq::<StepView>::empty());
        lemma_done_rename_is_fresh(
            tool,
            head[0]->RenameDir_from,
            head[0]->RenameDir_to,
            store,
            seen[0],
        );
        reveal_with_fuel(Store::after_all, 2);
        assert(head.skip(1) =~= Seq::<StepView>::empty());
        assert(then == store.after(head[0]));
    }
    assert forall|i: int| 0 <= i < all.len() implies store.after_all(all.take(i)).fresh_for(
        #[trigger] all[i],
    ) by {
        if i < h {
            assert(all.take(0) =~= Seq::<StepView>::empty());
        } else {
            let k = i - h;
            let earlier = rewrites.take(k);
            assert(all[i] == rewrites[k]);
            assert(all.take(i) =~= head + earlier);
            lemma_after_concat(store, head, earlier);
            let now = then.after_all(earlier);
            lemma_done_rewrite_had_a_file(tool, all[i], now, seen[i]);
            let p = file_of(all[i]);
            assert forall|j: int| 0 <= j < earlier.len() implies (
            #[trigger] earlier[j]) is RewriteJsonValue && file_of(earlier[j]) != p by {
                assert(earlier[j] == rewrites[j]);
                assert(file_of(rewrites[j]) != file_of(rewrites[k]));
            }
            lemma_untouched(then, earlier, p);
            assert(then.files.contains_key(p));
            assert(then.files[p] == store.files[origin(all, p)]);
        }
    }
    lemma_each_in_turn(store, all);
    if h == 1 {
        assert(all.skip(1) =~= rewrites);
    } else {
        assert(all =~= rewrites);
    }
}

/// The place of a name in a directory.
proof fn lemma_place_in(dir: Seq<char>, name: Seq<char>)
    requires
        is_name(name),
    ensures
        comps(joined(dir, name)) == comps(dir).push(name),
{
    if dir.len() == 0 {
        lemma_one_name(name);
        assert(name.contains(name[0]));
        assert(joined(dir, name) =~= name);
        assert(crate::paths::spans(dir, 0) =~= Seq::empty());
        assert(comps(dir) =~= Seq::empty());
        assert(comps(dir).push(name) =~= seq![name]);
    } else {
        lemma_joined_name(dir, name);
    }
}

proof fn lemma_dir_rewrites(
    entries: Seq<CountedView>,
    pattern: Seq<char>,
    dir: Seq<char>,
    old: Seq<char>,
    new: Seq<char>,
)
    requires
        distinct(entries),
        forall|i: int| 0 <= i < entries.len() ==> is_name((#[trigger] entries[i]).name),
    ensures
        ({
            let r = dir_rewrites(entries, pattern, dir, old, new);
            &&& all_rewrites(r)
            &&& different_files(r)
            &&& forall|i: int|
                0 <= i < r.len() ==> exists|k: int|
                    0 <= k < entries.len() && file_of(#[trigger] r[i]) == comps(dir).push(
                        (#[trigger] entries[k]).name,
                    )
        }),
    decreases entries.len(),
{
    let r = dir_rewrites(entries, pattern, dir, old, new);
    if entries.len() > 0 {
        let d = entries.drop_last();
        let rest = dir_rewrites(d, pattern, dir, old, new);
        let e = entries.last();
        let n = entries.len() - 1;
        assert(forall|i: int| 0 <= i < d.len() ==> #[trigger] d[i] == entries[i]);
        assert(distinct(d)) by {
            assert forall|i: int, j: int| 0 <= i < j < d.len() implies (#[trigger] d[i]).name != (
            #[trigger] d[j]).name by {
                assert(d[i] == entries[i] && d[j] == entries[j]);
            }
        }
        lemma_dir_rewrites(d, pattern, dir, old, new);
        assert(entries[n] == e);
        lemma_place_in(dir, e.name);
        assert forall|i: int| 0 <= i < r.len() implies exists|k: int|
            0 <= k < entries.len() && file_of(#[trigger] r[i]) == comps(dir).push(
                (#[trigger] entries[k]).name,
            ) by {
            if i < rest.len() {
                assert(r[i] == rest[i]);
                let k = choose|k: int|
                    0 <= k < d.len() && file_of(rest[i]) == comps(dir).push((#[trigger] d[k]).name);
                assert(entries[k] == d[k]);
            } else {
                assert(file_of(r[i]) == comps(dir).push(entries[n].name));
            }
        }
        if records_path(e, pattern) {
            assert forall|i: int| 0 <= i < r.len() implies (
            #[trigger] r[i]) is RewriteJsonValue by {
                if i < rest.len() {
                    assert(r[i] == rest[i]);
                }
            }
            assert forall|i: int, j: int| 0 <= i < j < r.len() implies file_of(#[trigger] r[i])
                != file_of(#[trigger] r[j]) by {
                assert(r[i] == rest[i]);
                if j < rest.len() {
                    assert(r[j] == rest[j]);
                } else {
                    let k = choose|k: int|
                        0 <= k < d.len() && file_of(rest[i]) == comps(dir).push(
                            (#[trigger] d[k]).name,
                        );
                    assert(entries[k].name != entries[n].name);
                    assert(comps(dir).push(d[k].name).last() == entries[k].name);
                    assert(comps(dir).push(e.name).last() == e.name);
                }
            }
        }
    }
}

proof fn lemma_file_rewrites(files: Seq<CountedView>, old: Seq<char>, new: Seq<char>)
    requires
        different(files),
    ensures
        ({
            let r = file_rewrites(files, old, new);
            &&& all_rewrites(r)
            &&& different_files(r)
            &&& forall|i: int|
                0 <= i < r.len() ==> exists|k: int|
                    0 <= k < files.len() && file_of(#[trigger] r[i]) == comps(
                        (#[trigger] files[k]).name,
                    )
        }),
    decreases files.len(),
{
    let r = file_rewrites(files, old, new);
    if files.len() > 0 {
        let d = files.drop_last();
        let rest = file_rewrites(d, old, new);
        let f = files.last();
        let n = files.len() - 1;
        assert(different(d)) by {
            assert forall|i: int, j: int| 0 <= i < j < d.len() implies comps(
                (#[trigger] d[i]).name,
            ) != comps((#[trigger] d[j]).name) by {
                assert(d[i] == files[i] && d[j] == files[j]);
            }
        }
        lemma_file_rewrites(d, old, new);
        assert(files[n] == f);
        assert forall|i: int| 0 <= i < r.len() implies exists|k: int|
            0 <= k < files.len() && file_of(#[trigger] r[i]) == comps((#[trigger] files[k]).name) by {
            if i < rest.len() {
                assert(r[i] == rest[i]);
                let k = choose|k: int|
                    0 <= k < d.len() && file_of(rest[i]) == comps((#[trigger] d[k]).name);
                assert(files[k] == d[k]);
            } else {
                assert(file_of(r[i]) == comps(files[n].name));
            }
        }
        if f.occurrences > 0 {
            assert forall|i: int| 0 <= i < r.len() implies (
            #[trigger] r[i]) is RewriteJsonValue by {
                if i < rest.len() {
                    assert(r[i] == rest[i]);
                }
            }
            assert forall|i: int, j: int| 0 <= i < j < r.len() implies file_of(#[trigger] r[i])
                != file_of(#[trigger] r[j]) by {
                assert(r[i] == rest[i]);
                if j < rest.len() {
                    assert(r[j] == rest[j]);
                } else {
                    let k = choose|k: int|
                        0 <= k < d.len() && file_of(rest[i]) == comps((#[trigger] d[k]).name);
                    assert(files[k] == d[k]);
                    assert(comps(files[k].name) != comps(files[n].name));
                }
            }
        }
    }
}

/// The plan is a rename or none, and then rewrites of different files; or it is
/// an update of rows.
spec fn shaped(actions: Seq<StepView>) -> bool {
    ||| exists|head: Seq<StepView>, rewrites: Seq<StepView>| #[trigger]
        made_of(actions, head, rewrites)
    ||| actions.len() <= 1 && forall|i: int|
        0 <= i < actions.len() ==> (#[trigger] actions[i]) is UpdateSqliteRows
}

spec fn made_of(actions: Seq<StepView>, head: Seq<StepView>, rewrites: Seq<StepView>) -> bool {
    &&& actions == head + rewrites
    &&& head.len() <= 1
    &&& head.len() == 1 ==> head[0] is RenameDir
    &&& all_rewrites(rewrites)
    &&& different_files(rewrites)
}

proof fn lemma_plan_is_shaped(
    home: Seq<char>,
    tool: Seq<char>,
    store: StoreView,
    old: Seq<char>,
    new: Seq<char>,
    sight: SightView,
)
    requires
        is_listing(sight),
    ensures
        steps(home, tool, store, old, new, sight) matches Ok(actions) ==> shaped(actions),
{
    if let Ok(actions) = steps(home, tool, store, old, new, sight) {
        let none = Seq::<StepView>::empty();
        match (store, sight) {
            (
                StoreView::EncodedDir { path, separator, key_glob, key_field },
                SightView::Dir { is_dir, dest_exists, entries },
            ) => {
                let old_dir = keyed_dir(home, path, separator, old);
                let new_dir = keyed_dir(home, path, separator, new);
                let first = first_entries(entries);
                assert(forall|i: int| 0 <= i < first.len() ==> #[trigger] first[i] == entries[i]);
                assert(distinct(first)) by {
                    assert forall|i: int, j: int| 0 <= i < j < first.len() implies (
                    #[trigger] first[i]).name != (#[trigger] first[j]).name by {
                        assert(first[i] == entries[i] && first[j] == entries[j]);
                    }
                }
                if !is_dir {
                    assert(made_of(actions, none, none)) by {
                        assert(none + none =~= actions);
                    }
                } else {
                    let head = if same_path(new_dir, old_dir) {
                        none
                    } else {
                        seq![StepView::RenameDir { from: old_dir, to: new_dir }]
                    };
                    let rewrites = match (key_glob, key_field) {
                        (Some(g), Some(_)) => if is_pattern(g) {
                            dir_rewrites(first, g, new_dir, old, new)
                        } else {
                            none
                        },
                        _ => none,
                    };
                    if let Some(g) = key_glob {
                        lemma_dir_rewrites(first, g, new_dir, old, new);
                    }
                    assert(made_of(actions, head, rewrites));
                }
            },
            (StoreView::JsonlField { .. }, SightView::Files { files }) => {
                lemma_file_rewrites(files, old, new);
                assert(made_of(actions, none, actions)) by {
                    assert(none + actions =~= actions);
                }
            },
            _ => {},
        }
    }
}

proof fn lemma_shaped_head(actions: Seq<StepView>, n: int)
    requires
        shaped(actions),
        0 <= n <= actions.len(),
    ensures
        shaped(actions.take(n)),
{
    if exists|head: Seq<StepView>, rewrites: Seq<StepView>| #[trigger]
        made_of(actions, head, rewrites) {
        let (head, rewrites) = choose|head: Seq<StepView>, rewrites: Seq<StepView>| #[trigger]
            made_of(actions, head, rewrites);
        let h = if n < head.len() {
            n
        } else {
            head.len() as int
        };
        let some = rewrites.take(n - h);
        assert(actions.take(n) =~= head.take(h) + some);
        assert(forall|i: int| 0 <= i < some.len() ==> #[trigger] some[i] == rewrites[i]);
        assert(different_files(some)) by {
            assert forall|i: int, j: int| 0 <= i < j < some.len() implies file_of(
                #[trigger] some[i],
            ) != file_of(#[trigger] some[j]) by {
                assert(some[i] == rewrites[i] && some[j] == rewrites[j]);
            }
        }
        assert(made_of(actions.take(n), head.take(h), some));
    } else {
        assert(forall|i: int| 0 <= i < n ==> #[trigger] actions.take(n)[i] == actions[i]);
    }
}

proof fn lemma_shaped_is_fresh(
    tool: Seq<char>,
    actions: Seq<StepView>,
    store: Store,
    seen: Seq<Seq<StoreReply>>,
)
    requires
        shaped(actions),
        store.sound(),
        carried_out(tool, actions, store, seen),
        unheld(store, actions),
    ensures
        store.fresh_for_all(actions),
        no_rename(actions.skip(1)) || no_rename(actions),
{
    if exists|head: Seq<StepView>, rewrites: Seq<StepView>| #[trigger]
        made_of(actions, head, rewrites) {
        let (head, rewrites) = choose|head: Seq<StepView>, rewrites: Seq<StepView>| #[trigger]
            made_of(actions, head, rewrites);
        lemma_rewrites_are_fresh(tool, head, rewrites, store, seen);
    } else {
        reveal_with_fuel(Store::fresh_for_all, 2);
    }
}

/// What was planned for a store and carried out, as far as the first `n` steps,
/// is undone by the inverses of these steps, where no file and no row that they
/// name held the new path before: the files and the rows are again as they
/// were, and nothing stands in the way. The directories are as they were but
/// for those that were made above the new place of the store's directory; where
/// the directory above it was there before, none were.
pub proof fn lemma_rekey_is_undone(
    home: Seq<char>,
    tool: Seq<char>,
    store: StoreView,
    old: Seq<char>,
    new: Seq<char>,
    sight: SightView,
    on: Store,
    n: int,
    seen: Seq<Seq<StoreReply>>,
)
    requires
        on.sound(),
        is_listing(sight),
        steps(home, tool, store, old, new, sight) matches Ok(actions) && 0 <= n <= actions.len()
            && carried_out(tool, actions.take(n), on, seen) && unheld(on, actions.take(n)),
    ensures
        ({
            let actions = steps(home, tool, store, old, new, sight)->Ok_0;
            let plan = RekeyPlanView { tool, old_path: old, new_path: new, actions };
            let done = on.after_all(actions.take(n));
            let back = rollback_of(plan, n).actions;
            &&& done.after_all(back) == with_made(on, actions.take(n))
            &&& done.open_to_all(back)
            &&& (n > 0 && actions[0] is RenameDir && parent_of(actions[0]->RenameDir_to) is Some
                ==> on.dirs.contains(comps(parent_of(actions[0]->RenameDir_to)->0)))
                ==> done.after_all(back) == on
            &&& n == actions.len() ==> back == plan.inverse().actions
        }),
{
    let actions = steps(home, tool, store, old, new, sight)->Ok_0;
    let some = actions.take(n);
    lemma_plan_is_shaped(home, tool, store, old, new, sight);
    lemma_shaped_head(actions, n);
    lemma_shaped_is_fresh(tool, some, on, seen);
    let part = RekeyPlanView { tool, old_path: old, new_path: new, actions: some };
    lemma_plan_is_undone(part, on);
    if n == actions.len() {
        assert(some =~= actions);
    }
    if n > 0 {
        assert(some[0] == actions[0]);
        if actions[0] is RenameDir {
            let to = actions[0]->RenameDir_to;
            if let Some(q) = parent_of(to) {
                if on.dirs.contains(comps(q)) {
                    assert(with_dirs(on.dirs, comps(q)) =~= on.dirs);
                }
            }
        }
    }
}

/// Where the encoded paths are names, the directory above the store's new one is
/// that above its old one: re-keying makes no other directory.
pub proof fn lemma_names_make_no_directory(base: Seq<char>, a: Seq<char>, b: Seq<char>, on: Store)
    requires
        on.sound(),
        is_name(a),
        is_name(b),
        on.dirs.contains(comps(joined(base, a))),
    ensures
        with_parent(on.dirs, joined(base, b)) == on.dirs,
{
    let p = joined(base, b);
    lemma_place_in(base, a);
    lemma_place_in(base, b);
    lemma_parent(p);
    if let Some(q) = parent_of(p) {
        assert(comps(base).push(b).drop_last() =~= comps(base));
        assert(comps(base).push(a).subrange(0, comps(base).len() as int) =~= comps(base));
        assert(comps(base).is_prefix_of(comps(joined(base, a))));
        assert(on.dirs.contains(comps(base)));
        assert(with_dirs(on.dirs, comps(q)) =~= on.dirs);
    }
}

} // verus!
