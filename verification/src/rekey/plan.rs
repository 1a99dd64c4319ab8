//! What re-keying a store would change.
use vstd::prelude::*;

use crate::globs::{glob_compile, glob_match, glob_matches, is_pattern, pattern_text};
use crate::inventory::{expand_home, expanded};
use crate::paths::{join_path, joined, path_eq, same_path};
use crate::rekey::types::{
    RekeyAction, RekeyError, RekeyErrorView, RekeyPlan, RekeyPlanView, StepView,
};
use crate::sessions::decode::{encode_project_path, encoded};
use crate::text::{opt_view, owned, views};
use crate::tools::{plain_ident, safe_ident, SessionStore, StoreView};

verus! {

/// Files that are looked at in one store, at most.
pub const REKEY_WALK_CAP: usize = 50_000;

/// The query for the number of rows whose column holds a path.
pub open spec fn count_text(table: Seq<char>, column: Seq<char>) -> Seq<char> {
    "SELECT COUNT(*) FROM "@ + table + " WHERE "@ + column + " = ?1"@
}

/// The statement that changes the rows whose column holds a path.
pub open spec fn update_text(table: Seq<char>, column: Seq<char>) -> Seq<char> {
    "UPDATE "@ + table + " SET "@ + column + " = ?1 WHERE "@ + column + " = ?2"@
}

/// What is to be looked at before a store can be re-keyed.
#[derive(Debug, PartialEq, Eq)]
pub enum Survey {
    /// Whether the one is a directory, with its files, and the other exists.
    Dir { old_dir: String, new_dir: String },
    /// The files under a directory that match a pattern.
    Files { base: String, glob: String },
    /// The rows that a query counts, with the old path for its parameter;
    /// nothing without a query.
    Rows { db: String, query: Option<String> },
}

/// The directory that a store keeps for a project.
pub open spec fn keyed_dir(
    home: Seq<char>,
    path: Seq<char>,
    sep: Seq<char>,
    project: Seq<char>,
) -> Seq<char> {
    joined(expanded(Some(home), path), encoded(project, sep))
}

fn base_of(home: &str, path: &str) -> (r: String)
    ensures
        r@ == expanded(Some(home@), path@),
{
    expand_home(&Some(owned(home)), path)
}

/// What is to be looked at before a store can be re-keyed.
pub fn survey(home: &str, store: &SessionStore, old: &str, new: &str) -> (r: Survey)
    ensures
        match (store@, r) {
            (
                StoreView::EncodedDir { path, separator, .. },
                Survey::Dir { old_dir, new_dir },
            ) => old_dir@ == keyed_dir(home@, path, separator, old@) && new_dir@ == keyed_dir(
                home@,
                path,
                separator,
                new@,
            ),
            (
                StoreView::JsonlField { path, glob, .. },
                Survey::Files { base, glob: g },
            ) => base@ == expanded(Some(home@), path) && g@ == glob,
            (
                StoreView::SqliteColumn { path, table, path_column, .. },
                Survey::Rows { db, query },
            ) => db@ == expanded(Some(home@), path) && opt_view(query) == (if plain_ident(table)
                && plain_ident(path_column) {
                Some(count_text(table, path_column))
            } else {
                None
            }),
            _ => false,
        },
{
    match store {
        SessionStore::EncodedDir { path, separator, .. } => {
            let base = base_of(home, path);
            Survey::Dir {
                old_dir: join_path(&base, &encode_project_path(old, separator)),
                new_dir: join_path(&base, &encode_project_path(new, separator)),
            }
        },
        SessionStore::JsonlField { path, glob, .. } => Survey::Files {
            base: base_of(home, path),
            glob: glob.clone(),
        },
        SessionStore::SqliteColumn { path, table, path_column, .. } => {
            let query = if safe_ident(table) && safe_ident(path_column) {
                Some(
                    owned("SELECT COUNT(*) FROM ").concat(table).concat(" WHERE ").concat(
                        path_column,
                    ).concat(" = ?1"),
                )
            } else {
                None
            };
            Survey::Rows { db: base_of(home, path), query }
        },
    }
}

/// An entry of a store, and how often it holds the old path as a JSON string
/// of its own; never when it cannot be read.
#[derive(Debug, PartialEq, Eq)]
pub struct CountedFile {
    /// Its name in a directory of the store, or its path.
    pub name: String,
    pub is_file: bool,
    pub occurrences: usize,
}

/// The model of a [`CountedFile`].
pub struct CountedView {
    pub name: Seq<char>,
    pub is_file: bool,
    pub occurrences: usize,
}

impl View for CountedFile {
    type V = CountedView;

    open spec fn view(&self) -> CountedView {
        CountedView { name: self.name@, is_file: self.is_file, occurrences: self.occurrences }
    }
}

/// What was found in a store.
#[derive(Debug, PartialEq, Eq)]
pub enum StoreSight {
    Dir { is_dir: bool, dest_exists: bool, entries: Vec<CountedFile> },
    Files { files: Vec<CountedFile> },
    Rows { is_file: bool, rows: Result<i64, String> },
}

/// The model of a [`StoreSight`].
pub enum SightView {
    Dir { is_dir: bool, dest_exists: bool, entries: Seq<CountedView> },
    Files { files: Seq<CountedView> },
    Rows { is_file: bool, rows: Result<i64, Seq<char>> },
}

impl View for StoreSight {
    type V = SightView;

    open spec fn view(&self) -> SightView {
        match self {
            StoreSight::Dir { is_dir, dest_exists, entries } => SightView::Dir {
                is_dir: *is_dir,
                dest_exists: *dest_exists,
                entries: views(entries@),
            },
            StoreSight::Files { files } => SightView::Files { files: views(files@) },
            StoreSight::Rows { is_file, rows } => SightView::Rows {
                is_file: *is_file,
                rows: match rows {
                    Ok(n) => Ok(*n),
                    Err(e) => Err(e@),
                },
            },
        }
    }
}

/// What was found is of the store's kind.
pub open spec fn fits(store: StoreView, sight: SightView) -> bool {
    match (store, sight) {
        (StoreView::EncodedDir { .. }, SightView::Dir { .. }) => true,
        (StoreView::JsonlField { .. }, SightView::Files { .. }) => true,
        (StoreView::SqliteColumn { .. }, SightView::Rows { .. }) => true,
        _ => false,
    }
}

/// A file of a directory that records the path of the project.
pub open spec fn records_path(e: CountedView, pattern: Seq<char>) -> bool {
    e.is_file && glob_match(pattern, e.name) && e.occurrences > 0
}

/// The rewrites of the files that record the path, under the new directory.
pub open spec fn dir_rewrites(
    entries: Seq<CountedView>,
    pattern: Seq<char>,
    new_dir: Seq<char>,
    old: Seq<char>,
    new: Seq<char>,
) -> Seq<StepView>
    decreases entries.len(),
{
    if entries.len() == 0 {
        seq![]
    } else {
        let rest = dir_rewrites(entries.drop_last(), pattern, new_dir, old, new);
        let e = entries.last();
        if records_path(e, pattern) {
            rest.push(
                StepView::RewriteJsonValue {
                    file: joined(new_dir, e.name),
                    from: old,
                    to: new,
                    occurrences: e.occurrences,
                },
            )
        } else {
            rest
        }
    }
}

/// The rewrites of the files that hold the path.
pub open spec fn file_rewrites(files: Seq<CountedView>, old: Seq<char>, new: Seq<char>) -> Seq<
    StepView,
>
    decreases files.len(),
{
    if files.len() == 0 {
        seq![]
    } else {
        let rest = file_rewrites(files.drop_last(), old, new);
        let f = files.last();
        if f.occurrences > 0 {
            rest.push(
                StepView::RewriteJsonValue {
                    file: f.name,
                    from: old,
                    to: new,
                    occurrences: f.occurrences,
                },
            )
        } else {
            rest
        }
    }
}

/// The entries that are looked at.
pub open spec fn first_entries(entries: Seq<CountedView>) -> Seq<CountedView> {
    if entries.len() > REKEY_WALK_CAP {
        entries.take(REKEY_WALK_CAP as int)
    } else {
        entries
    }
}

/// The steps of the plan, or why there is none.
pub open spec fn steps(
    home: Seq<char>,
    tool: Seq<char>,
    store: StoreView,
    old: Seq<char>,
    new: Seq<char>,
    sight: SightView,
) -> Result<Seq<StepView>, RekeyErrorView> {
    match (store, sight) {
        (
            StoreView::EncodedDir { path, separator, key_glob, key_field },
            SightView::Dir { is_dir, dest_exists, entries },
        ) => {
            let old_dir = keyed_dir(home, path, separator, old);
            let new_dir = keyed_dir(home, path, separator, new);
            let stays = same_path(new_dir, old_dir);
            if !is_dir {
                Ok(seq![])
            } else if !stays && dest_exists {
                Err(RekeyErrorView::DestinationExists { tool, dest: new_dir })
            } else {
                let rename = if stays {
                    seq![]
                } else {
                    seq![StepView::RenameDir { from: old_dir, to: new_dir }]
                };
                let rewrites = match (key_glob, key_field) {
                    (Some(g), Some(_)) => if is_pattern(g) {
                        dir_rewrites(first_entries(entries), g, new_dir, old, new)
                    } else {
                        seq![]
                    },
                    _ => seq![],
                };
                Ok(rename + rewrites)
            }
        },
        (StoreView::JsonlField { .. }, SightView::Files { files }) => Ok(
            file_rewrites(files, old, new),
        ),
        (
            StoreView::SqliteColumn { path, table, path_column, .. },
            SightView::Rows { is_file, rows },
        ) => {
            let db = expanded(Some(home), path);
            if !is_file || !plain_ident(table) || !plain_ident(path_column) {
                Ok(seq![])
            } else {
                match rows {
                    Ok(n) => if n > 0 {
                        Ok(
                            seq![
                                StepView::UpdateSqliteRows {
                                    db,
                                    table,
                                    column: path_column,
                                    from: old,
                                    to: new,
                                    rows: n as usize,
                                },
                            ],
                        )
                    } else {
                        Ok(seq![])
                    },
                    Err(detail) => Err(RekeyErrorView::Failed { tool, path: db, detail }),
                }
            }
        },
        _ => Ok(seq![]),
    }
}

fn plan_dir(
    entries: &Vec<CountedFile>,
    pattern: &glob::Pattern,
    new_dir: &str,
    old_path: &str,
    new_path: &str,
    out: &mut Vec<RekeyAction>,
)
    ensures
        views(final(out)@) == views(old(out)@) + dir_rewrites(
            first_entries(views(entries@)),
            pattern_text(*pattern),
            new_dir@,
            old_path@,
            new_path@,
        ),
{
    let ghost start = views(out@);
    let ghost es = first_entries(views(entries@));
    let ghost p = pattern_text(*pattern);
    let n: usize = if entries.len() > REKEY_WALK_CAP {
        REKEY_WALK_CAP
    } else {
        entries.len()
    };
    let mut i: usize = 0;
    assert(es.take(0) =~= Seq::<CountedView>::empty());
    assert(views(out@) =~= start + Seq::<StepView>::empty());
    while i < n
        invariant
            es == first_entries(views(entries@)),
            es.len() == n,
            n <= entries@.len(),
            i <= n,
            p == pattern_text(*pattern),
            views(out@) == start + dir_rewrites(es.take(i as int), p, new_dir@, old_path@, new_path@),
        decreases n - i,
    {
        let e = &entries[i];
        let ghost so_far = views(out@);
        proof {
            assert(es.take(i + 1).drop_last() =~= es.take(i as int));
            assert(es.take(i + 1).last() == e@);
        }
        if e.is_file && glob_matches(pattern, &e.name) && e.occurrences > 0 {
            let step = RekeyAction::RewriteJsonValue {
                file: join_path(new_dir, &e.name),
                from: owned(old_path),
                to: owned(new_path),
                occurrences: e.occurrences,
            };
            out.push(step);
            assert(views(out@) =~= so_far.push(step@));
            assert(views(out@) =~= start + dir_rewrites(es.take(i + 1), p, new_dir@, old_path@, new_path@));
        }
        i = i + 1;
    }
    assert(es.take(i as int) =~= es);
}

fn plan_files(files: &Vec<CountedFile>, old: &str, new: &str) -> (r: Vec<RekeyAction>)
    ensures
        views(r@) == file_rewrites(views(files@), old@, new@),
{
    let ghost fs = views(files@);
    let mut out: Vec<RekeyAction> = Vec::new();
    let mut i: usize = 0;
    assert(fs.take(0) =~= Seq::<CountedView>::empty());
    assert(views(out@) =~= Seq::<StepView>::empty());
    while i < files.len()
        invariant
            fs == views(files@),
            i <= files@.len(),
            views(out@) == file_rewrites(fs.take(i as int), old@, new@),
        decreases files@.len() - i,
    {
        let f = &files[i];
        let ghost so_far = views(out@);
        proof {
            assert(fs.take(i + 1).drop_last() =~= fs.take(i as int));
            assert(fs.take(i + 1).last() == f@);
        }
        if f.occurrences > 0 {
            let step = RekeyAction::RewriteJsonValue {
                file: f.name.clone(),
                from: owned(old),
                to: owned(new),
                occurrences: f.occurrences,
            };
            out.push(step);
            assert(views(out@) =~= so_far.push(step@));
        }
        i = i + 1;
    }
    assert(fs.take(i as int) =~= fs);
    out
}

/// Plan the re-key of one tool's store, from what was found in it. Both keys
/// of a directory move: its name, and the path that its files record.
pub fn plan(
    home: &str,
    tool: &str,
    store: &SessionStore,
    old_path: &str,
    new_path: &str,
    sight: &StoreSight,
) -> (r: Result<RekeyPlan, RekeyError>)
    requires
        fits(store@, sight@),
        sight@ matches SightView::Rows { rows: Ok(n), .. } ==> n <= usize::MAX,
    ensures
        match (steps(home@, tool@, store@, old_path@, new_path@, sight@), r) {
            (Ok(actions), Ok(p)) => p@ == (RekeyPlanView {
                tool: tool@,
                old_path: old_path@,
                new_path: new_path@,
                actions,
            }),
            (Err(e), Err(f)) => f@ == e,
            _ => false,
        },
{
    let mut actions: Vec<RekeyAction> = Vec::new();
    assert(views(actions@) =~= Seq::<StepView>::empty());
    match (store, sight) {
        (
            SessionStore::EncodedDir { path, separator, key_glob, key_field },
            StoreSight::Dir { is_dir, dest_exists, entries },
        ) => {
            if *is_dir {
                let base = base_of(home, path);
                let old_dir = join_path(&base, &encode_project_path(old_path, separator));
                let new_dir = join_path(&base, &encode_project_path(new_path, separator));
                let stays = path_eq(&new_dir, &old_dir);
                if !stays && *dest_exists {
                    return Err(
                        RekeyError::DestinationExists { tool: owned(tool), dest: new_dir },
                    );
                }
                let ghost rename = if stays {
                    seq![]
                } else {
                    seq![StepView::RenameDir { from: old_dir@, to: new_dir@ }]
                };
                if !stays {
                    let step = RekeyAction::RenameDir { from: old_dir, to: new_dir.clone() };
                    actions.push(step);
                    assert(views(actions@) =~= rename);
                }
                assert(views(actions@) =~= rename);
                assert(views(actions@) =~= rename + Seq::<StepView>::empty());
                if let (Some(g), Some(_)) = (key_glob, key_field) {
                    if let Some(pattern) = glob_compile(g) {
                        plan_dir(entries, &pattern, &new_dir, old_path, new_path, &mut actions);
                    }
                }
            }
        },
        (SessionStore::JsonlField { .. }, StoreSight::Files { files }) => {
            actions = plan_files(files, old_path, new_path);
        },
        (
            SessionStore::SqliteColumn { path, table, path_column, .. },
            StoreSight::Rows { is_file, rows },
        ) => {
            if *is_file && safe_ident(table) && safe_ident(path_column) {
                let db = base_of(home, path);
                match rows {
                    Ok(n) => {
                        if *n > 0 {
                            let step = RekeyAction::UpdateSqliteRows {
                                db,
                                table: table.clone(),
                                column: path_column.clone(),
                                from: owned(old_path),
                                to: owned(new_path),
                                rows: *n as usize,
                            };
                            actions.push(step);
                            assert(views(actions@) =~= seq![step@]);
                        }
                    },
                    Err(detail) => {
                        return Err(
                            RekeyError::Failed {
                                tool: owned(tool),
                                path: db,
                                detail: detail.clone(),
                            },
                        );
                    },
                }
            }
        },
        _ => {},
    }
    Ok(
        RekeyPlan {
            tool: owned(tool),
            old_path: owned(old_path),
            new_path: owned(new_path),
            actions,
        },
    )
}

/// Two projects' histories are never merged: where the directory of the new
/// path exists beside that of the old one, there is no plan.
pub proof fn lemma_histories_are_not_merged(
    home: Seq<char>,
    tool: Seq<char>,
    store: StoreView,
    old: Seq<char>,
    new: Seq<char>,
    entries: Seq<CountedView>,
)
    requires
        store matches StoreView::EncodedDir { path, separator, .. } && !same_path(
            keyed_dir(home, path, separator, new),
            keyed_dir(home, path, separator, old),
        ),
    ensures
        steps(
            home,
            tool,
            store,
            old,
            new,
            SightView::Dir { is_dir: true, dest_exists: true, entries },
        ) is Err,
{
}

/// A store that holds nothing for a project is left alone: there is nothing to
/// do, and that is no error.
pub proof fn lemma_nothing_to_do(
    home: Seq<char>,
    tool: Seq<char>,
    store: StoreView,
    old: Seq<char>,
    new: Seq<char>,
    sight: SightView,
)
    requires
        fits(store, sight),
        match sight {
            SightView::Dir { is_dir, .. } => !is_dir,
            SightView::Files { files } => forall|i: int|
                0 <= i < files.len() ==> (#[trigger] files[i]).occurrences == 0,
            SightView::Rows { is_file, rows } => !is_file || (rows matches Ok(n) && n <= 0),
        },
    ensures
        steps(home, tool, store, old, new, sight) == Ok::<Seq<StepView>, RekeyErrorView>(seq![]),
{
    if let SightView::Files { files } = sight {
        lemma_no_files(files, old, new);
    }
}

proof fn lemma_no_files(files: Seq<CountedView>, old: Seq<char>, new: Seq<char>)
    requires
        forall|i: int| 0 <= i < files.len() ==> (#[trigger] files[i]).occurrences == 0,
    ensures
        file_rewrites(files, old, new) == Seq::<StepView>::empty(),
    decreases files.len(),
{
    if files.len() > 0 {
        let d = files.drop_last();
        assert forall|i: int| 0 <= i < d.len() implies (#[trigger] d[i]).occurrences == 0 by {
            assert(d[i] == files[i]);
        }
        lemma_no_files(d, old, new);
    }
}

} // verus!
