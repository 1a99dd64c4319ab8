//! Tool definitions: which session artifacts a coding tool keeps, and where.
//!
//! Definitions come from several layers; a later layer overrides an earlier
//! one by tool name: built-in, system, user, project.
use vstd::prelude::*;

use crate::config::Config;
use crate::error::Error;
use crate::paths::{file_name, last_name};
use crate::text::{
    chars_of, copy_all, copy_list, copy_opt, ends, ends_with, index_from, lemma_index_from,
    opt_view, owned, same, split, split_on, string_of, to_upper, upper, views,
};

verus! {

/// How the moves of a tool's artifacts are handled.
#[derive(Debug, PartialEq, Eq)]
pub enum ReconcileStrategy {
    /// Rewrite path references in session files.
    RewritePaths,
    /// Only notify the user.
    Notify,
    /// Run a custom command.
    Custom(String),
}

/// The model of a [`ReconcileStrategy`].
pub enum StrategyView {
    RewritePaths,
    Notify,
    Custom(Seq<char>),
}

impl View for ReconcileStrategy {
    type V = StrategyView;

    open spec fn view(&self) -> StrategyView {
        match self {
            ReconcileStrategy::RewritePaths => StrategyView::RewritePaths,
            ReconcileStrategy::Notify => StrategyView::Notify,
            ReconcileStrategy::Custom(c) => StrategyView::Custom(c@),
        }
    }
}

impl Clone for ReconcileStrategy {
    fn clone(&self) -> (r: Self)
        ensures
            r@ == self@,
    {
        match self {
            ReconcileStrategy::RewritePaths => ReconcileStrategy::RewritePaths,
            ReconcileStrategy::Notify => ReconcileStrategy::Notify,
            ReconcileStrategy::Custom(c) => ReconcileStrategy::Custom(c.clone()),
        }
    }
}

impl Default for ReconcileStrategy {
    fn default() -> (r: Self)
        ensures
            r@ == StrategyView::RewritePaths,
    {
        ReconcileStrategy::RewritePaths
    }
}

/// A path field inside a session file that is rewritten on a move.
#[derive(Debug, PartialEq, Eq)]
pub struct PathFieldSpec {
    /// The file, relative to the project.
    pub file: String,
    /// Dot-separated field within the file.
    pub field: String,
    /// `json`, `toml`, or anything else for plain text.
    pub format: String,
}

/// The model of a [`PathFieldSpec`].
pub struct FieldView {
    pub file: Seq<char>,
    pub field: Seq<char>,
    pub format: Seq<char>,
}

impl View for PathFieldSpec {
    type V = FieldView;

    open spec fn view(&self) -> FieldView {
        FieldView { file: self.file@, field: self.field@, format: self.format@ }
    }
}

impl Clone for PathFieldSpec {
    fn clone(&self) -> (r: Self)
        ensures
            r@ == self@,
    {
        PathFieldSpec {
            file: self.file.clone(),
            field: self.field.clone(),
            format: self.format.clone(),
        }
    }
}

/// The format of a field that declares none.
pub fn default_format() -> (r: String)
    ensures
        r@ == "text"@,
{
    owned("text")
}

/// How a tool discovers its data directory at startup.
#[derive(Debug, Clone, Copy, PartialEq, Eq, Structural)]
pub enum HomeDirDiscovery {
    /// From the environment variable in `env_var`.
    Env,
    /// From the files in `config_files`.
    Config,
    /// From the default path, which a migration replaces by a symlink.
    Symlink,
    /// Baked into the binary; such a tool cannot be migrated.
    Compile,
}

impl Default for HomeDirDiscovery {
    fn default() -> (r: Self)
        ensures
            r == HomeDirDiscovery::Symlink,
    {
        HomeDirDiscovery::Symlink
    }
}

/// A config file that names a tool's data directory.
#[derive(Debug, PartialEq, Eq)]
pub struct HomeDirConfigFile {
    /// Path of the file; may start with `~`.
    pub file: String,
    /// Dot-separated field within the file.
    pub field: String,
    /// `json`, `toml`, or anything else for plain text.
    pub format: String,
}

impl View for HomeDirConfigFile {
    type V = FieldView;

    open spec fn view(&self) -> FieldView {
        FieldView { file: self.file@, field: self.field@, format: self.format@ }
    }
}

impl Clone for HomeDirConfigFile {
    fn clone(&self) -> (r: Self)
        ensures
            r@ == self@,
    {
        HomeDirConfigFile {
            file: self.file.clone(),
            field: self.field.clone(),
            format: self.format.clone(),
        }
    }
}

/// The service units that hold a tool's data open.
#[derive(Debug, PartialEq, Eq)]
pub struct HomeDirQuiesce {
    /// A unit of the user's service manager; preferred when both are declared.
    pub systemd_user_unit: Option<String>,
    /// A unit of the system's service manager.
    pub systemd_system_unit: Option<String>,
}

/// The model of a [`HomeDirQuiesce`].
pub struct QuiesceView {
    pub user: Option<Seq<char>>,
    pub system: Option<Seq<char>>,
}

impl View for HomeDirQuiesce {
    type V = QuiesceView;

    open spec fn view(&self) -> QuiesceView {
        QuiesceView {
            user: opt_view(self.systemd_user_unit),
            system: opt_view(self.systemd_system_unit),
        }
    }
}

impl Clone for HomeDirQuiesce {
    fn clone(&self) -> (r: Self)
        ensures
            r@ == self@,
    {
        HomeDirQuiesce {
            systemd_user_unit: copy_opt(&self.systemd_user_unit),
            systemd_system_unit: copy_opt(&self.systemd_system_unit),
        }
    }
}

impl Default for HomeDirQuiesce {
    fn default() -> (r: Self)
        ensures
            r@ == (QuiesceView { user: None, system: None }),
    {
        HomeDirQuiesce { systemd_user_unit: None, systemd_system_unit: None }
    }
}

/// A command that checks a migrated tool.
#[derive(Debug, PartialEq, Eq)]
pub struct HomeDirValidate {
    /// The argument vector; empty when there is nothing to run.
    pub command: Vec<String>,
    /// How long the command may take.
    pub timeout_seconds: Option<u64>,
}

/// The model of a [`HomeDirValidate`].
pub struct ValidateView {
    pub command: Seq<Seq<char>>,
    pub timeout_seconds: Option<u64>,
}

impl View for HomeDirValidate {
    type V = ValidateView;

    open spec fn view(&self) -> ValidateView {
        ValidateView { command: views(self.command@), timeout_seconds: self.timeout_seconds }
    }
}

impl Clone for HomeDirValidate {
    fn clone(&self) -> (r: Self)
        ensures
            r@ == self@,
    {
        HomeDirValidate {
            command: copy_all(&self.command),
            timeout_seconds: self.timeout_seconds,
        }
    }
}

impl Default for HomeDirValidate {
    fn default() -> (r: Self)
        ensures
            r@.command.len() == 0,
            r@.timeout_seconds is None,
    {
        HomeDirValidate { command: Vec::new(), timeout_seconds: None }
    }
}

/// Where a tool keeps its user-scoped data and how it finds it.
#[derive(Debug, PartialEq, Eq)]
pub struct HomeDirLayout {
    /// The location used by default; may start with `~`.
    pub default_path: String,
    /// How the tool finds the directory.
    pub discovery: HomeDirDiscovery,
    /// The environment variable, for [`HomeDirDiscovery::Env`].
    pub env_var: Option<String>,
    /// The files that name the directory, for [`HomeDirDiscovery::Config`].
    pub config_files: Vec<HomeDirConfigFile>,
    /// What to stop before the data is moved.
    pub quiesce: HomeDirQuiesce,
    /// What to run after the data has been moved.
    pub validate: HomeDirValidate,
}

/// The model of a [`HomeDirLayout`].
pub struct LayoutView {
    pub default_path: Seq<char>,
    pub discovery: HomeDirDiscovery,
    pub env_var: Option<Seq<char>>,
    pub config_files: Seq<FieldView>,
    pub quiesce: QuiesceView,
    pub validate: ValidateView,
}

impl View for HomeDirLayout {
    type V = LayoutView;

    open spec fn view(&self) -> LayoutView {
        LayoutView {
            default_path: self.default_path@,
            discovery: self.discovery,
            env_var: opt_view(self.env_var),
            config_files: views(self.config_files@),
            quiesce: self.quiesce@,
            validate: self.validate@,
        }
    }
}

impl Clone for HomeDirLayout {
    fn clone(&self) -> (r: Self)
        ensures
            r@ == self@,
    {
        HomeDirLayout {
            default_path: self.default_path.clone(),
            discovery: self.discovery,
            env_var: copy_opt(&self.env_var),
            config_files: copy_list(&self.config_files),
            quiesce: self.quiesce.clone(),
            validate: self.validate.clone(),
        }
    }
}

/// No unit is declared.
pub fn is_default_quiesce(q: &HomeDirQuiesce) -> (r: bool)
    ensures
        r == (q@ == QuiesceView { user: None, system: None }),
{
    q.systemd_user_unit.is_none() && q.systemd_system_unit.is_none()
}

/// No validation is declared.
pub fn is_default_validate(v: &HomeDirValidate) -> (r: bool)
    ensures
        r == (v@.command.len() == 0 && v@.timeout_seconds is None),
{
    v.command.len() == 0 && v.timeout_seconds.is_none()
}

/// The unit of a timestamp column.
#[derive(Debug, Clone, Copy, PartialEq, Eq, Structural)]
pub enum TimeUnit {
    /// Seconds.
    S,
    /// Milliseconds.
    Ms,
}

impl Default for TimeUnit {
    fn default() -> (r: Self)
        ensures
            r == TimeUnit::S,
    {
        TimeUnit::S
    }
}

/// Where and in which shape a tool keeps its sessions under the home directory.
#[allow(inconsistent_fields)]
#[derive(Debug, PartialEq, Eq)]
pub enum SessionStore {
    /// One directory per project, named after the project's path.
    EncodedDir {
        path: String,
        separator: String,
        key_glob: Option<String>,
        key_field: Option<String>,
    },
    /// Files of JSON lines whose first line names the project.
    JsonlField { path: String, glob: String, key_field: String, fallback_field: Option<String> },
    /// Rows of a database table with a column that names the project.
    SqliteColumn {
        path: String,
        table: String,
        path_column: String,
        updated_column: Option<String>,
        updated_unit: TimeUnit,
        archived_column: Option<String>,
    },
}

/// The model of a [`SessionStore`].
#[allow(inconsistent_fields)]
pub enum StoreView {
    EncodedDir {
        path: Seq<char>,
        separator: Seq<char>,
        key_glob: Option<Seq<char>>,
        key_field: Option<Seq<char>>,
    },
    JsonlField {
        path: Seq<char>,
        glob: Seq<char>,
        key_field: Seq<char>,
        fallback_field: Option<Seq<char>>,
    },
    SqliteColumn {
        path: Seq<char>,
        table: Seq<char>,
        path_column: Seq<char>,
        updated_column: Option<Seq<char>>,
        updated_unit: TimeUnit,
        archived_column: Option<Seq<char>>,
    },
}

impl View for SessionStore {
    type V = StoreView;

    open spec fn view(&self) -> StoreView {
        match self {
            SessionStore::EncodedDir { path, separator, key_glob, key_field } => {
                StoreView::EncodedDir {
                    path: path@,
                    separator: separator@,
                    key_glob: opt_view(*key_glob),
                    key_field: opt_view(*key_field),
                }
            },
            SessionStore::JsonlField { path, glob, key_field, fallback_field } => {
                StoreView::JsonlField {
                    path: path@,
                    glob: glob@,
                    key_field: key_field@,
                    fallback_field: opt_view(*fallback_field),
                }
            },
            SessionStore::SqliteColumn {
                path,
                table,
                path_column,
                updated_column,
                updated_unit,
                archived_column,
            } => StoreView::SqliteColumn {
                path: path@,
                table: table@,
                path_column: path_column@,
                updated_column: opt_view(*updated_column),
                updated_unit: *updated_unit,
                archived_column: opt_view(*archived_column),
            },
        }
    }
}

impl Clone for SessionStore {
    fn clone(&self) -> (r: Self)
        ensures
            r@ == self@,
    {
        match self {
            SessionStore::EncodedDir { path, separator, key_glob, key_field } => {
                SessionStore::EncodedDir {
                    path: path.clone(),
                    separator: separator.clone(),
                    key_glob: copy_opt(key_glob),
                    key_field: copy_opt(key_field),
                }
            },
            SessionStore::JsonlField { path, glob, key_field, fallback_field } => {
                SessionStore::JsonlField {
                    path: path.clone(),
                    glob: glob.clone(),
                    key_field: key_field.clone(),
                    fallback_field: copy_opt(fallback_field),
                }
            },
            SessionStore::SqliteColumn {
                path,
                table,
                path_column,
                updated_column,
                updated_unit,
                archived_column,
            } => SessionStore::SqliteColumn {
                path: path.clone(),
                table: table.clone(),
                path_column: path_column.clone(),
                updated_column: copy_opt(updated_column),
                updated_unit: *updated_unit,
                archived_column: copy_opt(archived_column),
            },
        }
    }
}

impl StoreView {
    /// Where the store lies.
    pub open spec fn path(self) -> Seq<char> {
        match self {
            StoreView::EncodedDir { path, .. } => path,
            StoreView::JsonlField { path, .. } => path,
            StoreView::SqliteColumn { path, .. } => path,
        }
    }

    /// The same store at another place.
    pub open spec fn at(self, to: Seq<char>) -> StoreView {
        match self {
            StoreView::EncodedDir { path, separator, key_glob, key_field } => {
                StoreView::EncodedDir { path: to, separator, key_glob, key_field }
            },
            StoreView::JsonlField { path, glob, key_field, fallback_field } => {
                StoreView::JsonlField { path: to, glob, key_field, fallback_field }
            },
            StoreView::SqliteColumn {
                path,
                table,
                path_column,
                updated_column,
                updated_unit,
                archived_column,
            } => StoreView::SqliteColumn {
                path: to,
                table,
                path_column,
                updated_column,
                updated_unit,
                archived_column,
            },
        }
    }

    /// The declaration makes sense: names have a separator, and a key hint has
    /// both of its halves or neither.
    pub open spec fn valid(self) -> bool {
        match self {
            StoreView::EncodedDir { separator, key_glob, key_field, .. } => {
                &&& separator.len() > 0
                &&& key_glob is Some == key_field is Some
            },
            _ => true,
        }
    }
}

impl SessionStore {
    /// Where the store lies.
    pub fn path(&self) -> (r: &str)
        ensures
            r@ == self@.path(),
    {
        match self {
            SessionStore::EncodedDir { path, .. } => path.as_str(),
            SessionStore::JsonlField { path, .. } => path.as_str(),
            SessionStore::SqliteColumn { path, .. } => path.as_str(),
        }
    }

    /// Move the declaration to another place; nothing else changes.
    pub fn set_path(&mut self, to: String)
        ensures
            final(self)@ == old(self)@.at(to@),
    {
        match self {
            SessionStore::EncodedDir { path, .. } => {
                *path = to;
            },
            SessionStore::JsonlField { path, .. } => {
                *path = to;
            },
            SessionStore::SqliteColumn { path, .. } => {
                *path = to;
            },
        }
    }

    /// Reject a declaration that cannot mean what it says.
    pub fn validate(&self) -> (r: Result<(), String>)
        ensures
            r is Ok == self@.valid(),
            r matches Err(e) ==> e@ == (match self@ {
                StoreView::EncodedDir { separator, .. } => if separator.len() == 0 {
                    "encoded_dir separator must not be empty"@
                } else {
                    "key_glob and key_field must be declared together"@
                },
                _ => Seq::empty(),
            }),
    {
        match self {
            SessionStore::EncodedDir { separator, key_glob, key_field, .. } => {
                if separator.as_str().is_empty() {
                    return Err(owned("encoded_dir separator must not be empty"));
                }
                if key_glob.is_some() != key_field.is_some() {
                    return Err(owned("key_glob and key_field must be declared together"));
                }
                Ok(())
            },
            _ => Ok(()),
        }
    }
}

/// An ASCII letter or an underscore.
pub open spec fn ident_start(c: char) -> bool {
    ||| 'a' <= c && c <= 'z'
    ||| 'A' <= c && c <= 'Z'
    ||| c == '_'
}

/// A plain SQL identifier: it needs no quoting and can hide no other statement.
pub open spec fn plain_ident(s: Seq<char>) -> bool {
    &&& s.len() > 0
    &&& ident_start(s[0])
    &&& forall|i: int|
        0 <= i < s.len() ==> ident_start(#[trigger] s[i]) || ('0' <= s[i] && s[i] <= '9')
}

/// `s` is a plain SQL identifier.
pub fn safe_ident(s: &str) -> (r: bool)
    ensures
        r == plain_ident(s@),
{
    let v = chars_of(s);
    if v.len() == 0 {
        return false;
    }
    let mut i: usize = 0;
    while i < v.len()
        invariant
            v@ == s@,
            i <= v@.len(),
            i > 0 ==> ident_start(s@[0]),
            forall|k: int|
                0 <= k < i ==> ident_start(#[trigger] s@[k]) || ('0' <= s@[k] && s@[k] <= '9'),
        decreases v@.len() - i,
    {
        let c = v[i];
        let letter = ('a' <= c && c <= 'z') || ('A' <= c && c <= 'Z') || c == '_';
        let number = '0' <= c && c <= '9';
        if !(letter || (i > 0 && number)) {
            assert(!ident_start(s@[i as int]));
            return false;
        }
        i = i + 1;
    }
    true
}

/// What one coding tool keeps, in the project and in the home directory.
#[derive(Debug, PartialEq, Eq)]
pub struct ToolDefinition {
    /// Unique identifier.
    pub name: String,
    /// Name for people.
    pub display_name: String,
    /// Patterns of session artifacts in a project.
    pub session_patterns: Vec<String>,
    /// Fields inside artifacts that hold the project's path.
    pub path_fields: Vec<PathFieldSpec>,
    /// How moves are handled.
    pub on_move: ReconcileStrategy,
    /// Version of the definition.
    pub version: Option<String>,
    /// The launcher to look for on the search path.
    pub binary: Option<String>,
    /// The user-scoped data, for tools that can be migrated.
    pub home_dir_layout: Option<HomeDirLayout>,
    /// The session store under the home directory.
    pub session_store: Option<SessionStore>,
}

/// The model of a [`ToolDefinition`].
pub struct ToolView {
    pub name: Seq<char>,
    pub display_name: Seq<char>,
    pub session_patterns: Seq<Seq<char>>,
    pub path_fields: Seq<FieldView>,
    pub on_move: StrategyView,
    pub version: Option<Seq<char>>,
    pub binary: Option<Seq<char>>,
    pub home_dir_layout: Option<LayoutView>,
    pub session_store: Option<StoreView>,
}

impl View for ToolDefinition {
    type V = ToolView;

    open spec fn view(&self) -> ToolView {
        ToolView {
            name: self.name@,
            display_name: self.display_name@,
            session_patterns: views(self.session_patterns@),
            path_fields: views(self.path_fields@),
            on_move: self.on_move@,
            version: opt_view(self.version),
            binary: opt_view(self.binary),
            home_dir_layout: opt_view(self.home_dir_layout),
            session_store: opt_view(self.session_store),
        }
    }
}

impl Clone for ToolDefinition {
    fn clone(&self) -> (r: Self)
        ensures
            r@ == self@,
    {
        ToolDefinition {
            name: self.name.clone(),
            display_name: self.display_name.clone(),
            session_patterns: copy_all(&self.session_patterns),
            path_fields: copy_list(&self.path_fields),
            on_move: self.on_move.clone(),
            version: copy_opt(&self.version),
            binary: copy_opt(&self.binary),
            home_dir_layout: match &self.home_dir_layout {
                Some(l) => Some(l.clone()),
                None => None,
            },
            session_store: match &self.session_store {
                Some(s) => Some(s.clone()),
                None => None,
            },
        }
    }
}

/// The position of the definition named `name`, or the length.
pub open spec fn position(tools: Seq<ToolView>, name: Seq<char>) -> int
    decreases tools.len(),
{
    if tools.len() == 0 {
        0
    } else if tools[0].name == name {
        0
    } else {
        1 + position(tools.skip(1), name)
    }
}

/// The definition named `name`.
pub open spec fn lookup(tools: Seq<ToolView>, name: Seq<char>) -> Option<ToolView> {
    let k = position(tools, name);
    if 0 <= k < tools.len() {
        Some(tools[k])
    } else {
        None
    }
}

/// `tools` with `tool` in place of the definition of the same name, or after all others.
pub open spec fn put(tools: Seq<ToolView>, tool: ToolView) -> Seq<ToolView> {
    let k = position(tools, tool.name);
    if 0 <= k < tools.len() {
        tools.update(k, tool)
    } else {
        tools.push(tool)
    }
}

/// `tools` with every definition of `more` put in, in order.
pub open spec fn put_all(tools: Seq<ToolView>, more: Seq<ToolView>) -> Seq<ToolView>
    decreases more.len(),
{
    if more.len() == 0 {
        tools
    } else {
        put(put_all(tools, more.drop_last()), more.last())
    }
}

/// No two definitions share a name.
pub open spec fn distinct(tools: Seq<ToolView>) -> bool {
    forall|i: int, j: int|
        0 <= i < j < tools.len() ==> (#[trigger] tools[i]).name != (#[trigger] tools[j]).name
}

pub proof fn lemma_position(tools: Seq<ToolView>, name: Seq<char>)
    ensures
        0 <= position(tools, name) <= tools.len(),
        position(tools, name) < tools.len() ==> tools[position(tools, name)].name == name,
        forall|i: int| 0 <= i < position(tools, name) ==> (#[trigger] tools[i]).name != name,
    decreases tools.len(),
{
    if tools.len() > 0 && tools[0].name != name {
        lemma_position(tools.skip(1), name);
        assert forall|i: int| 0 <= i < position(tools, name) implies (#[trigger] tools[i]).name
            != name by {
            if i > 0 {
                assert(tools.skip(1)[i - 1] == tools[i]);
            }
        }
    }
}

proof fn lemma_position_is(tools: Seq<ToolView>, name: Seq<char>, k: int)
    requires
        0 <= k <= tools.len(),
        k < tools.len() ==> tools[k].name == name,
        forall|i: int| 0 <= i < k ==> (#[trigger] tools[i]).name != name,
    ensures
        position(tools, name) == k,
{
    lemma_position(tools, name);
    let p = position(tools, name);
    if p < k {
        assert(tools[p].name != name);
    } else if k < p {
        assert(tools[k].name != name);
    }
}

/// Registering a definition overrides the one of the same name and no other.
pub proof fn lemma_put_lookup(tools: Seq<ToolView>, tool: ToolView, name: Seq<char>)
    ensures
        lookup(put(tools, tool), name) == if name == tool.name {
            Some(tool)
        } else {
            lookup(tools, name)
        },
{
    let after = put(tools, tool);
    lemma_position(tools, tool.name);
    lemma_position(tools, name);
    let k = position(tools, tool.name);
    if name == tool.name {
        lemma_position_is(after, name, k);
    } else {
        let m = position(tools, name);
        if m == tools.len() && k == tools.len() {
            lemma_position_is(after, name, m + 1);
        } else {
            lemma_position_is(after, name, m);
        }
    }
}

/// Registering a definition keeps the names distinct.
pub proof fn lemma_put_distinct(tools: Seq<ToolView>, tool: ToolView)
    requires
        distinct(tools),
    ensures
        distinct(put(tools, tool)),
{
    lemma_position(tools, tool.name);
    let k = position(tools, tool.name);
    let after = put(tools, tool);
    assert forall|i: int, j: int| 0 <= i < j < after.len() implies (#[trigger] after[i]).name != (
    #[trigger] after[j]).name by {
        if k < tools.len() {
            assert(after[i].name == tools[i].name);
            assert(after[j].name == tools[j].name);
        } else if j < k {
            assert(after[i] == tools[i] && after[j] == tools[j]);
        } else {
            assert(after[i] == tools[i]);
        }
    }
}

/// Of several layers the last one that defines a name decides.
pub proof fn lemma_put_all_lookup(tools: Seq<ToolView>, more: Seq<ToolView>, name: Seq<char>)
    ensures
        lookup(put_all(tools, more), name) == match last_named(more, name) {
            Some(t) => Some(t),
            None => lookup(tools, name),
        },
    decreases more.len(),
{
    if more.len() > 0 {
        lemma_put_all_lookup(tools, more.drop_last(), name);
        lemma_put_lookup(put_all(tools, more.drop_last()), more.last(), name);
    }
}

/// The last definition named `name`.
pub open spec fn last_named(tools: Seq<ToolView>, name: Seq<char>) -> Option<ToolView>
    decreases tools.len(),
{
    if tools.len() == 0 {
        None
    } else if tools.last().name == name {
        Some(tools.last())
    } else {
        last_named(tools.drop_last(), name)
    }
}

/// All loaded tool definitions, at most one for each name.
#[derive(Debug)]
pub struct ToolRegistry {
    tools: Vec<ToolDefinition>,
}

impl View for ToolRegistry {
    type V = Seq<ToolView>;

    closed spec fn view(&self) -> Seq<ToolView> {
        views(self.tools@)
    }
}

impl Default for ToolRegistry {
    fn default() -> (r: Self)
        ensures
            r@ == Seq::<ToolView>::empty(),
            r.well_formed(),
    {
        let r = ToolRegistry { tools: Vec::new() };
        assert(r@ =~= Seq::<ToolView>::empty());
        r
    }
}

impl ToolRegistry {
    /// No two definitions share a name.
    pub open spec fn well_formed(self) -> bool {
        distinct(self@)
    }

    /// A registry with the built-in definitions.
    pub fn new() -> (r: Result<ToolRegistry, Error>)
        ensures
            r matches Ok(reg) && reg@ == put_all(Seq::empty(), builtin_views()) && reg.well_formed(),
    {
        let mut reg = ToolRegistry::default();
        reg.load_builtin();
        Ok(reg)
    }

    /// A registry with every layer: built-in, system, user and project definitions.
    pub fn new_with_config(
        config: &Config,
        system: &Vec<ToolDefinition>,
        user: &Vec<ToolDefinition>,
    ) -> (r: Result<ToolRegistry, Error>)
        ensures
            r matches Ok(reg) && reg.well_formed() && reg@ == put_all(
                put_all(
                    put_all(put_all(Seq::empty(), builtin_views()), views(system@)),
                    views(user@),
                ),
                views(config.tools@),
            ),
    {
        let mut reg = ToolRegistry::default();
        reg.load_all(system, user);
        reg.register_all(&config.tools);
        Ok(reg)
    }

    /// Load the built-in, then the system's, then the user's definitions.
    pub fn load_all(&mut self, system: &Vec<ToolDefinition>, user: &Vec<ToolDefinition>)
        requires
            old(self).well_formed(),
        ensures
            final(self).well_formed(),
            final(self)@ == put_all(
                put_all(put_all(old(self)@, builtin_views()), views(system@)),
                views(user@),
            ),
    {
        self.load_builtin();
        self.register_all(system);
        self.register_all(user);
    }

    /// The definition named `name`.
    pub fn get(&self, name: &str) -> (r: Option<&ToolDefinition>)
        ensures
            match r {
                Some(t) => lookup(self@, name@) == Some(t@),
                None => lookup(self@, name@) is None,
            },
    {
        let k: usize = self.find(name);
        proof {
            lemma_position(self@, name@);
        }
        if k < self.tools.len() {
            Some(&self.tools[k])
        } else {
            None
        }
    }

    /// Every registered definition.
    pub fn all(&self) -> (r: &Vec<ToolDefinition>)
        ensures
            views(r@) == self@,
    {
        &self.tools
    }

    fn find(&self, name: &str) -> (k: usize)
        ensures
            k == position(self@, name@),
    {
        let mut i: usize = 0;
        while i < self.tools.len()
            invariant
                i <= self.tools@.len(),
                forall|j: int| 0 <= j < i ==> (#[trigger] self@[j]).name != name@,
            decreases self.tools@.len() - i,
        {
            if same(&self.tools[i].name, name) {
                proof {
                    assert(self@[i as int].name == name@);
                    lemma_position_is(self@, name@, i as int);
                }
                return i;
            }
            assert(self@[i as int].name != name@);
            i = i + 1;
        }
        proof {
            lemma_position_is(self@, name@, i as int);
        }
        i
    }

    /// Register a definition in place of one of the same name.
    pub fn register(&mut self, tool: ToolDefinition)
        requires
            old(self).well_formed(),
        ensures
            final(self).well_formed(),
            final(self)@ == put(old(self)@, tool@),
    {
        let k: usize = self.find(&tool.name);
        let ghost before = self@;
        proof {
            lemma_position(before, tool@.name);
            lemma_put_distinct(before, tool@);
        }
        if k < self.tools.len() {
            let ghost t = tool@;
            self.tools.set(k, tool);
            assert(self@ =~= before.update(k as int, t));
        } else {
            let ghost t = tool@;
            self.tools.push(tool);
            assert(self@ =~= before.push(t));
        }
    }

    fn register_all(&mut self, more: &Vec<ToolDefinition>)
        requires
            old(self).well_formed(),
        ensures
            final(self).well_formed(),
            final(self)@ == put_all(old(self)@, views(more@)),
    {
        let ghost start = self@;
        let mut i: usize = 0;
        while i < more.len()
            invariant
                i <= more@.len(),
                self.well_formed(),
                self@ == put_all(start, views(more@).take(i as int)),
            decreases more@.len() - i,
        {
            proof {
                let next = views(more@).take(i + 1);
                assert(next.drop_last() =~= views(more@).take(i as int));
                assert(next.last() == more@[i as int]@);
            }
            self.register(more[i].clone());
            i = i + 1;
        }
        assert(views(more@).take(i as int) =~= views(more@));
    }

    fn load_builtin(&mut self)
        requires
            old(self).well_formed(),
        ensures
            final(self).well_formed(),
            final(self)@ == put_all(old(self)@, builtin_views()),
    {
        let b = builtin_tools();
        self.register_all(&b);
    }
}

/// The file extension, without the dot, is `ext`.
pub open spec fn has_extension(p: Seq<char>, ext: Seq<char>) -> bool {
    match last_name(p) {
        Some(n) => n.len() > ext.len() + 1 && ends(n, seq!['.'] + ext) && !ext.contains('.'),
        None => false,
    }
}

/// A file in a directory of definitions is one when its extension is `toml`.
pub fn is_tool_file(path: &str) -> (r: bool)
    ensures
        r == has_extension(path@, "toml"@),
{
    proof {
        reveal_strlit("toml");
        reveal_strlit(".toml");
        assert(".toml"@ =~= seq!['.'] + "toml"@);
        assert(!"toml"@.contains('.'));
    }
    match file_name(path) {
        Some(n) => chars_of(&n).len() > 5 && ends_with(&n, ".toml"),
        None => false,
    }
}

/// A tool that keeps artifacts in the project only.
pub open spec fn in_project_view(
    name: Seq<char>,
    display: Seq<char>,
    patterns: Seq<Seq<char>>,
    fields: Seq<FieldView>,
    on_move: StrategyView,
    binary: Option<Seq<char>>,
) -> ToolView {
    ToolView {
        name,
        display_name: display,
        session_patterns: patterns,
        path_fields: fields,
        on_move,
        version: Some("1.0"@),
        binary,
        home_dir_layout: None,
        session_store: None,
    }
}

/// The word that the files of a tool are called by: its name up to the first
/// underscore.
pub open spec fn brand(name: Seq<char>) -> Seq<char> {
    split(name, '_')[0]
}

/// The first tool keeps its sessions in one directory per project, and the
/// project's path in its settings.
pub open spec fn claude_code_view() -> ToolView {
    let word = brand("claude_code"@);
    ToolView {
        session_store: Some(
            StoreView::EncodedDir {
                path: "~/."@ + word + "/projects"@,
                separator: "-"@,
                key_glob: Some("*.jsonl"@),
                key_field: Some("cwd"@),
            },
        ),
        ..in_project_view(
            "claude_code"@,
            upper(word.take(1)) + word.skip(1) + " Code"@,
            seq!["."@ + word + "/"@, upper(word) + ".md"@, "."@ + word + "ignore"@],
            seq![
                FieldView {
                    file: "."@ + word + "/settings.json"@,
                    field: "project_path"@,
                    format: "json"@,
                },
            ],
            StrategyView::RewritePaths,
            Some(word),
        )
    }
}

/// Cursor keeps the project's path in its state file.
pub open spec fn cursor_view() -> ToolView {
    in_project_view(
        "cursor"@,
        "Cursor"@,
        seq![".cursor/"@, ".cursorignore"@],
        seq![
            FieldView {
                file: ".cursor/state.json"@,
                field: "project_root"@,
                format: "json"@,
            },
        ],
        StrategyView::RewritePaths,
        None,
    )
}

/// Windsurf keeps the project's path in its state file.
pub open spec fn windsurf_view() -> ToolView {
    in_project_view(
        "windsurf"@,
        "Windsurf"@,
        seq![".windsurf/"@],
        seq![
            FieldView {
                file: ".windsurf/state.json"@,
                field: "project_root"@,
                format: "json"@,
            },
        ],
        StrategyView::RewritePaths,
        None,
    )
}

/// Aider keeps its history next to the sources.
pub open spec fn aider_view() -> ToolView {
    in_project_view(
        "aider"@,
        "Aider"@,
        seq![".aider*"@],
        Seq::empty(),
        StrategyView::Notify,
        Some("aider"@),
    )
}

/// Gemini CLI keeps its context in the project.
pub open spec fn gemini_cli_view() -> ToolView {
    in_project_view(
        "gemini_cli"@,
        "Gemini CLI"@,
        seq![".gemini/"@, "GEMINI.md"@],
        Seq::empty(),
        StrategyView::Notify,
        Some("gemini"@),
    )
}

/// Codex finds its home through `CODEX_HOME`.
pub open spec fn codex_view() -> ToolView {
    ToolView {
        home_dir_layout: Some(
            LayoutView {
                default_path: "~/.codex"@,
                discovery: HomeDirDiscovery::Env,
                env_var: Some("CODEX_HOME"@),
                config_files: Seq::empty(),
                quiesce: QuiesceView { user: Some("codex.service"@), system: None },
                validate: ValidateView { command: Seq::empty(), timeout_seconds: None },
            },
        ),
        session_store: Some(
            StoreView::JsonlField {
                path: "~/.codex/sessions"@,
                glob: "**/*.jsonl"@,
                key_field: "cwd"@,
                fallback_field: Some("payload.cwd"@),
            },
        ),
        ..in_project_view(
            "codex"@,
            "Codex"@,
            seq![".codex/"@, "AGENTS.md"@],
            Seq::empty(),
            StrategyView::Notify,
            Some("codex"@),
        )
    }
}

/// OpenCode follows a symlink at its default path.
pub open spec fn opencode_view() -> ToolView {
    ToolView {
        home_dir_layout: Some(
            LayoutView {
                default_path: "~/.local/share/opencode"@,
                discovery: HomeDirDiscovery::Symlink,
                env_var: None,
                config_files: Seq::empty(),
                quiesce: QuiesceView { user: Some("opencode.service"@), system: None },
                validate: ValidateView { command: Seq::empty(), timeout_seconds: None },
            },
        ),
        session_store: Some(
            StoreView::SqliteColumn {
                path: "~/.local/share/opencode/opencode.db"@,
                table: "session"@,
                path_column: "directory"@,
                updated_column: Some("time_updated"@),
                updated_unit: TimeUnit::Ms,
                archived_column: Some("time_archived"@),
            },
        ),
        ..in_project_view(
            "opencode"@,
            "OpenCode"@,
            seq![".opencode/"@],
            Seq::empty(),
            StrategyView::Notify,
            Some("opencode"@),
        )
    }
}

/// The built-in definitions.
pub open spec fn builtin_views() -> Seq<ToolView> {
    seq![
        claude_code_view(),
        cursor_view(),
        windsurf_view(),
        aider_view(),
        gemini_cli_view(),
        codex_view(),
        opencode_view(),
    ]
}

/// One text.
fn list1(a: &str) -> (r: Vec<String>)
    ensures
        views(r@) == seq![a@],
{
    let mut r: Vec<String> = Vec::new();
    r.push(owned(a));
    assert(views(r@) =~= seq![a@]);
    r
}

/// Two texts.
fn list2(a: &str, b: &str) -> (r: Vec<String>)
    ensures
        views(r@) == seq![a@, b@],
{
    let mut r: Vec<String> = Vec::new();
    r.push(owned(a));
    r.push(owned(b));
    assert(views(r@) =~= seq![a@, b@]);
    r
}

/// Three texts.
fn list3(a: &str, b: &str, c: &str) -> (r: Vec<String>)
    ensures
        views(r@) == seq![a@, b@, c@],
{
    let mut r: Vec<String> = Vec::new();
    r.push(owned(a));
    r.push(owned(b));
    r.push(owned(c));
    assert(views(r@) =~= seq![a@, b@, c@]);
    r
}

fn in_project(
    name: &str,
    display: &str,
    patterns: Vec<String>,
    fields: Vec<PathFieldSpec>,
    on_move: ReconcileStrategy,
    binary: Option<String>,
) -> (r: ToolDefinition)
    ensures
        r@ == in_project_view(
            name@,
            display@,
            views(patterns@),
            views(fields@),
            on_move@,
            opt_view(binary),
        ),
{
    ToolDefinition {
        name: owned(name),
        display_name: owned(display),
        session_patterns: patterns,
        path_fields: fields,
        on_move,
        version: Some(owned("1.0")),
        binary,
        home_dir_layout: None,
        session_store: None,
    }
}

fn no_fields() -> (r: Vec<PathFieldSpec>)
    ensures
        views(r@) == Seq::<FieldView>::empty(),
{
    let r: Vec<PathFieldSpec> = Vec::new();
    assert(views(r@) =~= Seq::<FieldView>::empty());
    r
}

fn one_field(file: &str, field: &str, format: &str) -> (r: Vec<PathFieldSpec>)
    ensures
        views(r@) == seq![FieldView { file: file@, field: field@, format: format@ }],
{
    let mut r: Vec<PathFieldSpec> = Vec::new();
    r.push(PathFieldSpec { file: owned(file), field: owned(field), format: owned(format) });
    assert(views(r@) =~= seq![FieldView { file: file@, field: field@, format: format@ }]);
    r
}

fn unit_layout(
    default_path: &str,
    discovery: HomeDirDiscovery,
    env_var: Option<String>,
    user_unit: &str,
) -> (r: HomeDirLayout)
    ensures
        r@ == (LayoutView {
            default_path: default_path@,
            discovery,
            env_var: opt_view(env_var),
            config_files: Seq::empty(),
            quiesce: QuiesceView { user: Some(user_unit@), system: None },
            validate: ValidateView { command: Seq::empty(), timeout_seconds: None },
        }),
{
    let r = HomeDirLayout {
        default_path: owned(default_path),
        discovery,
        env_var,
        config_files: Vec::new(),
        quiesce: HomeDirQuiesce {
            systemd_user_unit: Some(owned(user_unit)),
            systemd_system_unit: None,
        },
        validate: HomeDirValidate { command: Vec::new(), timeout_seconds: None },
    };
    assert(r@.config_files =~= Seq::<FieldView>::empty());
    assert(r@.validate.command =~= Seq::<Seq<char>>::empty());
    r
}

/// The word that the files of a tool are called by.
fn brand_of(name: &str) -> (r: String)
    ensures
        r@ == brand(name@),
{
    let parts = split_on(name, '_');
    assert(split(name@, '_').len() > 0);
    assert(views(parts@)[0] == parts@[0]@);
    parts[0].clone()
}

/// The text with a capital at its start.
fn capital(s: &str) -> (r: String)
    requires
        s@.len() > 0,
    ensures
        r@ == upper(s@.take(1)) + s@.skip(1),
{
    let v = chars_of(s);
    let first = string_of(&v, 0, 1);
    let rest = string_of(&v, 1, v.len());
    assert(s@.subrange(0, 1) =~= s@.take(1));
    assert(s@.subrange(1, s@.len() as int) =~= s@.skip(1));
    to_upper(&first).concat(&rest)
}

fn claude_code() -> (r: ToolDefinition)
    ensures
        r@ == claude_code_view(),
{
    let word = brand_of("claude_code");
    proof {
        reveal_strlit("claude_code");
        let name = "claude_code"@;
        lemma_index_from(name, '_', 1);
        assert(index_from(name, '_', 0) == index_from(name, '_', 1));
        assert(word@.len() > 0);
    }
    let display = capital(&word).concat(" Code");
    let dir = owned(".").concat(&word).concat("/");
    let notes = to_upper(&word).concat(".md");
    let ignored = owned(".").concat(&word).concat("ignore");
    let settings = owned(".").concat(&word).concat("/settings.json");
    let mut r = in_project(
        "claude_code",
        &display,
        list3(&dir, &notes, &ignored),
        one_field(&settings, "project_path", "json"),
        ReconcileStrategy::RewritePaths,
        Some(word.clone()),
    );
    r.session_store = Some(
        SessionStore::EncodedDir {
            path: owned("~/.").concat(&word).concat("/projects"),
            separator: owned("-"),
            key_glob: Some(owned("*.jsonl")),
            key_field: Some(owned("cwd")),
        },
    );
    r
}

fn codex() -> (r: ToolDefinition)
    ensures
        r@ == codex_view(),
{
    let mut r = in_project(
        "codex",
        "Codex",
        list2(".codex/", "AGENTS.md"),
        no_fields(),
        ReconcileStrategy::Notify,
        Some(owned("codex")),
    );
    r.home_dir_layout = Some(
        unit_layout(
            "~/.codex",
            HomeDirDiscovery::Env,
            Some(owned("CODEX_HOME")),
            "codex.service",
        ),
    );
    r.session_store = Some(
        SessionStore::JsonlField {
            path: owned("~/.codex/sessions"),
            glob: owned("**/*.jsonl"),
            key_field: owned("cwd"),
            fallback_field: Some(owned("payload.cwd")),
        },
    );
    r
}

fn opencode() -> (r: ToolDefinition)
    ensures
        r@ == opencode_view(),
{
    let mut r = in_project(
        "opencode",
        "OpenCode",
        list1(".opencode/"),
        no_fields(),
        ReconcileStrategy::Notify,
        Some(owned("opencode")),
    );
    r.home_dir_layout = Some(
        unit_layout("~/.local/share/opencode", HomeDirDiscovery::Symlink, None, "opencode.service"),
    );
    r.session_store = Some(
        SessionStore::SqliteColumn {
            path: owned("~/.local/share/opencode/opencode.db"),
            table: owned("session"),
            path_column: owned("directory"),
            updated_column: Some(owned("time_updated")),
            updated_unit: TimeUnit::Ms,
            archived_column: Some(owned("time_archived")),
        },
    );
    r
}

/// The built-in definitions.
pub fn builtin_tools() -> (r: Vec<ToolDefinition>)
    ensures
        views(r@) == builtin_views(),
{
    let mut r: Vec<ToolDefinition> = Vec::new();
    r.push(claude_code());
    r.push(
        in_project(
            "cursor",
            "Cursor",
            list2(".cursor/", ".cursorignore"),
            one_field(".cursor/state.json", "project_root", "json"),
            ReconcileStrategy::RewritePaths,
            None,
        ),
    );
    r.push(
        in_project(
            "windsurf",
            "Windsurf",
            list1(".windsurf/"),
            one_field(".windsurf/state.json", "project_root", "json"),
            ReconcileStrategy::RewritePaths,
            None,
        ),
    );
    r.push(
        in_project(
            "aider",
            "Aider",
            list1(".aider*"),
            no_fields(),
            ReconcileStrategy::Notify,
            Some(owned("aider")),
        ),
    );
    r.push(
        in_project(
            "gemini_cli",
            "Gemini CLI",
            list2(".gemini/", "GEMINI.md"),
            no_fields(),
            ReconcileStrategy::Notify,
            Some(owned("gemini")),
        ),
    );
    r.push(codex());
    r.push(opencode());
    assert(views(r@) =~= builtin_views());
    r
}

} // verus!
