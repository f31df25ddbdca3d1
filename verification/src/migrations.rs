//! Versioned schema migrations and their application model.
//!
//! The backend declares an ordered list of SQL migrations for the chat
//! database; an external migration runner executes them. This module
//! holds the declared list and a model of the runner's contract: every
//! migration whose version is greater than the database's recorded
//! version is applied, in ascending version order — the order the list
//! is handed over in — and the new version is recorded. A database
//! whose recorded version exceeds every known migration is rejected as
//! forward-incompatible.

use vstd::prelude::*;
use vstd::string::StringExecFns;

verus! {

/// Direction of a migration. Only `Up` migrations are declared or applied
/// here; `Down` is carried for completeness and never applied.
#[derive(Clone, Copy, PartialEq, Eq, Structural, Debug)]
pub enum MigrationKind {
    Up,
    Down,
}

/// One versioned, named unit of schema change.
#[derive(Debug)]
pub struct Migration {
    pub version: u64,
    pub description: String,
    pub sql: String,
    pub kind: MigrationKind,
}

/// Which of the six chat tables exist in the database.
#[derive(Clone, Copy, PartialEq, Eq, Structural, Debug)]
pub struct TableSet {
    pub conversations: bool,
    pub messages: bool,
    pub settings: bool,
    pub model_configs: bool,
    pub plan_status: bool,
    pub step_status: bool,
}

impl TableSet {
    /// No table exists yet.
    pub open spec fn spec_empty() -> TableSet {
        TableSet {
            conversations: false,
            messages: false,
            settings: false,
            model_configs: false,
            plan_status: false,
            step_status: false,
        }
    }

    /// Every table of the full schema exists.
    pub open spec fn spec_full() -> TableSet {
        TableSet {
            conversations: true,
            messages: true,
            settings: true,
            model_configs: true,
            plan_status: true,
            step_status: true,
        }
    }

    /// How many tables exist.
    pub open spec fn spec_count(self) -> int {
        (if self.conversations {
            1int
        } else {
            0int
        }) + (if self.messages {
            1int
        } else {
            0int
        }) + (if self.settings {
            1int
        } else {
            0int
        }) + (if self.model_configs {
            1int
        } else {
            0int
        }) + (if self.plan_status {
            1int
        } else {
            0int
        }) + (if self.step_status {
            1int
        } else {
            0int
        })
    }

    /// How many tables exist.
    pub fn count(&self) -> (n: u64)
        ensures
            n == self.spec_count(),
    {
        let mut n: u64 = 0;
        if self.conversations {
            n = n + 1;
        }
        if self.messages {
            n = n + 1;
        }
        if self.settings {
            n = n + 1;
        }
        if self.model_configs {
            n = n + 1;
        }
        if self.plan_status {
            n = n + 1;
        }
        if self.step_status {
            n = n + 1;
        }
        n
    }
}

/// The schema-relevant state of the database: the recorded migration
/// version and the set of tables that exist.
#[derive(Clone, Copy, PartialEq, Eq, Structural, Debug)]
pub struct SchemaState {
    pub version: u64,
    pub tables: TableSet,
}

impl SchemaState {
    /// An empty database: nothing recorded, no table exists.
    pub open spec fn spec_empty() -> SchemaState {
        SchemaState { version: 0, tables: TableSet::spec_empty() }
    }

    /// An empty database: nothing recorded, no table exists.
    pub fn empty() -> (s: SchemaState)
        ensures
            s == SchemaState::spec_empty(),
    {
        SchemaState {
            version: 0,
            tables: TableSet {
                conversations: false,
                messages: false,
                settings: false,
                model_configs: false,
                plan_status: false,
                step_status: false,
            },
        }
    }
}

/// Effect of the migration with the given version on the set of tables.
/// Every declared migration only creates tables if they are absent, so
/// its effect is idempotent by construction; an unknown version changes
/// nothing here.
pub open spec fn spec_tables_after(t: TableSet, version: u64) -> TableSet {
    if version == 1 {
        TableSet { conversations: true, ..t }
    } else if version == 2 {
        TableSet { messages: true, ..t }
    } else if version == 3 {
        TableSet { settings: true, ..t }
    } else if version == 4 {
        TableSet { model_configs: true, ..t }
    } else if version == 5 {
        TableSet { plan_status: true, step_status: true, ..t }
    } else {
        t
    }
}

/// The runner's treatment of one migration: an `Up` migration whose
/// version is greater than the recorded version is applied and its
/// version recorded; anything else is skipped.
pub open spec fn spec_apply_one(s: SchemaState, m: Migration) -> SchemaState {
    if m.kind == MigrationKind::Up && m.version > s.version {
        SchemaState { version: m.version, tables: spec_tables_after(s.tables, m.version) }
    } else {
        s
    }
}

/// The versions of the list are strictly ascending, as a declared
/// migration list's must be: each migration is versioned above every
/// one before it.
pub open spec fn spec_versions_ascending(l: Seq<Migration>) -> bool {
    forall|i: int, j: int|
        0 <= i < j < l.len() ==> (#[trigger] l[i]).version < (#[trigger] l[j]).version
}

/// The runner's treatment of a whole migration list, in list order.
/// The runner is handed the list in ascending version order (see
/// `apply_migrations`), so list order is ascending version order there.
pub open spec fn spec_apply_seq(s: SchemaState, l: Seq<Migration>) -> SchemaState
    decreases l.len(),
{
    if l.len() == 0 {
        s
    } else {
        spec_apply_seq(spec_apply_one(s, l[0]), l.drop_first())
    }
}

/// The newest version any migration of the list declares; 0 for an empty
/// list.
pub open spec fn spec_max_version(l: Seq<Migration>) -> u64
    decreases l.len(),
{
    if l.len() == 0 {
        0
    } else {
        let rest = spec_max_version(l.drop_last());
        if l.last().version > rest {
            l.last().version
        } else {
            rest
        }
    }
}

/// Why a migration run is refused.
#[derive(Clone, Copy, PartialEq, Eq, Structural, Debug)]
pub enum MigrationError {
    /// The database records a schema version newer than every known
    /// migration: a forward-incompatible state that must stop startup.
    FutureVersion { recorded: u64, newest_known: u64 },
}

/// Applies a migration list to a schema state as the migration runner
/// does: each `Up` migration whose version is greater than the recorded
/// version is applied and its version recorded, in ascending version
/// order — the list is handed over ascending, so list order is that
/// order. A database whose recorded version exceeds every version of
/// the list is rejected unchanged.
pub fn apply_migrations(state: &mut SchemaState, list: &Vec<Migration>) -> (r: Result<
    (),
    MigrationError,
>)
    requires
        spec_versions_ascending(list@),
    ensures
        old(state).version > spec_max_version(list@) ==> r == Err::<(), MigrationError>(
            MigrationError::FutureVersion {
                recorded: old(state).version,
                newest_known: spec_max_version(list@),
            },
        ) && *final(state) == *old(state),
        old(state).version <= spec_max_version(list@) ==> r == Ok::<(), MigrationError>(())
            && *final(state) == spec_apply_seq(*old(state), list@),
{
    let newest = max_version(list);
    if state.version > newest {
        return Err(MigrationError::FutureVersion { recorded: state.version, newest_known: newest });
    }
    let n = list.len();
    let mut i: usize = 0;
    proof {
        assert(list@.skip(0) =~= list@);
    }
    while i < n
        invariant
            i <= n,
            n == list@.len(),
            spec_apply_seq(*old(state), list@) == spec_apply_seq(*state, list@.skip(i as int)),
        decreases n - i,
    {
        proof {
            assert(list@.skip(i as int)[0] == list@[i as int]);
            assert(list@.skip(i as int).drop_first() =~= list@.skip(i + 1));
        }
        let m = &list[i];
        if m.kind == MigrationKind::Up && m.version > state.version {
            state.version = m.version;
            if m.version == 1 {
                state.tables.conversations = true;
            } else if m.version == 2 {
                state.tables.messages = true;
            } else if m.version == 3 {
                state.tables.settings = true;
            } else if m.version == 4 {
                state.tables.model_configs = true;
            } else if m.version == 5 {
                state.tables.plan_status = true;
                state.tables.step_status = true;
            }
        }
        i = i + 1;
    }
    Ok(())
}

/// The newest version any migration of the list declares; 0 for an empty
/// list.
pub fn max_version(list: &Vec<Migration>) -> (newest: u64)
    ensures
        newest == spec_max_version(list@),
{
    let mut newest: u64 = 0;
    let n = list.len();
    let mut i: usize = 0;
    while i < n
        invariant
            i <= n,
            n == list@.len(),
            newest == spec_max_version(list@.take(i as int)),
        decreases n - i,
    {
        proof {
            assert(list@.take(i + 1).drop_last() =~= list@.take(i as int));
            assert(list@.take(i + 1).last() == list@[i as int]);
        }
        if list[i].version > newest {
            newest = list[i].version;
        }
        i = i + 1;
    }
    proof {
        assert(list@.take(n as int) =~= list@);
    }
    newest
}

/// The declared migration list of the chat database: five `Up`
/// migrations, versioned 1 through 5 in order, each creating its tables
/// only if they are absent. Applied to an empty database they produce
/// the full six-table schema.
pub fn migration_list() -> (r: Vec<Migration>)
    ensures
        r@.len() == 5,
        forall|i: int| 0 <= i < 5 ==> (#[trigger] r@[i]).version == i + 1,
        forall|i: int| 0 <= i < 5 ==> (#[trigger] r@[i]).kind == MigrationKind::Up,
        spec_versions_ascending(r@),
        r@[0].description@ == "create conversations table"@,
        r@[1].description@ == "create messages table"@,
        r@[2].description@ == "create settings table"@,
        r@[3].description@ == "create model_configs table"@,
        r@[4].description@ == "create plan and step tracking tables"@,
        r@[0].sql@ == "CREATE TABLE IF NOT EXISTS conversations (
                id TEXT PRIMARY KEY,
                title TEXT NOT NULL,
                created_at INTEGER NOT NULL,
                updated_at INTEGER NOT NULL
            )"@,
        r@[1].sql@ == "CREATE TABLE IF NOT EXISTS messages (
                id TEXT PRIMARY KEY,
                conversation_id TEXT NOT NULL,
                role TEXT NOT NULL,
                content TEXT NOT NULL,
                timestamp INTEGER NOT NULL,
                FOREIGN KEY (conversation_id) REFERENCES conversations (id) ON DELETE CASCADE
            )"@,
        r@[2].sql@ == "CREATE TABLE IF NOT EXISTS settings (
                id TEXT PRIMARY KEY,
                key TEXT NOT NULL UNIQUE,
                value TEXT
            )"@,
        r@[3].sql@ == "CREATE TABLE IF NOT EXISTS model_configs (
                id TEXT PRIMARY KEY,
                name TEXT NOT NULL,
                model_name TEXT NOT NULL,
                api_url TEXT NOT NULL,
                description TEXT,
                prompt_template TEXT,
                temperature REAL DEFAULT 0.7,
                max_tokens INTEGER DEFAULT 1500,
                is_default BOOLEAN DEFAULT 0,
                created_at INTEGER NOT NULL,
                updated_at INTEGER NOT NULL
            )"@,
        r@[4].sql@ == "
                CREATE TABLE IF NOT EXISTS plan_status (
                    id TEXT PRIMARY KEY,
                    message_id TEXT NOT NULL,
                    conversation_id TEXT NOT NULL,
                    plan_steps TEXT NOT NULL,
                    status TEXT DEFAULT 'pending',
                    confirmed_at INTEGER,
                    completed_at INTEGER,
                    task_id TEXT,
                    error TEXT,
                    FOREIGN KEY (conversation_id) REFERENCES conversations(id) ON DELETE CASCADE,
                    UNIQUE(message_id)
                );

                CREATE TABLE IF NOT EXISTS step_status (
                    id TEXT PRIMARY KEY,
                    plan_id TEXT NOT NULL,
                    step_id TEXT NOT NULL,
                    step_number INTEGER NOT NULL,
                    description TEXT NOT NULL,
                    status TEXT DEFAULT 'pending',
                    result TEXT,
                    error TEXT,
                    started_at INTEGER,
                    completed_at INTEGER,
                    FOREIGN KEY (plan_id) REFERENCES plan_status(id) ON DELETE CASCADE,
                    UNIQUE(step_id)
                );
            "@,
        spec_apply_seq(SchemaState::spec_empty(), r@) == (SchemaState {
            version: 5,
            tables: TableSet::spec_full(),
        }),
{
    let mut r: Vec<Migration> = Vec::new();
    r.push(
        Migration {
            version: 1,
            description: String::from_str("create conversations table"),
            sql: String::from_str(
                "CREATE TABLE IF NOT EXISTS conversations (
                id TEXT PRIMARY KEY,
                title TEXT NOT NULL,
                created_at INTEGER NOT NULL,
                updated_at INTEGER NOT NULL
            )",
            ),
            kind: MigrationKind::Up,
        },
    );
    r.push(
        Migration {
            version: 2,
            description: String::from_str("create messages table"),
            sql: String::from_str(
                "CREATE TABLE IF NOT EXISTS messages (
                id TEXT PRIMARY KEY,
                conversation_id TEXT NOT NULL,
                role TEXT NOT NULL,
                content TEXT NOT NULL,
                timestamp INTEGER NOT NULL,
                FOREIGN KEY (conversation_id) REFERENCES conversations (id) ON DELETE CASCADE
            )",
            ),
            kind: MigrationKind::Up,
        },
    );
    r.push(
        Migration {
            version: 3,
            description: String::from_str("create settings table"),
            sql: String::from_str(
                "CREATE TABLE IF NOT EXISTS settings (
                id TEXT PRIMARY KEY,
                key TEXT NOT NULL UNIQUE,
                value TEXT
            )",
            ),
            kind: MigrationKind::Up,
        },
    );
    r.push(
        Migration {
            version: 4,
            description: String::from_str("create model_configs table"),
            sql: String::from_str(
                "CREATE TABLE IF NOT EXISTS model_configs (
                id TEXT PRIMARY KEY,
                name TEXT NOT NULL,
                model_name TEXT NOT NULL,
                api_url TEXT NOT NULL,
                description TEXT,
                prompt_template TEXT,
                temperature REAL DEFAULT 0.7,
                max_tokens INTEGER DEFAULT 1500,
                is_default BOOLEAN DEFAULT 0,
                created_at INTEGER NOT NULL,
                updated_at INTEGER NOT NULL
            )",
            ),
            kind: MigrationKind::Up,
        },
    );
    r.push(
        Migration {
            version: 5,
            description: String::from_str("create plan and step tracking tables"),
            sql: String::from_str(
                "
                CREATE TABLE IF NOT EXISTS plan_status (
                    id TEXT PRIMARY KEY,
                    message_id TEXT NOT NULL,
                    conversation_id TEXT NOT NULL,
                    plan_steps TEXT NOT NULL,
                    status TEXT DEFAULT 'pending',
                    confirmed_at INTEGER,
                    completed_at INTEGER,
                    task_id TEXT,
                    error TEXT,
                    FOREIGN KEY (conversation_id) REFERENCES conversations(id) ON DELETE CASCADE,
                    UNIQUE(message_id)
                );

                CREATE TABLE IF NOT EXISTS step_status (
                    id TEXT PRIMARY KEY,
                    plan_id TEXT NOT NULL,
                    step_id TEXT NOT NULL,
                    step_number INTEGER NOT NULL,
                    description TEXT NOT NULL,
                    status TEXT DEFAULT 'pending',
                    result TEXT,
                    error TEXT,
                    started_at INTEGER,
                    completed_at INTEGER,
                    FOREIGN KEY (plan_id) REFERENCES plan_status(id) ON DELETE CASCADE,
                    UNIQUE(step_id)
                );
            ",
            ),
            kind: MigrationKind::Up,
        },
    );
    proof {
        reveal_with_fuel(spec_apply_seq, 6);
        assert(spec_apply_seq(SchemaState::spec_empty(), r@) == (SchemaState {
            version: 5,
            tables: TableSet::spec_full(),
        }));
    }
    r
}

/// After a run, the recorded version is at least what it was, and at
/// least the version of every `Up` migration of the list.
pub proof fn lemma_apply_seq_version_bound(s: SchemaState, l: Seq<Migration>)
    ensures
        spec_apply_seq(s, l).version >= s.version,
        forall|i: int|
            0 <= i < l.len() && l[i].kind == MigrationKind::Up ==> spec_apply_seq(s, l).version
                >= l[i].version,
    decreases l.len(),
{
    if l.len() > 0 {
        let s1 = spec_apply_one(s, l[0]);
        lemma_apply_seq_version_bound(s1, l.drop_first());
        assert forall|i: int|
            0 <= i < l.len() && l[i].kind == MigrationKind::Up implies spec_apply_seq(
            s,
            l,
        ).version >= l[i].version by {
            if i > 0 {
                assert(l.drop_first()[i - 1] == l[i]);
            }
        }
    }
}

/// A list none of whose `Up` migrations is newer than the recorded
/// version changes nothing.
pub proof fn lemma_apply_seq_stable(s: SchemaState, l: Seq<Migration>)
    requires
        forall|i: int|
            0 <= i < l.len() && l[i].kind == MigrationKind::Up ==> s.version >= l[i].version,
    ensures
        spec_apply_seq(s, l) == s,
    decreases l.len(),
{
    if l.len() > 0 {
        assert(spec_apply_one(s, l[0]) == s);
        assert forall|i: int|
            0 <= i < l.drop_first().len() && l.drop_first()[i].kind
                == MigrationKind::Up implies s.version >= l.drop_first()[i].version by {
            assert(l.drop_first()[i] == l[i + 1]);
        }
        lemma_apply_seq_stable(s, l.drop_first());
    }
}

/// Applying a migration list is idempotent: applying the same list to
/// the state it produced changes nothing, whatever the version sequence.
pub proof fn lemma_apply_migrations_idempotent(s: SchemaState, l: Seq<Migration>)
    ensures
        spec_apply_seq(spec_apply_seq(s, l), l) == spec_apply_seq(s, l),
{
    lemma_apply_seq_version_bound(s, l);
    lemma_apply_seq_stable(spec_apply_seq(s, l), l);
}

} // verus!
