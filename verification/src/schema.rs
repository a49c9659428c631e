//! The database schema, how an older database is brought up to it, and which database errors are
//! fatal.

use crate::text::{cat2, cat3, contains, has_part, same};
use vstd::prelude::*;
use vstd::string::*;

verus! {

/// The tables of the first schema version, with the columns that later versions add.
pub const SCHEMA: &'static str = r#"
CREATE TABLE IF NOT EXISTS operator (
  master_pubkey   TEXT,
  box_index       INTEGER,
  op_pubkey       TEXT,
  payment_backend TEXT,
  compute_backend TEXT,
  relays          TEXT
);

CREATE TABLE IF NOT EXISTS recipe (
  id               TEXT PRIMARY KEY,
  version          TEXT,
  manifest_json    TEXT
);

CREATE TABLE IF NOT EXISTS subscription (
  id                   TEXT PRIMARY KEY,
  recipe_id            TEXT,
  listing_id           TEXT,
  instance_id          TEXT,
  buyer_pubkey         TEXT,
  state                TEXT,
  params_json          TEXT,
  refund_dest          TEXT,
  period_s             INTEGER,
  renew_lead_s         INTEGER,
  retention_s          INTEGER,
  paid_through         INTEGER,
  soft_date            INTEGER,
  next_deadline        INTEGER,
  suspend_not_before   INTEGER,
  created_at           INTEGER,
  updated_at           INTEGER
);

CREATE TABLE IF NOT EXISTS invoice (
  id                 TEXT PRIMARY KEY,
  subscription_id    TEXT,
  external_id        TEXT NOT NULL UNIQUE,
  backend_invoice_id TEXT,
  payment_hash       TEXT,
  kind               TEXT,
  bolt11             TEXT,
  amount_sat         INTEGER,
  status             TEXT,
  expires_at         INTEGER,
  applied_at         INTEGER,
  issued_at          INTEGER,
  settled_at         INTEGER
);

CREATE TABLE IF NOT EXISTS event_log (
  id              INTEGER PRIMARY KEY AUTOINCREMENT,
  subscription_id TEXT,
  kind            TEXT,
  detail_json     TEXT,
  at              INTEGER
);

CREATE TABLE IF NOT EXISTS reservation (
  id             TEXT PRIMARY KEY,
  order_id       TEXT NOT NULL UNIQUE,
  resources_json TEXT,
  ports_json     TEXT,
  state          TEXT,
  expires_at     INTEGER,
  created_at     INTEGER
);

CREATE TABLE IF NOT EXISTS daemon_state (
  last_heartbeat INTEGER
);

CREATE TABLE IF NOT EXISTS refund_attempt (
  id                 TEXT PRIMARY KEY,
  subscription_id    TEXT,
  dest               TEXT,
  amount_sat         INTEGER,
  idempotency_key    TEXT NOT NULL UNIQUE,
  backend_payment_id TEXT,
  status             TEXT NOT NULL,
  attempts           INTEGER,
  resolved_bolt11    TEXT,
  resolved_expiry    INTEGER,
  resolution_gen     INTEGER NOT NULL DEFAULT 0,
  created_at         INTEGER,
  updated_at         INTEGER
);

CREATE TABLE IF NOT EXISTS outbox (
  id              TEXT PRIMARY KEY,
  recipient       TEXT,
  subscription_id TEXT,
  msg_type        TEXT,
  payload_json    TEXT,
  state           TEXT,
  attempts        INTEGER,
  created_at      INTEGER,
  sent_at         INTEGER
);

CREATE TABLE IF NOT EXISTS op_invocation (
  sender_pubkey   TEXT NOT NULL,
  request_id      TEXT NOT NULL,
  subscription_id TEXT,
  op              TEXT,
  state           TEXT NOT NULL CHECK (state IN ('RUNNING','DONE','ERROR')),
  result_json     TEXT,
  error_json      TEXT,
  created_at      INTEGER,
  finished_at     INTEGER,
  PRIMARY KEY (sender_pubkey, request_id)
);

CREATE TABLE IF NOT EXISTS inbound_request (
  sender_pubkey     TEXT NOT NULL,
  request_id        TEXT NOT NULL,
  kind              TEXT NOT NULL,
  response_msg_type TEXT,
  response_json     TEXT,
  created_at        INTEGER,
  PRIMARY KEY (sender_pubkey, request_id)
);

CREATE TABLE IF NOT EXISTS box (
  id             TEXT PRIMARY KEY,
  host_op_pubkey TEXT,
  profile_json   TEXT,
  capacity_json  TEXT,
  state          TEXT,
  last_seen      INTEGER
);

CREATE TABLE IF NOT EXISTS instance (
  id              TEXT PRIMARY KEY,
  subscription_id TEXT,
  box_id          TEXT,
  kind            TEXT,
  handles_json    TEXT,
  state           TEXT,
  created_at      INTEGER,
  updated_at      INTEGER
);

CREATE TABLE IF NOT EXISTS listing (
  id         TEXT PRIMARY KEY,
  recipe_id  TEXT,
  d_tag        TEXT,
  event_id     TEXT,
  amount_sat   INTEGER,
  period_s     INTEGER,
  renew_lead_s INTEGER,
  retention_s  INTEGER,
  state        TEXT,
  updated_at   INTEGER
);

CREATE TABLE IF NOT EXISTS native_connect_session (
  id              TEXT PRIMARY KEY,
  subscription_id TEXT,
  scope           TEXT,
  ticket_json     TEXT,
  state           TEXT,
  expires_at      INTEGER,
  created_at      INTEGER
);

CREATE TABLE IF NOT EXISTS teardown_failure (
  id              TEXT PRIMARY KEY,
  subscription_id TEXT NOT NULL,
  hook            TEXT NOT NULL,
  handles_json    TEXT,
  attempts        INTEGER NOT NULL DEFAULT 0,
  last_error      TEXT,
  first_failed_at INTEGER NOT NULL,
  last_attempt_at INTEGER NOT NULL,
  resolved_at     INTEGER
);

CREATE INDEX IF NOT EXISTS teardown_failure_open_idx ON teardown_failure(resolved_at);

CREATE TABLE IF NOT EXISTS sweep_attempt (
  id                 TEXT PRIMARY KEY,
  bolt11             TEXT,
  amount_sat         INTEGER,
  max_outlay_msat    INTEGER NOT NULL,
  status             TEXT NOT NULL,
  attempts           INTEGER NOT NULL DEFAULT 0,
  backend_payment_id TEXT,
  last_error         TEXT,
  created_at         INTEGER,
  sent_at            INTEGER
);
"#;

/// Version two: inbound messages that were handled, by the id of their outer event.
pub const SEEN_MESSAGE: &'static str = r#"
CREATE TABLE IF NOT EXISTS seen_message (
  event_id  TEXT PRIMARY KEY,
  sender    TEXT,
  msg_type  TEXT,
  seen_at   INTEGER NOT NULL
);
CREATE INDEX IF NOT EXISTS seen_message_seen_at_idx ON seen_message(seen_at);
"#;

/// Version three: the suspension floor that downtime credit sets.
pub const SUSPEND_NOT_BEFORE: &'static str =
    "ALTER TABLE subscription ADD COLUMN suspend_not_before INTEGER;";

/// Version four: the invoice that a refund's destination was resolved to.
pub const REFUND_RESOLUTION: &'static str = "
ALTER TABLE refund_attempt ADD COLUMN resolved_bolt11 TEXT;
ALTER TABLE refund_attempt ADD COLUMN resolved_expiry INTEGER;
ALTER TABLE refund_attempt ADD COLUMN resolution_gen INTEGER NOT NULL DEFAULT 0;
";

/// Version five: indexes for the sweep of the idempotency caches.
pub const IDEMPOTENCY_CACHE_INDEXES: &'static str = "
CREATE INDEX IF NOT EXISTS op_invocation_finished_at_idx ON op_invocation(finished_at);
CREATE INDEX IF NOT EXISTS inbound_request_created_at_idx ON inbound_request(created_at);
";

/// Version six: indexes for the scans of the event log.
pub const EVENT_LOG_INDEXES: &'static str = "
CREATE INDEX IF NOT EXISTS event_log_kind_idx ON event_log(kind);
CREATE INDEX IF NOT EXISTS event_log_sub_kind_idx ON event_log(subscription_id, kind);
";

/// Version seven: teardowns that failed.
pub const TEARDOWN_FAILURE: &'static str = "
CREATE TABLE IF NOT EXISTS teardown_failure (
  id              TEXT PRIMARY KEY,
  subscription_id TEXT NOT NULL,
  hook            TEXT NOT NULL,
  handles_json    TEXT,
  attempts        INTEGER NOT NULL DEFAULT 0,
  last_error      TEXT,
  first_failed_at INTEGER NOT NULL,
  last_attempt_at INTEGER NOT NULL,
  resolved_at     INTEGER
);
CREATE INDEX IF NOT EXISTS teardown_failure_open_idx ON teardown_failure(resolved_at);
";

/// Version eight: operator sweeps.
pub const SWEEP_ATTEMPT: &'static str = "
CREATE TABLE IF NOT EXISTS sweep_attempt (
  id                 TEXT PRIMARY KEY,
  bolt11             TEXT,
  amount_sat         INTEGER,
  max_outlay_msat    INTEGER NOT NULL,
  status             TEXT NOT NULL,
  attempts           INTEGER NOT NULL DEFAULT 0,
  backend_payment_id TEXT,
  last_error         TEXT,
  created_at         INTEGER,
  sent_at            INTEGER
);
";

/// Version nine: indexes for the reaper.
pub const TERMINAL_ROW_REAPER_INDEXES: &'static str = "
CREATE INDEX IF NOT EXISTS reservation_state_created_at_idx ON reservation(state, created_at);
CREATE INDEX IF NOT EXISTS invoice_reap_predicate_idx ON invoice(status, settled_at, expires_at, issued_at);
CREATE INDEX IF NOT EXISTS invoice_subscription_id_idx ON invoice(subscription_id);
CREATE INDEX IF NOT EXISTS event_log_at_kind_idx ON event_log(at, kind);
CREATE INDEX IF NOT EXISTS instance_updated_at_idx ON instance(updated_at);
CREATE INDEX IF NOT EXISTS instance_subscription_id_idx ON instance(subscription_id);
CREATE INDEX IF NOT EXISTS subscription_state_updated_at_idx ON subscription(state, updated_at);
CREATE INDEX IF NOT EXISTS outbox_subscription_state_idx ON outbox(subscription_id, state);
CREATE INDEX IF NOT EXISTS teardown_failure_subscription_idx ON teardown_failure(subscription_id, resolved_at);
CREATE INDEX IF NOT EXISTS native_connect_session_subscription_idx ON native_connect_session(subscription_id, state);
";

/// The schema version that this daemon works with.
pub const SCHEMA_VERSION: i64 = 9;

// ---- errors of the database ------------------------------------------------------------------

/// An error of the database: one of sqlite's result codes with its words, or any other error.
#[derive(Clone, Debug)]
pub enum DbError {
    Sqlite { code: i32, message: Option<String> },
    Other { message: String },
}

/// The primary result code behind an extended one: its low eight bits.
pub open spec fn primary_code(code: i32) -> i32 {
    code & 0xff
}

/// Whether a primary result code means that the database can no longer be written durably: read-only
/// (8), input/output error (10), corrupt (11), full (13) or no database (26).
pub open spec fn is_fatal_code(primary: i32) -> bool {
    primary == 8 || primary == 10 || primary == 11 || primary == 13 || primary == 26
}

/// Whether an error means that the database can no longer be written durably.
pub open spec fn is_fatal(e: DbError) -> bool {
    e matches DbError::Sqlite { code, message } && is_fatal_code(primary_code(code))
}

/// Whether an error means that the database can no longer be written durably: the disk is full, the
/// file is corrupt or no database, it cannot be read or written, or it is read-only. A violated
/// constraint, a row that is missing or a lock that is taken is an ordinary outcome.
pub fn is_fatal_db_error(e: &DbError) -> (r: bool)
    ensures
        r == is_fatal(*e),
{
    match e {
        DbError::Sqlite { code, message: _ } => {
            let primary: i32 = *code & 0xff;
            primary == 8 || primary == 10 || primary == 11 || primary == 13 || primary == 26
        },
        DbError::Other { message: _ } => false,
    }
}

/// Whether an error is sqlite's, with words in which `part` occurs.
pub open spec fn says(e: DbError, part: Seq<char>) -> bool {
    e matches DbError::Sqlite { code, message: Some(m) } && has_part(m@, part)
}

fn error_says(e: &DbError, part: &str) -> (r: bool)
    ensures
        r == says(*e, part@),
{
    match e {
        DbError::Sqlite { code: _, message: Some(m) } => contains(m, part),
        _ => false,
    }
}

/// Whether an error says that the suspension floor's column is already there.
pub fn is_duplicate_suspend_not_before(e: &DbError) -> (r: bool)
    ensures
        r == says(*e, "duplicate column name: suspend_not_before"@),
{
    error_says(e, "duplicate column name: suspend_not_before")
}

/// Whether an error says that one of the resolution columns is already there.
pub open spec fn says_duplicate_resolution(e: DbError) -> bool {
    says(e, "duplicate column name: resolved_bolt11"@) || says(
        e,
        "duplicate column name: resolved_expiry"@,
    ) || says(e, "duplicate column name: resolution_gen"@)
}

/// Whether an error says that one of the resolution columns is already there.
pub fn is_duplicate_refund_resolution(e: &DbError) -> (r: bool)
    ensures
        r == says_duplicate_resolution(*e),
{
    error_says(e, "duplicate column name: resolved_bolt11") || error_says(
        e,
        "duplicate column name: resolved_expiry",
    ) || error_says(e, "duplicate column name: resolution_gen")
}

// ---- opening a database ----------------------------------------------------------------------

/// Refuses a state file that is there but empty: initialising it anew could hide a truncation. The
/// words of the refusal, if the file is refused.
pub fn refuse_empty_file(path: &str, is_file: bool, len: u64) -> (r: Option<String>)
    ensures
        r is Some <==> is_file && len == 0,
        r matches Some(m) ==> m@ == "state DB file exists but is empty for "@ + path@
            + "; refusing to initialize a new database over possible truncation/data loss (remove it only for a deliberate first run, or restore from backup)"@,
{
    if is_file && len == 0 {
        Some(
            cat3(
                "state DB file exists but is empty for ",
                path,
                "; refusing to initialize a new database over possible truncation/data loss (remove it only for a deliberate first run, or restore from backup)",
            ),
        )
    } else {
        None
    }
}

/// Judges the first row of sqlite's quick check: a database is sound where it says `ok`.
pub fn check_integrity(path: &str, verdict: &str) -> (r: Result<(), String>)
    ensures
        r is Ok <==> verdict@ == "ok"@,
        r matches Err(m) ==> m@ == "state DB integrity check failed for "@ + path@ + ": "@
            + verdict@,
{
    if same(verdict, "ok") {
        Ok(())
    } else {
        let head = cat3("state DB integrity check failed for ", path, ": ");
        Err(cat2(&head, verdict))
    }
}

// ---- migrations ------------------------------------------------------------------------------

/// The statements that take a database from `version` to the next; `None` for a version that is
/// current or unknown.
pub open spec fn statements(version: int) -> Option<Seq<char>> {
    if version == 0 {
        Some(SCHEMA@)
    } else if version == 1 {
        Some(SEEN_MESSAGE@)
    } else if version == 2 {
        Some(SUSPEND_NOT_BEFORE@)
    } else if version == 3 {
        Some(REFUND_RESOLUTION@)
    } else if version == 4 {
        Some(IDEMPOTENCY_CACHE_INDEXES@)
    } else if version == 5 {
        Some(EVENT_LOG_INDEXES@)
    } else if version == 6 {
        Some(TEARDOWN_FAILURE@)
    } else if version == 7 {
        Some(SWEEP_ATTEMPT@)
    } else if version == 8 {
        Some(TERMINAL_ROW_REAPER_INDEXES@)
    } else {
        None
    }
}

/// The statements that take a database from `version` to the next.
pub fn migration(version: i64) -> (r: Option<&'static str>)
    ensures
        match r {
            Some(sql) => statements(version as int) == Some(sql@),
            None => statements(version as int) is None,
        },
        r is Some <==> 0 <= version < SCHEMA_VERSION,
{
    match version {
        0 => Some(SCHEMA),
        1 => Some(SEEN_MESSAGE),
        2 => Some(SUSPEND_NOT_BEFORE),
        3 => Some(REFUND_RESOLUTION),
        4 => Some(IDEMPOTENCY_CACHE_INDEXES),
        5 => Some(EVENT_LOG_INDEXES),
        6 => Some(TEARDOWN_FAILURE),
        7 => Some(SWEEP_ATTEMPT),
        8 => Some(TERMINAL_ROW_REAPER_INDEXES),
        _ => None,
    }
}

/// The resolution columns, in the order in which they are added.
pub open spec fn resolution_column(i: int) -> Seq<char> {
    if i == 0 {
        "resolved_bolt11"@
    } else if i == 1 {
        "resolved_expiry"@
    } else {
        "resolution_gen"@
    }
}

/// The statement that adds a resolution column.
pub open spec fn resolution_ddl(i: int) -> Seq<char> {
    if i == 0 {
        "ALTER TABLE refund_attempt ADD COLUMN resolved_bolt11 TEXT"@
    } else if i == 1 {
        "ALTER TABLE refund_attempt ADD COLUMN resolved_expiry INTEGER"@
    } else {
        "ALTER TABLE refund_attempt ADD COLUMN resolution_gen INTEGER NOT NULL DEFAULT 0"@
    }
}

/// Where a migration stands.
#[derive(Clone, Debug)]
pub enum MigrationStage {
    /// The statements of the version are applied.
    Applying,
    /// They failed because the suspension floor's column is there already, or so the error says.
    CheckFloor { error: DbError },
    /// Whether a resolution column is there, after one of them turned out to be.
    CheckColumn { column: u8 },
    /// A resolution column is added.
    AddColumn { column: u8 },
    /// The version is counted up.
    Stamping,
    Done,
    Failed { error: DbError },
}

/// What a migration asks to be done next.
#[derive(Clone, Debug)]
pub enum MigrationAsk {
    Execute { sql: &'static str },
    HasColumn { table: &'static str, column: &'static str },
    SetVersion { version: i64 },
    Done,
    Failed { error: DbError },
}

/// What came of it.
#[derive(Clone, Debug)]
pub enum MigrationEvent {
    Executed,
    HasColumn(bool),
    Failed { error: DbError },
}

/// The way of a database from its version to [`SCHEMA_VERSION`].
#[derive(Clone, Debug)]
pub struct Migration {
    pub version: i64,
    pub stage: MigrationStage,
}

/// What follows the resolution columns up to `column`.
pub open spec fn after_column(column: u8) -> MigrationStage {
    if column >= 2 {
        MigrationStage::Stamping
    } else {
        MigrationStage::CheckColumn { column: (column + 1) as u8 }
    }
}

/// The stage at which a version starts.
pub open spec fn stage_at(version: int) -> MigrationStage {
    if 0 <= version < SCHEMA_VERSION {
        MigrationStage::Applying
    } else {
        MigrationStage::Done
    }
}

impl Migration {
    pub open spec fn valid(self) -> bool {
        match self.stage {
            MigrationStage::Done | MigrationStage::Failed { .. } => true,
            MigrationStage::CheckColumn { column } => 0 <= self.version < SCHEMA_VERSION && column
                < 3,
            MigrationStage::AddColumn { column } => 0 <= self.version < SCHEMA_VERSION && column < 3,
            _ => 0 <= self.version < SCHEMA_VERSION,
        }
    }

    /// Whether this is what a migration asks for.
    pub open spec fn asks(self, r: MigrationAsk) -> bool {
        match self.stage {
            MigrationStage::Applying => r matches MigrationAsk::Execute { sql } && Some(sql@)
                == statements(self.version as int),
            MigrationStage::CheckFloor { error } => r matches MigrationAsk::HasColumn {
                table,
                column,
            } && table@ == "subscription"@ && column@ == "suspend_not_before"@,
            MigrationStage::CheckColumn { column: i } => r matches MigrationAsk::HasColumn {
                table,
                column,
            } && table@ == "refund_attempt"@ && column@ == resolution_column(i as int),
            MigrationStage::AddColumn { column: i } => r matches MigrationAsk::Execute { sql }
                && sql@ == resolution_ddl(i as int),
            MigrationStage::Stamping => r == (MigrationAsk::SetVersion {
                version: (self.version + 1) as i64,
            }),
            MigrationStage::Done => r is Done,
            MigrationStage::Failed { error } => r == (MigrationAsk::Failed { error }),
        }
    }

    /// Where an answer leads. An answer to a question that was not asked leads nowhere.
    pub open spec fn next(self, event: MigrationEvent) -> Migration {
        match (self.stage, event) {
            (MigrationStage::Applying, MigrationEvent::Executed) => Migration {
                stage: MigrationStage::Stamping,
                ..self
            },
            (MigrationStage::Applying, MigrationEvent::Failed { error }) => Migration {
                stage: if self.version == 2 && says(
                    error,
                    "duplicate column name: suspend_not_before"@,
                ) {
                    MigrationStage::CheckFloor { error }
                } else if self.version == 3 && says_duplicate_resolution(error) {
                    MigrationStage::CheckColumn { column: 0 }
                } else {
                    MigrationStage::Failed { error }
                },
                ..self
            },
            (MigrationStage::CheckFloor { error }, MigrationEvent::HasColumn(there)) => Migration {
                stage: if there {
                    MigrationStage::Stamping
                } else {
                    MigrationStage::Failed { error }
                },
                ..self
            },
            (MigrationStage::CheckColumn { column }, MigrationEvent::HasColumn(there)) => Migration {
                stage: if there {
                    after_column(column)
                } else {
                    MigrationStage::AddColumn { column }
                },
                ..self
            },
            (MigrationStage::AddColumn { column }, MigrationEvent::Executed) => Migration {
                stage: after_column(column),
                ..self
            },
            (MigrationStage::Stamping, MigrationEvent::Executed) => Migration {
                version: (self.version + 1) as i64,
                stage: stage_at(self.version + 1),
            },
            (MigrationStage::Done, _) => self,
            (MigrationStage::Failed { .. }, _) => self,
            (_, MigrationEvent::Failed { error }) => Migration {
                stage: MigrationStage::Failed { error },
                ..self
            },
            _ => self,
        }
    }

    /// Starts from the version that the database has.
    pub fn start(version: i64) -> (r: Migration)
        ensures
            r == (Migration { version, stage: stage_at(version as int) }),
            r.valid(),
    {
        let stage = if 0 <= version && version < SCHEMA_VERSION {
            MigrationStage::Applying
        } else {
            MigrationStage::Done
        };
        Migration { version, stage }
    }

    /// What is to be done next.
    pub fn ask(&self) -> (r: MigrationAsk)
        requires
            self.valid(),
        ensures
            self.asks(r),
    {
        match &self.stage {
            MigrationStage::Applying => {
                match migration(self.version) {
                    Some(sql) => MigrationAsk::Execute { sql },
                    None => MigrationAsk::Done,
                }
            },
            MigrationStage::CheckFloor { error: _ } => MigrationAsk::HasColumn {
                table: "subscription",
                column: "suspend_not_before",
            },
            MigrationStage::CheckColumn { column } => MigrationAsk::HasColumn {
                table: "refund_attempt",
                column: match *column {
                    0 => "resolved_bolt11",
                    1 => "resolved_expiry",
                    _ => "resolution_gen",
                },
            },
            MigrationStage::AddColumn { column } => MigrationAsk::Execute {
                sql: match *column {
                    0 => "ALTER TABLE refund_attempt ADD COLUMN resolved_bolt11 TEXT",
                    1 => "ALTER TABLE refund_attempt ADD COLUMN resolved_expiry INTEGER",
                    _ => {
                        "ALTER TABLE refund_attempt ADD COLUMN resolution_gen INTEGER NOT NULL DEFAULT 0"
                    },
                },
            },
            MigrationStage::Stamping => MigrationAsk::SetVersion { version: self.version + 1 },
            MigrationStage::Done => MigrationAsk::Done,
            MigrationStage::Failed { error } => MigrationAsk::Failed { error: copy_error(error) },
        }
    }

    /// Takes the answer to what was asked.
    pub fn step(self, event: MigrationEvent) -> (r: Migration)
        requires
            self.valid(),
        ensures
            r == self.next(event),
            r.valid(),
    {
        let version: i64 = self.version;
        match (self.stage, event) {
            (MigrationStage::Applying, MigrationEvent::Executed) => Migration {
                version,
                stage: MigrationStage::Stamping,
            },
            (MigrationStage::Applying, MigrationEvent::Failed { error }) => {
                let stage = if version == 2 && is_duplicate_suspend_not_before(&error) {
                    MigrationStage::CheckFloor { error }
                } else if version == 3 && is_duplicate_refund_resolution(&error) {
                    MigrationStage::CheckColumn { column: 0 }
                } else {
                    MigrationStage::Failed { error }
                };
                Migration { version, stage }
            },
            (MigrationStage::CheckFloor { error }, MigrationEvent::HasColumn(there)) => {
                let stage = if there {
                    MigrationStage::Stamping
                } else {
                    MigrationStage::Failed { error }
                };
                Migration { version, stage }
            },
            (MigrationStage::CheckColumn { column }, MigrationEvent::HasColumn(there)) => {
                let stage = if !there {
                    MigrationStage::AddColumn { column }
                } else if column >= 2 {
                    MigrationStage::Stamping
                } else {
                    MigrationStage::CheckColumn { column: column + 1 }
                };
                Migration { version, stage }
            },
            (MigrationStage::AddColumn { column }, MigrationEvent::Executed) => {
                let stage = if column >= 2 {
                    MigrationStage::Stamping
                } else {
                    MigrationStage::CheckColumn { column: column + 1 }
                };
                Migration { version, stage }
            },
            (MigrationStage::Stamping, MigrationEvent::Executed) => Migration::start(version + 1),
            (MigrationStage::Done, _) => Migration { version, stage: MigrationStage::Done },
            (MigrationStage::Failed { error }, _) => Migration {
                version,
                stage: MigrationStage::Failed { error },
            },
            (_, MigrationEvent::Failed { error }) => Migration {
                version,
                stage: MigrationStage::Failed { error },
            },
            (stage, _) => Migration { version, stage },
        }
    }
}

fn copy_error(e: &DbError) -> (r: DbError)
    ensures
        r == *e,
{
    match e {
        DbError::Sqlite { code, message } => DbError::Sqlite {
            code: *code,
            message: message.clone(),
        },
        DbError::Other { message } => DbError::Other { message: message.clone() },
    }
}

/// A migration after as many statements that succeeded.
pub open spec fn run_ok(m: Migration, steps: nat) -> Migration
    decreases steps,
{
    if steps == 0 {
        m
    } else {
        run_ok(m.next(MigrationEvent::Executed), (steps - 1) as nat)
    }
}

/// A database of any known version comes to the current one, version by version: the statements of
/// each are applied before it is counted.
pub proof fn migration_reaches_the_current_version(version: i64)
    requires
        0 <= version <= SCHEMA_VERSION,
    ensures
        run_ok(
            Migration { version, stage: stage_at(version as int) },
            (2 * (SCHEMA_VERSION - version)) as nat,
        ) == (Migration { version: SCHEMA_VERSION, stage: MigrationStage::Done }),
    decreases SCHEMA_VERSION - version,
{
    let m = Migration { version, stage: stage_at(version as int) };
    if version < SCHEMA_VERSION {
        let a = m.next(MigrationEvent::Executed);
        let b = a.next(MigrationEvent::Executed);
        let n = (2 * (SCHEMA_VERSION - version)) as nat;
        assert(run_ok(m, n) == run_ok(a, (n - 1) as nat));
        assert(run_ok(a, (n - 1) as nat) == run_ok(b, (n - 2) as nat));
        migration_reaches_the_current_version((version + 1) as i64);
    }
}

/// A current database is left as it is, whatever is said: migrating twice does nothing more.
pub proof fn migration_of_a_current_database_is_done(event: MigrationEvent)
    ensures
        ({
            let m = Migration { version: SCHEMA_VERSION, stage: stage_at(SCHEMA_VERSION as int) };
            m.stage is Done && m.next(event) == m
        }),
{
}

/// No answer takes a database back to an earlier version.
pub proof fn migration_never_goes_back(m: Migration, event: MigrationEvent)
    requires
        m.valid(),
    ensures
        m.version <= m.next(event).version <= m.version + 1,
        m.next(event).version == m.version + 1 ==> m.stage is Stamping && event is Executed,
{
}

/// Which errors are fatal: those whose result code, or the code in the low eight bits of an extended
/// one, is read-only, input/output error, corrupt, full or no database. Any other error, and any other
/// code, is an ordinary outcome.
pub proof fn fatal_codes_one_by_one(primary: i32, extension: i32, message: Option<String>)
    requires
        0 <= primary < 256,
        0 <= extension < 0x40_0000,
    ensures
        is_fatal(
            DbError::Sqlite { code: (primary + 256 * extension) as i32, message },
        ) <==> primary == 8 || primary == 10 || primary == 11 || primary == 13 || primary == 26,
        message matches Some(m) ==> !is_fatal(DbError::Other { message: m }),
{
    let code = (primary + 256 * extension) as i32;
    assert(code & 0xff == code % 256) by (bit_vector)
        requires
            code >= 0,
    ;
    assert(code % 256 == primary);
}

/// What each version's statements are for, from the first on: the tables, the messages that were seen,
/// the suspension floor, the resolution of refunds, the indexes of the caches and of the event log, the
/// teardowns that failed, the sweeps that were tried, and the indexes of the reaper. There are none for
/// any other version.
pub proof fn every_version_has_its_statements(version: int)
    ensures
        statements(0) == Some(SCHEMA@),
        statements(1) == Some(SEEN_MESSAGE@),
        statements(2) == Some(SUSPEND_NOT_BEFORE@),
        statements(3) == Some(REFUND_RESOLUTION@),
        statements(4) == Some(IDEMPOTENCY_CACHE_INDEXES@),
        statements(5) == Some(EVENT_LOG_INDEXES@),
        statements(6) == Some(TEARDOWN_FAILURE@),
        statements(7) == Some(SWEEP_ATTEMPT@),
        statements(8) == Some(TERMINAL_ROW_REAPER_INDEXES@),
        version < 0 || version > 8 ==> statements(version) is None,
{
}

/// A statement that fails ends the migration, with the database at the version it had, unless it failed
/// because a column of that very version is said to be there already: then the columns are looked at.
pub proof fn failed_statement_ends_the_migration(m: Migration, error: DbError)
    requires
        m.valid(),
    ensures
        ({
            let n = m.next(MigrationEvent::Failed { error });
            let floor = m.version == 2 && (error matches DbError::Sqlite {
                code,
                message: Some(w),
            } && has_part(w@, "duplicate column name: suspend_not_before"@));
            let resolution = m.version == 3 && (error matches DbError::Sqlite {
                code,
                message: Some(w),
            } && (has_part(w@, "duplicate column name: resolved_bolt11"@) || has_part(
                w@,
                "duplicate column name: resolved_expiry"@,
            ) || has_part(w@, "duplicate column name: resolution_gen"@)));
            &&& n.version == m.version
            &&& m.stage is Applying && floor ==> n.stage == (MigrationStage::CheckFloor { error })
            &&& m.stage is Applying && resolution ==> n.stage == (MigrationStage::CheckColumn {
                column: 0,
            })
            &&& m.stage is Applying && !floor && !resolution ==> n.stage == (
            MigrationStage::Failed { error })
            &&& !(m.stage is Applying) && !(m.stage is Done) && !(m.stage is Failed) ==> n.stage == (
            MigrationStage::Failed { error })
        }),
{
}

/// The suspension floor's column lets the version be counted only where it is really there; where it is
/// not, the error stands.
pub proof fn floor_column_must_be_there(m: Migration, error: DbError, there: bool)
    requires
        m.stage == (MigrationStage::CheckFloor { error }),
    ensures
        m.next(MigrationEvent::HasColumn(there)).stage is Stamping <==> there,
        !there ==> m.next(MigrationEvent::HasColumn(there)).stage == (MigrationStage::Failed {
            error,
        }),
{
}

/// A migration of which one resolution column was looked at and, where it was missing, added.
pub open spec fn with_column(m: Migration, there: bool) -> Migration {
    let looked = m.next(MigrationEvent::HasColumn(there));
    if there {
        looked
    } else {
        looked.next(MigrationEvent::Executed)
    }
}

/// Each of the three resolution columns is looked at and added where it is missing, in turn, and only
/// then is the version counted.
pub proof fn every_resolution_column_is_there_in_the_end(version: i64, a: bool, b: bool, c: bool)
    ensures
        ({
            let m = Migration { version, stage: MigrationStage::CheckColumn { column: 0 } };
            let one = with_column(m, a);
            let two = with_column(one, b);
            &&& one.stage == (MigrationStage::CheckColumn { column: 1 })
            &&& two.stage == (MigrationStage::CheckColumn { column: 2 })
            &&& with_column(two, c).stage is Stamping
            &&& with_column(two, c).version == version
            &&& !a ==> m.next(MigrationEvent::HasColumn(false)).stage == (
            MigrationStage::AddColumn { column: 0 })
            &&& !c ==> two.next(MigrationEvent::HasColumn(false)).stage == (
            MigrationStage::AddColumn { column: 2 })
        }),
        resolution_column(0) == "resolved_bolt11"@,
        resolution_column(1) == "resolved_expiry"@,
        resolution_column(2) == "resolution_gen"@,
{
}

/// The statement that adds a resolution column names that column.
pub proof fn added_column_is_the_one_that_was_missing(i: int)
    requires
        0 <= i < 3,
    ensures
        has_part(resolution_ddl(i), resolution_column(i)),
{
    reveal_strlit("ALTER TABLE refund_attempt ADD COLUMN resolved_bolt11 TEXT");
    reveal_strlit("ALTER TABLE refund_attempt ADD COLUMN resolved_expiry INTEGER");
    reveal_strlit("ALTER TABLE refund_attempt ADD COLUMN resolution_gen INTEGER NOT NULL DEFAULT 0");
    reveal_strlit("resolved_bolt11");
    reveal_strlit("resolved_expiry");
    reveal_strlit("resolution_gen");
    let n = resolution_column(i).len() as int;
    assert(resolution_ddl(i).subrange(38, 38 + n) =~= resolution_column(i));
}

/// What a migration asks for: only the statements of its own version and missing columns are executed,
/// each column is looked for in its own table, and the version is set to one more than it is, once the
/// statements of this one were applied.
pub proof fn migration_asks_for_its_own_version(m: Migration, r: MigrationAsk)
    requires
        m.asks(r),
        m.valid(),
    ensures
        m.stage is Applying ==> (r matches MigrationAsk::Execute { sql } && statements(
            m.version as int,
        ) == Some(sql@)),
        r matches MigrationAsk::SetVersion { version } ==> m.stage is Stamping && version == m.version
            + 1 && 1 <= version <= 9,
        m.stage is Stamping ==> r is SetVersion,
        m.stage is CheckFloor ==> (r matches MigrationAsk::HasColumn { table, column } && table@
            == "subscription"@ && column@ == "suspend_not_before"@),
        m.stage matches MigrationStage::CheckColumn { column: i } ==> (r
            matches MigrationAsk::HasColumn { table, column } && table@ == "refund_attempt"@
            && column@ == resolution_column(i as int)),
        m.stage matches MigrationStage::AddColumn { column: i } ==> (r
            matches MigrationAsk::Execute { sql } && sql@ == resolution_ddl(i as int)),
        r is Done <==> m.stage is Done,
        r is Failed <==> m.stage is Failed,
{
}

} // verus!
