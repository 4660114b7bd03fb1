//! The state machine: the key-value namespace and the catalog behind one
//! entry point.
//!
//! Every change is a command in a log entry, and `apply` is the one place
//! where a command takes effect. An entry carries its position in the log and
//! the time at which it is to be applied, so what `apply` does and returns is
//! decided by the state and the entry alone: the same log gives the same
//! state wherever it is replayed. The state remembers the position and the
//! result of the last entry applied; the same position coming in again
//! changes nothing and gets the result that is remembered.

use vstd::prelude::*;
use vstd::string::*;
use crate::catalog::{
    Catalog, CatalogState, CreateDatabaseActionResult, CreateTableActionResult,
    DatabaseMetaSnapshot, DropDatabaseActionResult, DropTableActionResult, GetDatabaseActionResult,
    GetTableActionResult,
};
use crate::error::{MetaError, MetaErrorView};
use crate::kv::{
    empty_key_error, key_views, opt_bytes, GenericKV, GetKVActionResult, KvState,
    MGetKVActionResult, PrefixListReply, UpsertKVActionResult, UpsertView,
};
use crate::kv_value::KVMeta;
use crate::match_seq::MatchSeq;
use crate::plan::{CreateDatabasePlan, CreateTablePlan, DropDatabasePlan, DropTablePlan};
use crate::schema::DataFieldView;

verus! {

/// A change to the state.
#[derive(Debug, PartialEq, Eq)]
pub enum Cmd {
    /// Write a value under a key, or remove the key.
    UpsertKV { key: String, seq: MatchSeq, value: Option<Vec<u8>>, value_meta: Option<KVMeta> },
    /// Replace the metadata of the entry under a key.
    UpdateKVMeta { key: String, seq: MatchSeq, value_meta: Option<KVMeta> },
    CreateDatabase(CreateDatabasePlan),
    DropDatabase(DropDatabasePlan),
    CreateTable(CreateTablePlan),
    DropTable(DropTablePlan),
}

/// A `Cmd` as contracts see it.
pub enum CmdView {
    UpsertKV { key: Seq<char>, seq: MatchSeq, value: Option<Seq<u8>>, value_meta: Option<KVMeta> },
    UpdateKVMeta { key: Seq<char>, seq: MatchSeq, value_meta: Option<KVMeta> },
    CreateDatabase {
        db: Seq<char>,
        if_not_exists: bool,
        engine: Seq<char>,
        options: Map<String, String>,
    },
    DropDatabase { db: Seq<char>, if_exists: bool },
    CreateTable {
        db: Seq<char>,
        table: Seq<char>,
        if_not_exists: bool,
        schema: Seq<DataFieldView>,
        engine: Seq<char>,
        options: Map<String, String>,
    },
    DropTable { db: Seq<char>, table: Seq<char>, if_exists: bool },
}

impl View for Cmd {
    type V = CmdView;

    open spec fn view(&self) -> CmdView {
        match self {
            Cmd::UpsertKV { key, seq, value, value_meta } => CmdView::UpsertKV {
                key: key@,
                seq: *seq,
                value: opt_bytes(*value),
                value_meta: *value_meta,
            },
            Cmd::UpdateKVMeta { key, seq, value_meta } => CmdView::UpdateKVMeta {
                key: key@,
                seq: *seq,
                value_meta: *value_meta,
            },
            Cmd::CreateDatabase(plan) => CmdView::CreateDatabase {
                db: plan.db@,
                if_not_exists: plan.if_not_exists,
                engine: plan.engine@,
                options: plan.options@,
            },
            Cmd::DropDatabase(plan) => CmdView::DropDatabase {
                db: plan.db@,
                if_exists: plan.if_exists,
            },
            Cmd::CreateTable(plan) => CmdView::CreateTable {
                db: plan.db@,
                table: plan.table@,
                if_not_exists: plan.if_not_exists,
                schema: plan.schema@,
                engine: plan.engine@,
                options: plan.options@,
            },
            Cmd::DropTable(plan) => CmdView::DropTable {
                db: plan.db@,
                table: plan.table@,
                if_exists: plan.if_exists,
            },
        }
    }
}

/// One entry of the log.
#[derive(Debug, PartialEq, Eq)]
pub struct LogEntry {
    /// The entry's position in the log.
    pub index: u64,
    /// The time at which the command is applied, in seconds since the Unix
    /// epoch.
    pub time: u64,
    pub cmd: Cmd,
}

/// A `LogEntry` as contracts see it.
pub struct LogEntryView {
    pub index: u64,
    pub time: u64,
    pub cmd: CmdView,
}

impl View for LogEntry {
    type V = LogEntryView;

    open spec fn view(&self) -> LogEntryView {
        LogEntryView { index: self.index, time: self.time, cmd: self.cmd@ }
    }
}

/// What a command that was applied reports.
#[derive(Debug, PartialEq, Eq)]
pub enum AppliedState {
    /// The entry before and after a write to the key-value namespace.
    KV(UpsertKVActionResult),
    /// The id of the database that was created, or was there already.
    Database(CreateDatabaseActionResult),
    /// The id of the table that was created, or was there already.
    Table(CreateTableActionResult),
    /// A database or a table was dropped, or was not there to be dropped.
    Dropped,
}

/// An `AppliedState` as contracts see it.
pub enum AppliedView {
    KV(UpsertView),
    Database(u64),
    Table(u64),
    Dropped,
}

impl View for AppliedState {
    type V = AppliedView;

    open spec fn view(&self) -> AppliedView {
        match self {
            AppliedState::KV(r) => AppliedView::KV(r@),
            AppliedState::Database(r) => AppliedView::Database(r.database_id),
            AppliedState::Table(r) => AppliedView::Table(r.table_id),
            AppliedState::Dropped => AppliedView::Dropped,
        }
    }
}

impl Clone for AppliedState {
    fn clone(&self) -> (r: Self)
        ensures
            r@ == self@,
    {
        match self {
            AppliedState::KV(r) => AppliedState::KV(r.clone()),
            AppliedState::Database(r) => AppliedState::Database(
                CreateDatabaseActionResult { database_id: r.database_id },
            ),
            AppliedState::Table(r) => AppliedState::Table(
                CreateTableActionResult { table_id: r.table_id },
            ),
            AppliedState::Dropped => AppliedState::Dropped,
        }
    }
}

/// What applying a log entry returns.
pub type OperationResult = Result<AppliedState, MetaError>;

/// An `OperationResult` as contracts see it.
pub type OperationView = Result<AppliedView, MetaErrorView>;

/// The view of an `OperationResult`.
pub open spec fn result_view(r: OperationResult) -> OperationView {
    match r {
        Ok(a) => Ok(a@),
        Err(e) => Err(e@),
    }
}

/// The view of what is remembered of the last entry.
pub open spec fn applied_view(last: Option<(u64, OperationResult)>) -> Option<(u64, OperationView)> {
    match last {
        Some(l) => Some((l.0, result_view(l.1))),
        None => None,
    }
}

/// A copy of an `OperationResult`.
pub fn clone_result(r: &OperationResult) -> (c: OperationResult)
    ensures
        result_view(c) == result_view(*r),
{
    match r {
        Ok(a) => Ok(a.clone()),
        Err(e) => Err(e.clone()),
    }
}

/// The error that answers a log entry from before the last one applied.
pub open spec fn stale_entry_error() -> MetaErrorView {
    MetaErrorView::InvalidArgument("log entry is older than the last one applied"@)
}

/// What the catalog returns for a creation, as the result of a command.
pub open spec fn created(r: Result<u64, MetaErrorView>, database: bool) -> OperationView {
    match r {
        Ok(id) => if database {
            Ok(AppliedView::Database(id))
        } else {
            Ok(AppliedView::Table(id))
        },
        Err(e) => Err(e),
    }
}

/// What the catalog returns for a drop, as the result of a command.
pub open spec fn dropped(r: Result<(), MetaErrorView>) -> OperationView {
    match r {
        Ok(_) => Ok(AppliedView::Dropped),
        Err(e) => Err(e),
    }
}

/// The state machine as contracts see it.
pub struct MachineState {
    pub kv: KvState,
    pub catalog: CatalogState,
    /// The position and the result of the last log entry applied.
    pub last_applied: Option<(u64, OperationView)>,
}

impl MachineState {
    /// The state before any log entry.
    pub open spec fn init() -> MachineState {
        MachineState { kv: KvState::init(), catalog: CatalogState::init(), last_applied: None }
    }

    /// The namespace and the catalog are well-formed.
    pub open spec fn wf(self) -> bool {
        self.kv.wf() && self.catalog.wf()
    }

    /// Every counter can be raised once more.
    pub open spec fn has_room(self) -> bool {
        self.kv.has_room() && self.catalog.has_room()
    }

    /// The log can take one more entry behind the last one applied.
    pub open spec fn has_log_room(self) -> bool {
        match self.last_applied {
            Some(l) => l.0 < u64::MAX,
            None => true,
        }
    }

    /// The position behind the last entry applied; 1 where none was.
    pub open spec fn next_index(self) -> u64 {
        match self.last_applied {
            Some(l) => (l.0 + 1) as u64,
            None => 1,
        }
    }

    /// What a command does at time `time`: the namespace and the catalog after
    /// it, and its result.
    pub open spec fn execute(self, time: u64, cmd: CmdView) -> (MachineState, OperationView) {
        match cmd {
            CmdView::UpsertKV { key, seq, value, value_meta } => {
                if key.len() == 0 {
                    (self, Err(empty_key_error()))
                } else {
                    let (kv, r) = self.kv.upsert(key, seq, value, value_meta, time);
                    (MachineState { kv, ..self }, Ok(AppliedView::KV(r)))
                }
            },
            CmdView::UpdateKVMeta { key, seq, value_meta } => {
                if key.len() == 0 {
                    (self, Err(empty_key_error()))
                } else {
                    let (kv, r) = self.kv.update_meta(key, seq, value_meta, time);
                    (MachineState { kv, ..self }, Ok(AppliedView::KV(r)))
                }
            },
            CmdView::CreateDatabase { db, if_not_exists, engine, options } => {
                let (catalog, r) = self.catalog.create_database(db, if_not_exists, engine, options);
                (MachineState { catalog, ..self }, created(r, true))
            },
            CmdView::DropDatabase { db, if_exists } => {
                let (catalog, r) = self.catalog.drop_database(db, if_exists);
                (MachineState { catalog, ..self }, dropped(r))
            },
            CmdView::CreateTable { db, table, if_not_exists, schema, engine, options } => {
                let (catalog, r) = self.catalog.create_table(
                    db,
                    table,
                    if_not_exists,
                    schema,
                    engine,
                    options,
                );
                (MachineState { catalog, ..self }, created(r, false))
            },
            CmdView::DropTable { db, table, if_exists } => {
                let (catalog, r) = self.catalog.drop_table(db, table, if_exists);
                (MachineState { catalog, ..self }, dropped(r))
            },
        }
    }

    /// Whether `entry` stands at the position of the last entry applied.
    pub open spec fn is_replay(self, entry: LogEntryView) -> bool {
        self.last_applied matches Some(l) && entry.index == l.0
    }

    /// Whether `entry` stands before the last entry applied.
    pub open spec fn is_stale(self, entry: LogEntryView) -> bool {
        self.last_applied matches Some(l) && entry.index < l.0
    }

    /// What applying a log entry does: the state after it, and what is
    /// returned.
    ///
    /// An entry at the position of the last one applied changes nothing and
    /// gets the result of that one. An entry from before that position changes
    /// nothing and gets an error. Any other entry has its command executed at
    /// the entry's time, and its position and result remembered.
    pub open spec fn apply(self, entry: LogEntryView) -> (MachineState, OperationView) {
        match self.last_applied {
            Some(l) if entry.index == l.0 => (self, l.1),
            Some(l) if entry.index < l.0 => (self, Err(stale_entry_error())),
            _ => {
                let (after, r) = self.execute(entry.time, entry.cmd);
                (MachineState { last_applied: Some((entry.index, r)), ..after }, r)
            },
        }
    }
}

impl MachineState {
    /// Every counter can be raised `n` times more.
    pub open spec fn room_for(self, n: nat) -> bool {
        &&& self.kv.seq + n <= u64::MAX
        &&& self.catalog.meta_ver + n <= u64::MAX
        &&& self.catalog.last_database_id + n <= u64::MAX
        &&& self.catalog.last_table_id + n <= u64::MAX
    }

    /// The state after a log: each entry applied in turn.
    pub open spec fn replay(self, log: Seq<LogEntryView>) -> MachineState
        decreases log.len(),
    {
        if log.len() == 0 {
            self
        } else {
            self.apply(log[0]).0.replay(log.drop_first())
        }
    }

    /// What the entry at position `i` of a log returns when the log is
    /// replayed from this state.
    pub open spec fn result_at(self, log: Seq<LogEntryView>, i: int) -> OperationView {
        self.replay(log.take(i)).apply(log[i]).1
    }
}

/// The views of the entries of a log.
pub open spec fn entry_views(log: Seq<LogEntry>) -> Seq<LogEntryView> {
    Seq::new(log.len(), |i: int| log[i]@)
}

/// Replaying a log in two parts gives the state that replaying it whole
/// gives.
pub proof fn lemma_replay_in_parts(
    s: MachineState,
    head: Seq<LogEntryView>,
    tail: Seq<LogEntryView>,
)
    ensures
        s.replay(head + tail) == s.replay(head).replay(tail),
    decreases head.len(),
{
    if head.len() == 0 {
        assert(head + tail =~= tail);
    } else {
        assert((head + tail)[0] == head[0]);
        assert((head + tail).drop_first() =~= head.drop_first() + tail);
        lemma_replay_in_parts(s.apply(head[0]).0, head.drop_first(), tail);
    }
}

/// Replaying one entry more is applying that entry to the state that the
/// entries before it gave.
pub proof fn lemma_replay_step(s: MachineState, log: Seq<LogEntryView>, i: int)
    requires
        0 <= i < log.len(),
    ensures
        s.replay(log.take(i + 1)) == s.replay(log.take(i)).apply(log[i]).0,
{
    let one = seq![log[i]];
    assert(log.take(i + 1) =~= log.take(i) + one);
    lemma_replay_in_parts(s, log.take(i), one);
    let t = s.replay(log.take(i));
    assert(one.drop_first() =~= Seq::<LogEntryView>::empty());
    assert(t.replay(one) == t.apply(one[0]).0.replay(one.drop_first()));
}

/// One log entry raises each counter by one at most, and lowers none.
pub proof fn lemma_apply_counters(s: MachineState, entry: LogEntryView)
    requires
        s.has_room(),
    ensures
        ({
            let t = s.apply(entry).0;
            &&& s.kv.seq <= t.kv.seq <= s.kv.seq + 1
            &&& s.catalog.meta_ver <= t.catalog.meta_ver <= s.catalog.meta_ver + 1
            &&& s.catalog.last_database_id <= t.catalog.last_database_id
                <= s.catalog.last_database_id + 1
            &&& s.catalog.last_table_id <= t.catalog.last_table_id <= s.catalog.last_table_id + 1
        }),
{
}

/// The state machine.
pub struct StateMachine {
    kv: GenericKV,
    catalog: Catalog,
    last_applied: Option<(u64, OperationResult)>,
}

impl View for StateMachine {
    type V = MachineState;

    closed spec fn view(&self) -> MachineState {
        MachineState {
            kv: self.kv@,
            catalog: self.catalog@,
            last_applied: applied_view(self.last_applied),
        }
    }
}

impl StateMachine {
    /// The namespace and the catalog are held as they should be.
    pub closed spec fn rep_ok(&self) -> bool {
        self.kv.rep_ok() && self.catalog.rep_ok()
    }

    /// The state is held as it should be, and what it holds is well-formed.
    pub open spec fn wf(&self) -> bool {
        self.rep_ok() && self@.wf()
    }

    /// A state machine to which no log entry has been applied.
    pub fn new() -> (sm: Self)
        ensures
            sm.wf(),
            sm@ == MachineState::init(),
    {
        StateMachine { kv: GenericKV::new(), catalog: Catalog::new(), last_applied: None }
    }

    /// Whether every counter can be raised once more.
    pub fn has_room(&self) -> (r: bool)
        ensures
            r == self@.has_room(),
    {
        self.kv.has_room() && self.catalog.has_room()
    }

    /// Whether every counter can be raised `n` times more.
    pub fn has_room_for(&self, n: usize) -> (r: bool)
        ensures
            r == self@.room_for(n as nat),
    {
        self.kv.has_room_for(n) && self.catalog.has_room_for(n)
    }

    /// Whether the log can take one more entry behind the last one applied.
    pub fn has_log_room(&self) -> (r: bool)
        ensures
            r == self@.has_log_room(),
    {
        match &self.last_applied {
            Some(l) => l.0 < u64::MAX,
            None => true,
        }
    }

    /// The meta-version of the catalog.
    pub fn meta_version(&self) -> (v: u64)
        ensures
            v == self@.catalog.meta_ver,
    {
        self.catalog.meta_version()
    }

    /// The last sequence number that the key-value namespace handed out.
    pub fn last_seq(&self) -> (s: u64)
        ensures
            s == self@.kv.seq,
    {
        self.kv.last_seq()
    }

    /// The position of the last log entry applied.
    pub fn last_applied_index(&self) -> (r: Option<u64>)
        ensures
            r == match self@.last_applied {
                Some(l) => Some(l.0),
                None => None,
            },
    {
        match &self.last_applied {
            Some(l) => Some(l.0),
            None => None,
        }
    }

    fn next_index(&self) -> (r: u64)
        requires
            self@.has_log_room(),
        ensures
            r == self@.next_index(),
    {
        match &self.last_applied {
            Some(l) => l.0 + 1,
            None => 1,
        }
    }

    fn execute(&mut self, time: u64, cmd: Cmd) -> (r: OperationResult)
        requires
            old(self).wf(),
            old(self)@.has_room(),
        ensures
            final(self).wf(),
            final(self)@ == old(self)@.execute(time, cmd@).0,
            result_view(r) == old(self)@.execute(time, cmd@).1,
    {
        match cmd {
            Cmd::UpsertKV { key, seq, value, value_meta } => {
                match self.kv.upsert(key.as_str(), seq, value, value_meta, time) {
                    Ok(r) => Ok(AppliedState::KV(r)),
                    Err(e) => Err(e),
                }
            },
            Cmd::UpdateKVMeta { key, seq, value_meta } => {
                match self.kv.update_meta(key.as_str(), seq, value_meta, time) {
                    Ok(r) => Ok(AppliedState::KV(r)),
                    Err(e) => Err(e),
                }
            },
            Cmd::CreateDatabase(plan) => {
                match self.catalog.create_database(plan) {
                    Ok(r) => Ok(AppliedState::Database(r)),
                    Err(e) => Err(e),
                }
            },
            Cmd::DropDatabase(plan) => {
                match self.catalog.drop_database(plan) {
                    Ok(_) => Ok(AppliedState::Dropped),
                    Err(e) => Err(e),
                }
            },
            Cmd::CreateTable(plan) => {
                match self.catalog.create_table(plan) {
                    Ok(r) => Ok(AppliedState::Table(r)),
                    Err(e) => Err(e),
                }
            },
            Cmd::DropTable(plan) => {
                match self.catalog.drop_table(plan) {
                    Ok(_) => Ok(AppliedState::Dropped),
                    Err(e) => Err(e),
                }
            },
        }
    }

    /// Applies a log entry and returns its result.
    pub fn apply(&mut self, entry: LogEntry) -> (r: OperationResult)
        requires
            old(self).wf(),
            old(self)@.has_room(),
        ensures
            final(self).wf(),
            final(self)@ == old(self)@.apply(entry@).0,
            result_view(r) == old(self)@.apply(entry@).1,
    {
        match &self.last_applied {
            Some(l) => {
                if entry.index == l.0 {
                    return clone_result(&l.1);
                }
                if entry.index < l.0 {
                    return Err(
                        MetaError::InvalidArgument(
                            String::from_str("log entry is older than the last one applied"),
                        ),
                    );
                }
            },
            None => {},
        }
        let r = self.execute(entry.time, entry.cmd);
        self.last_applied = Some((entry.index, clone_result(&r)));
        r
    }
}

impl StateMachine {
    /// Applies the entries of a log in turn and returns their results in the
    /// same order.
    pub fn apply_all(&mut self, entries: Vec<LogEntry>) -> (results: Vec<OperationResult>)
        requires
            old(self).wf(),
            old(self)@.room_for(entries@.len()),
        ensures
            final(self).wf(),
            final(self)@ == old(self)@.replay(entry_views(entries@)),
            results@.len() == entries@.len(),
            forall|i: int|
                0 <= i < entries@.len() ==> result_view(#[trigger] results@[i]) == old(
                    self,
                )@.result_at(entry_views(entries@), i),
    {
        let ghost start = self@;
        let ghost log = entry_views(entries@);
        let ghost all = entries@;
        let mut results: Vec<OperationResult> = Vec::new();
        proof {
            assert(log.take(0) =~= Seq::<LogEntryView>::empty());
        }
        for entry in it: entries
            invariant
                it.seq() == all,
                log == entry_views(all),
                self.wf(),
                self@ == start.replay(log.take(it.index() as int)),
                self@.room_for((all.len() - it.index()) as nat),
                results@.len() == it.index(),
                forall|i: int|
                    0 <= i < it.index() ==> result_view(#[trigger] results@[i]) == start.result_at(
                        log,
                        i,
                    ),
        {
            let ghost i = results@.len() as int;
            let ghost before = self@;
            proof {
                assert(entry@ == log[i]);
                lemma_apply_counters(before, log[i]);
                lemma_replay_step(start, log, i);
            }
            let r = self.apply(entry);
            results.push(r);
        }
        proof {
            assert(log.take(log.len() as int) =~= log);
        }
        results
    }
}

/// The log entry that a write to the key-value namespace is handed in as.
pub open spec fn upsert_entry(
    index: u64,
    key: Seq<char>,
    seq: MatchSeq,
    value: Option<Seq<u8>>,
    value_meta: Option<KVMeta>,
    now: u64,
) -> LogEntryView {
    LogEntryView { index, time: now, cmd: CmdView::UpsertKV { key, seq, value, value_meta } }
}

/// The log entry that a change of metadata is handed in as.
pub open spec fn update_meta_entry(
    index: u64,
    key: Seq<char>,
    seq: MatchSeq,
    value_meta: Option<KVMeta>,
    now: u64,
) -> LogEntryView {
    LogEntryView { index, time: now, cmd: CmdView::UpdateKVMeta { key, seq, value_meta } }
}

/// The log entry that a command on the catalog is handed in as. Such a command
/// does not read the time.
pub open spec fn catalog_entry(index: u64, cmd: CmdView) -> LogEntryView {
    LogEntryView { index, time: 0, cmd }
}

impl StateMachine {
    /// Writes under `key` at time `now`, if the condition `seq` holds: with a
    /// value the write puts it there, without one it removes the key. An empty
    /// key is rejected before anything is handed to the log. Else the write
    /// goes through `apply`, as the entry behind the last one applied.
    pub fn upsert_kv(
        &mut self,
        key: &str,
        seq: MatchSeq,
        value: Option<Vec<u8>>,
        value_meta: Option<KVMeta>,
        now: u64,
    ) -> (r: Result<UpsertKVActionResult, MetaError>)
        requires
            old(self).wf(),
            old(self)@.has_room(),
            old(self)@.has_log_room(),
        ensures
            final(self).wf(),
            key@.len() == 0 ==> r is Err && r->Err_0@ == empty_key_error() && final(self)@ == old(
                self,
            )@,
            key@.len() > 0 ==> ({
                let entry = upsert_entry(
                    old(self)@.next_index(),
                    key@,
                    seq,
                    opt_bytes(value),
                    value_meta,
                    now,
                );
                &&& r is Ok
                &&& final(self)@ == old(self)@.apply(entry).0
                &&& Ok::<AppliedView, MetaErrorView>(AppliedView::KV(r->Ok_0@)) == old(self)@.apply(
                    entry,
                ).1
                &&& (final(self)@.kv, r->Ok_0@) == old(self)@.kv.upsert(
                    key@,
                    seq,
                    opt_bytes(value),
                    value_meta,
                    now,
                )
                &&& final(self)@.catalog == old(self)@.catalog
            }),
    {
        if key.is_empty() {
            return Err(MetaError::InvalidArgument(String::from_str("empty key")));
        }
        let index = self.next_index();
        let cmd = Cmd::UpsertKV { key: key.to_owned(), seq, value, value_meta };
        match self.apply(LogEntry { index, time: now, cmd }) {
            Ok(AppliedState::KV(r)) => Ok(r),
            Ok(_) => unreached(),
            Err(e) => Err(e),
        }
    }

    /// Replaces the metadata of the entry under `key` at time `now`, if the
    /// condition `seq` holds and there is such an entry; the value stays. An
    /// empty key is rejected before anything is handed to the log. Else the
    /// change goes through `apply`, as the entry behind the last one applied.
    pub fn update_kv_meta(
        &mut self,
        key: &str,
        seq: MatchSeq,
        value_meta: Option<KVMeta>,
        now: u64,
    ) -> (r: Result<UpsertKVActionResult, MetaError>)
        requires
            old(self).wf(),
            old(self)@.has_room(),
            old(self)@.has_log_room(),
        ensures
            final(self).wf(),
            key@.len() == 0 ==> r is Err && r->Err_0@ == empty_key_error() && final(self)@ == old(
                self,
            )@,
            key@.len() > 0 ==> ({
                let entry = update_meta_entry(old(self)@.next_index(), key@, seq, value_meta, now);
                &&& r is Ok
                &&& final(self)@ == old(self)@.apply(entry).0
                &&& Ok::<AppliedView, MetaErrorView>(AppliedView::KV(r->Ok_0@)) == old(self)@.apply(
                    entry,
                ).1
                &&& (final(self)@.kv, r->Ok_0@) == old(self)@.kv.update_meta(
                    key@,
                    seq,
                    value_meta,
                    now,
                )
                &&& final(self)@.catalog == old(self)@.catalog
            }),
    {
        if key.is_empty() {
            return Err(MetaError::InvalidArgument(String::from_str("empty key")));
        }
        let index = self.next_index();
        let cmd = Cmd::UpdateKVMeta { key: key.to_owned(), seq, value_meta };
        match self.apply(LogEntry { index, time: now, cmd }) {
            Ok(AppliedState::KV(r)) => Ok(r),
            Ok(_) => unreached(),
            Err(e) => Err(e),
        }
    }

    /// Creates the database that the plan names, unless it exists. A plan
    /// without a name is rejected before anything is handed to the log. Else
    /// the plan goes through `apply`, as the entry behind the last one applied.
    pub fn create_database(&mut self, plan: CreateDatabasePlan) -> (r: Result<
        CreateDatabaseActionResult,
        MetaError,
    >)
        requires
            old(self).wf(),
            old(self)@.has_room(),
            old(self)@.has_log_room(),
        ensures
            final(self).wf(),
            final(self)@.kv == old(self)@.kv,
            final(self)@.catalog == old(self)@.catalog.create_database(
                plan.db@,
                plan.if_not_exists,
                plan.engine@,
                plan.options@,
            ).0,
            match old(self)@.catalog.create_database(
                plan.db@,
                plan.if_not_exists,
                plan.engine@,
                plan.options@,
            ).1 {
                Ok(id) => r matches Ok(a) && a.database_id == id,
                Err(e) => r matches Err(x) && x@ == e,
            },
            plan.db@.len() == 0 ==> final(self)@ == old(self)@,
            plan.db@.len() > 0 ==> final(self)@ == old(self)@.apply(
                catalog_entry(old(self)@.next_index(), Cmd::CreateDatabase(plan)@),
            ).0,
    {
        if plan.db.as_str().is_empty() {
            return Err(MetaError::InvalidArgument(String::from_str("empty database name")));
        }
        let index = self.next_index();
        match self.apply(LogEntry { index, time: 0, cmd: Cmd::CreateDatabase(plan) }) {
            Ok(AppliedState::Database(r)) => Ok(r),
            Ok(_) => unreached(),
            Err(e) => Err(e),
        }
    }

    /// Drops the database that the plan names, if there is one, and its tables
    /// with it. A plan without a name is rejected before anything is handed to
    /// the log. Else the plan goes through `apply`, as the entry behind the last
    /// one applied.
    pub fn drop_database(&mut self, plan: DropDatabasePlan) -> (r: Result<
        DropDatabaseActionResult,
        MetaError,
    >)
        requires
            old(self).wf(),
            old(self)@.has_room(),
            old(self)@.has_log_room(),
        ensures
            final(self).wf(),
            final(self)@.kv == old(self)@.kv,
            final(self)@.catalog == old(self)@.catalog.drop_database(plan.db@, plan.if_exists).0,
            match old(self)@.catalog.drop_database(plan.db@, plan.if_exists).1 {
                Ok(_) => r is Ok,
                Err(e) => r matches Err(x) && x@ == e,
            },
            plan.db@.len() == 0 ==> final(self)@ == old(self)@,
            plan.db@.len() > 0 ==> final(self)@ == old(self)@.apply(
                catalog_entry(old(self)@.next_index(), Cmd::DropDatabase(plan)@),
            ).0,
    {
        if plan.db.as_str().is_empty() {
            return Err(MetaError::InvalidArgument(String::from_str("empty database name")));
        }
        let index = self.next_index();
        match self.apply(LogEntry { index, time: 0, cmd: Cmd::DropDatabase(plan) }) {
            Ok(AppliedState::Dropped) => Ok(DropDatabaseActionResult {  }),
            Ok(_) => unreached(),
            Err(e) => Err(e),
        }
    }

    /// Creates the table that the plan names in the database that it names,
    /// unless the table exists. A plan without a database name or without a
    /// table name is rejected before anything is handed to the log. Else the
    /// plan goes through `apply`, as the entry behind the last one applied.
    pub fn create_table(&mut self, plan: CreateTablePlan) -> (r: Result<
        CreateTableActionResult,
        MetaError,
    >)
        requires
            old(self).wf(),
            old(self)@.has_room(),
            old(self)@.has_log_room(),
        ensures
            final(self).wf(),
            final(self)@.kv == old(self)@.kv,
            final(self)@.catalog == old(self)@.catalog.create_table(
                plan.db@,
                plan.table@,
                plan.if_not_exists,
                plan.schema@,
                plan.engine@,
                plan.options@,
            ).0,
            match old(self)@.catalog.create_table(
                plan.db@,
                plan.table@,
                plan.if_not_exists,
                plan.schema@,
                plan.engine@,
                plan.options@,
            ).1 {
                Ok(id) => r matches Ok(a) && a.table_id == id,
                Err(e) => r matches Err(x) && x@ == e,
            },
            plan.db@.len() == 0 || plan.table@.len() == 0 ==> final(self)@ == old(self)@,
            plan.db@.len() > 0 && plan.table@.len() > 0 ==> final(self)@ == old(self)@.apply(
                catalog_entry(old(self)@.next_index(), Cmd::CreateTable(plan)@),
            ).0,
    {
        if plan.db.as_str().is_empty() {
            return Err(MetaError::InvalidArgument(String::from_str("empty database name")));
        }
        if plan.table.as_str().is_empty() {
            return Err(MetaError::InvalidArgument(String::from_str("empty table name")));
        }
        let index = self.next_index();
        match self.apply(LogEntry { index, time: 0, cmd: Cmd::CreateTable(plan) }) {
            Ok(AppliedState::Table(r)) => Ok(r),
            Ok(_) => unreached(),
            Err(e) => Err(e),
        }
    }

    /// Drops the table that the plan names from the database that it names, if
    /// there is one. A plan without a database name or without a table name is
    /// rejected before anything is handed to the log. Else the plan goes through
    /// `apply`, as the entry behind the last one applied.
    pub fn drop_table(&mut self, plan: DropTablePlan) -> (r: Result<
        DropTableActionResult,
        MetaError,
    >)
        requires
            old(self).wf(),
            old(self)@.has_room(),
            old(self)@.has_log_room(),
        ensures
            final(self).wf(),
            final(self)@.kv == old(self)@.kv,
            final(self)@.catalog == old(self)@.catalog.drop_table(
                plan.db@,
                plan.table@,
                plan.if_exists,
            ).0,
            match old(self)@.catalog.drop_table(plan.db@, plan.table@, plan.if_exists).1 {
                Ok(_) => r is Ok,
                Err(e) => r matches Err(x) && x@ == e,
            },
            plan.db@.len() == 0 || plan.table@.len() == 0 ==> final(self)@ == old(self)@,
            plan.db@.len() > 0 && plan.table@.len() > 0 ==> final(self)@ == old(self)@.apply(
                catalog_entry(old(self)@.next_index(), Cmd::DropTable(plan)@),
            ).0,
    {
        if plan.db.as_str().is_empty() {
            return Err(MetaError::InvalidArgument(String::from_str("empty database name")));
        }
        if plan.table.as_str().is_empty() {
            return Err(MetaError::InvalidArgument(String::from_str("empty table name")));
        }
        let index = self.next_index();
        match self.apply(LogEntry { index, time: 0, cmd: Cmd::DropTable(plan) }) {
            Ok(AppliedState::Dropped) => Ok(DropTableActionResult {  }),
            Ok(_) => unreached(),
            Err(e) => Err(e),
        }
    }

    /// Reads `key` at time `now`. An empty key is rejected.
    pub fn get_kv(&self, key: &str, now: u64) -> (r: Result<GetKVActionResult, MetaError>)
        requires
            self.wf(),
        ensures
            key@.len() == 0 ==> r is Err && r->Err_0@ == empty_key_error(),
            key@.len() > 0 ==> r is Ok && r->Ok_0.result.deep_view() == self@.kv.get(key@, now),
    {
        self.kv.get(key, now)
    }

    /// Reads several keys at time `now`. The call is rejected if one of the keys
    /// is empty; else there is one slot for each key, in the order given.
    pub fn mget_kv(&self, keys: &[String], now: u64) -> (r: Result<MGetKVActionResult, MetaError>)
        requires
            self.wf(),
        ensures
            (exists|i: int| 0 <= i < keys@.len() && keys@[i]@.len() == 0) ==> r is Err
                && r->Err_0@ == empty_key_error(),
            (forall|i: int| 0 <= i < keys@.len() ==> keys@[i]@.len() > 0) ==> r is Ok
                && r->Ok_0.result.deep_view() == self@.kv.mget(key_views(keys@), now),
    {
        self.kv.mget(keys, now)
    }

    /// Lists, in key order, the entries whose key starts with `prefix` and that
    /// have not expired at time `now`.
    pub fn prefix_list_kv(&self, prefix: &str, now: u64) -> (r: PrefixListReply)
        requires
            self.wf(),
        ensures
            self@.kv.is_listing(prefix@, now, r.deep_view()),
    {
        self.kv.prefix_list(prefix, now)
    }

    /// Tells what is known of the database `db`.
    pub fn get_database(&self, db: &str) -> (r: Result<GetDatabaseActionResult, MetaError>)
        requires
            self.wf(),
        ensures
            match self@.catalog.get_database(db@) {
                Ok(info) => r matches Ok(a) && a@ == info,
                Err(e) => r matches Err(x) && x@ == e,
            },
    {
        self.catalog.get_database(db)
    }

    /// Tells what is known of the table `table` of the database `db`.
    pub fn get_table(&self, db: String, table: String) -> (r: Result<
        GetTableActionResult,
        MetaError,
    >)
        requires
            self.wf(),
        ensures
            match self@.catalog.get_table(db@, table@) {
                Ok(info) => r matches Ok(a) && a@ == info,
                Err(e) => r matches Err(x) && x@ == e,
            },
    {
        self.catalog.get_table(db, table)
    }

    /// The whole catalog, if it has changed since it had the meta-version
    /// `lower_bound`, or if no bound is given; else `None`.
    pub fn get_database_meta(&self, lower_bound: Option<u64>) -> (r: Option<DatabaseMetaSnapshot>)
        requires
            self.wf(),
        ensures
            r is Some == self@.catalog.changed_since(lower_bound),
            r matches Some(snap) ==> self@.catalog.is_snapshot(snap@),
    {
        self.catalog.get_database_meta(lower_bound)
    }

    /// A copy of the state machine.
    pub fn duplicate(&self) -> (sm: Self)
        requires
            self.wf(),
        ensures
            sm.wf(),
            sm@ == self@,
    {
        StateMachine {
            kv: self.kv.duplicate(),
            catalog: self.catalog.duplicate(),
            last_applied: match &self.last_applied {
                Some(l) => Some((l.0, clone_result(&l.1))),
                None => None,
            },
        }
    }

    /// The state as it is now, to be kept and restored later.
    pub fn snapshot(&self) -> (snap: StateMachineSnapshot)
        requires
            self.wf(),
        ensures
            snap.wf(),
            snap@ == self@,
    {
        StateMachineSnapshot { state: self.duplicate() }
    }

    /// Puts the state of a snapshot in place of the present one.
    pub fn restore(&mut self, snap: &StateMachineSnapshot)
        requires
            snap.wf(),
        ensures
            final(self).wf(),
            final(self)@ == snap@,
    {
        *self = snap.state.duplicate();
    }
}

/// The state of a state machine at one moment.
pub struct StateMachineSnapshot {
    state: StateMachine,
}

impl View for StateMachineSnapshot {
    type V = MachineState;

    closed spec fn view(&self) -> MachineState {
        self.state@
    }
}

impl StateMachineSnapshot {
    /// The state in the snapshot is held as it should be.
    pub closed spec fn rep_ok(&self) -> bool {
        self.state.rep_ok()
    }

    /// The snapshot holds a state that is well-formed.
    pub open spec fn wf(&self) -> bool {
        self.rep_ok() && self@.wf()
    }

    /// The position of the last log entry that the snapshot holds the effect of.
    pub fn last_applied_index(&self) -> (r: Option<u64>)
        ensures
            r == match self@.last_applied {
                Some(l) => Some(l.0),
                None => None,
            },
    {
        self.state.last_applied_index()
    }
}

} // verus!
