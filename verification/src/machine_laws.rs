//! What holds of the state machine, whatever log it has seen.

use vstd::prelude::*;
use crate::catalog::{
    lemma_create_database_wf, lemma_create_table_wf, lemma_drop_database_wf, lemma_drop_table_wf,
};
use crate::kv::{lemma_update_meta_wf, lemma_upsert_wf};
use crate::state_machine::{
    lemma_apply_counters, lemma_replay_in_parts, CmdView, LogEntryView, MachineState,
};

verus! {

/// Applying a log entry keeps the state well-formed.
pub proof fn law_apply_keeps_wf(s: MachineState, entry: LogEntryView)
    requires
        s.wf(),
        s.has_room(),
    ensures
        s.apply(entry).0.wf(),
{
    if !s.is_replay(entry) && !s.is_stale(entry) {
        match entry.cmd {
            CmdView::UpsertKV { key, seq, value, value_meta } => {
                if key.len() > 0 {
                    lemma_upsert_wf(s.kv, key, seq, value, value_meta, entry.time);
                }
            },
            CmdView::UpdateKVMeta { key, seq, value_meta } => {
                if key.len() > 0 {
                    lemma_update_meta_wf(s.kv, key, seq, value_meta, entry.time);
                }
            },
            CmdView::CreateDatabase { db, if_not_exists, engine, options } => {
                lemma_create_database_wf(s.catalog, db, if_not_exists, engine, options);
            },
            CmdView::DropDatabase { db, if_exists } => {
                lemma_drop_database_wf(s.catalog, db, if_exists);
            },
            CmdView::CreateTable { db, table, if_not_exists, schema, engine, options } => {
                lemma_create_table_wf(s.catalog, db, table, if_not_exists, schema, engine, options);
            },
            CmdView::DropTable { db, table, if_exists } => {
                lemma_drop_table_wf(s.catalog, db, table, if_exists);
            },
        }
    }
}

/// Applying the same log entry again changes nothing and returns what the
/// first application returned.
pub proof fn law_replay_same_position(s: MachineState, entry: LogEntryView)
    ensures
        ({
            let (t, r) = s.apply(entry);
            t.apply(entry) == (t, r)
        }),
{
}

/// An entry at the position of the last one applied gets that one's result,
/// whatever command it carries, and changes nothing.
pub proof fn law_position_decides(s: MachineState, first: LogEntryView, second: LogEntryView)
    requires
        !s.is_replay(first),
        !s.is_stale(first),
        second.index == first.index,
    ensures
        ({
            let (t, r) = s.apply(first);
            t.apply(second) == (t, r)
        }),
{
}

/// A command on the key-value namespace leaves the catalog, and so the
/// meta-version, as it is; a command on the catalog leaves the namespace, and
/// so its sequence numbers, as it is.
pub proof fn law_separate(s: MachineState, entry: LogEntryView)
    ensures
        (entry.cmd is UpsertKV || entry.cmd is UpdateKVMeta) ==> s.apply(entry).0.catalog
            == s.catalog,
        !(entry.cmd is UpsertKV || entry.cmd is UpdateKVMeta) ==> s.apply(entry).0.kv == s.kv,
{
}

/// Replaying a log in two parts gives the state that replaying it whole
/// gives: a state taken part of the way through can stand for the entries
/// before it.
pub proof fn law_replay_in_parts(s: MachineState, head: Seq<LogEntryView>, tail: Seq<LogEntryView>)
    ensures
        s.replay(head + tail) == s.replay(head).replay(tail),
{
    lemma_replay_in_parts(s, head, tail);
}

/// Replaying a log keeps the state well-formed, as long as the counters have
/// room for one step for each entry.
pub proof fn law_replay_keeps_wf(s: MachineState, log: Seq<LogEntryView>)
    requires
        s.wf(),
        s.room_for(log.len()),
    ensures
        s.replay(log).wf(),
    decreases log.len(),
{
    if log.len() > 0 {
        law_apply_keeps_wf(s, log[0]);
        lemma_apply_counters(s, log[0]);
        law_replay_keeps_wf(s.apply(log[0]).0, log.drop_first());
    }
}

/// Replaying a log in which one position occurs twice in a row gives the
/// state that the log without the repetition gives.
pub proof fn law_repeated_entry(s: MachineState, entry: LogEntryView, rest: Seq<LogEntryView>)
    ensures
        s.replay(seq![entry, entry] + rest) == s.replay(seq![entry] + rest),
{
    let twice = seq![entry, entry];
    let once = seq![entry];
    lemma_replay_in_parts(s, twice, rest);
    lemma_replay_in_parts(s, once, rest);
    let t = s.apply(entry).0;
    assert(twice.drop_first() =~= once);
    assert(once.drop_first() =~= Seq::<LogEntryView>::empty());
    assert(s.replay(once) == t.replay(once.drop_first()));
    assert(s.replay(twice) == t.replay(once));
    assert(t.replay(once) == t.apply(entry).0.replay(once.drop_first()));
}

/// The meta-version never goes down, and one log entry raises it by one at
/// most.
pub proof fn law_version_monotone(s: MachineState, entry: LogEntryView)
    requires
        s.has_room(),
    ensures
        s.catalog.meta_ver <= s.apply(entry).0.catalog.meta_ver <= s.catalog.meta_ver + 1,
        s.kv.seq <= s.apply(entry).0.kv.seq <= s.kv.seq + 1,
{
}

} // verus!
