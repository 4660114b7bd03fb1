use metasrv::catalog::CreateDatabaseActionResult;
use metasrv::catalog::CreateTableActionResult;
use metasrv::error::MetaError;
use metasrv::kv::UpsertKVActionResult;
use metasrv::kv_value::KVMeta;
use metasrv::kv_value::KVValue;
use metasrv::match_seq::MatchSeq;
use metasrv::plan::CreateDatabasePlan;
use metasrv::plan::CreateTablePlan;
use metasrv::plan::DropDatabasePlan;
use metasrv::plan::DropTablePlan;
use metasrv::schema::DataSchema;
use metasrv::state_machine::AppliedState;
use metasrv::state_machine::Cmd;
use metasrv::state_machine::LogEntry;
use metasrv::state_machine::StateMachine;

fn upsert(index: u64, time: u64, key: &str, seq: MatchSeq, value: Option<&[u8]>) -> LogEntry {
    LogEntry {
        index,
        time,
        cmd: Cmd::UpsertKV {
            key: key.to_string(),
            seq,
            value: value.map(|v| v.to_vec()),
            value_meta: None,
        },
    }
}

fn create_db(index: u64, name: &str, if_not_exists: bool) -> LogEntry {
    LogEntry {
        index,
        time: 0,
        cmd: Cmd::CreateDatabase(CreateDatabasePlan {
            if_not_exists,
            db: name.to_string(),
            engine: "Local".to_string(),
            options: Default::default(),
        }),
    }
}

fn kv(prev: Option<(u64, &[u8])>, result: Option<(u64, &[u8])>) -> AppliedState {
    let make = |e: Option<(u64, &[u8])>| {
        e.map(|(seq, bytes)| {
            (seq, KVValue {
                meta: None,
                value: bytes.to_vec(),
            })
        })
    };
    AppliedState::KV(UpsertKVActionResult {
        prev: make(prev),
        result: make(result),
    })
}

#[test]
fn apply_each_kind_of_command() {
    let mut sm = StateMachine::new();
    assert_eq!(None, sm.last_applied_index());
    assert!(sm.has_room());
    assert!(sm.has_log_room());

    let r = sm.apply(upsert(1, 10, "k", MatchSeq::Any, Some(b"v"))).unwrap();
    assert_eq!(kv(None, Some((1, b"v"))), r);

    let r = sm
        .apply(LogEntry {
            index: 2,
            time: 10,
            cmd: Cmd::UpdateKVMeta {
                key: "k".to_string(),
                seq: MatchSeq::Exact(1),
                value_meta: Some(KVMeta {
                    expire_at: Some(20),
                }),
            },
        })
        .unwrap();
    assert_eq!(
        AppliedState::KV(UpsertKVActionResult {
            prev: Some((1, KVValue {
                meta: None,
                value: b"v".to_vec()
            })),
            result: Some((2, KVValue {
                meta: Some(KVMeta {
                    expire_at: Some(20)
                }),
                value: b"v".to_vec()
            })),
        }),
        r
    );

    let r = sm.apply(create_db(3, "db1", false)).unwrap();
    assert_eq!(
        AppliedState::Database(CreateDatabaseActionResult { database_id: 1 }),
        r
    );

    let r = sm
        .apply(LogEntry {
            index: 4,
            time: 0,
            cmd: Cmd::CreateTable(CreateTablePlan {
                if_not_exists: false,
                db: "db1".to_string(),
                table: "t".to_string(),
                schema: DataSchema::empty(),
                engine: "JSON".to_string(),
                options: Default::default(),
            }),
        })
        .unwrap();
    assert_eq!(AppliedState::Table(CreateTableActionResult { table_id: 1 }), r);

    let r = sm
        .apply(LogEntry {
            index: 5,
            time: 0,
            cmd: Cmd::DropTable(DropTablePlan {
                if_exists: false,
                db: "db1".to_string(),
                table: "t".to_string(),
            }),
        })
        .unwrap();
    assert_eq!(AppliedState::Dropped, r);

    let r = sm
        .apply(LogEntry {
            index: 6,
            time: 0,
            cmd: Cmd::DropDatabase(DropDatabasePlan {
                if_exists: false,
                db: "db1".to_string(),
            }),
        })
        .unwrap();
    assert_eq!(AppliedState::Dropped, r);

    assert_eq!(Some(6), sm.last_applied_index());
    assert_eq!(4, sm.get_database_meta(None).unwrap().meta_ver);
}

#[test]
fn the_same_position_is_applied_once() {
    let mut sm = StateMachine::new();
    sm.apply(upsert(1, 10, "k", MatchSeq::Any, Some(b"a"))).unwrap();
    let first = sm
        .apply(upsert(2, 10, "k", MatchSeq::Exact(1), Some(b"b")))
        .unwrap();
    assert_eq!(kv(Some((1, b"a")), Some((2, b"b"))), first);

    // Against the state as it is now the condition would not hold; the entry
    // is not executed again, and what it returned is returned again.
    let again = sm
        .apply(upsert(2, 10, "k", MatchSeq::Exact(1), Some(b"b")))
        .unwrap();
    assert_eq!(first, again);
    assert_eq!(
        Some((2, KVValue {
            meta: None,
            value: b"b".to_vec()
        })),
        sm.get_kv("k", 10).unwrap().result
    );

    // The position decides, not the command.
    let other = sm.apply(create_db(2, "db1", false)).unwrap();
    assert_eq!(first, other);
    assert!(sm.get_database("db1").is_err());
    assert_eq!(Some(2), sm.last_applied_index());

    // The next write takes the next sequence number.
    let next = sm.apply(upsert(3, 10, "j", MatchSeq::Any, Some(b"c"))).unwrap();
    assert_eq!(kv(None, Some((3, b"c"))), next);
}

#[test]
fn an_error_is_remembered_too() {
    let mut sm = StateMachine::new();
    sm.apply(create_db(1, "db1", false)).unwrap();
    let e = sm.apply(create_db(2, "db1", false)).unwrap_err();
    assert_eq!(MetaError::AlreadyExists("db1".to_string()), e);
    let again = sm.apply(create_db(2, "db1", true)).unwrap_err();
    assert_eq!(e, again);
    assert_eq!(1, sm.get_database_meta(None).unwrap().meta_ver);
}

#[test]
fn an_entry_from_before_the_last_is_refused() {
    let mut sm = StateMachine::new();
    sm.apply(upsert(5, 10, "k", MatchSeq::Any, Some(b"a"))).unwrap();
    sm.apply(upsert(9, 10, "k", MatchSeq::Any, Some(b"b"))).unwrap();
    let e = sm
        .apply(upsert(5, 10, "k", MatchSeq::Any, Some(b"a")))
        .unwrap_err();
    assert_eq!(
        MetaError::InvalidArgument("log entry is older than the last one applied".to_string()),
        e
    );
    assert_eq!(6, e.code());
    assert_eq!(Some(9), sm.last_applied_index());
    assert_eq!(
        Some((2, KVValue {
            meta: None,
            value: b"b".to_vec()
        })),
        sm.get_kv("k", 10).unwrap().result
    );
    // the refusal is not remembered in place of the last result
    let again = sm.apply(upsert(9, 10, "zzz", MatchSeq::Any, None)).unwrap();
    assert_eq!(kv(Some((1, b"a")), Some((2, b"b"))), again);
}

#[test]
fn an_empty_key_in_the_log_is_an_error_at_its_position() {
    let mut sm = StateMachine::new();
    let e = sm.apply(upsert(1, 10, "", MatchSeq::Any, Some(b"a"))).unwrap_err();
    assert_eq!(MetaError::InvalidArgument("empty key".to_string()), e);
    assert_eq!(Some(1), sm.last_applied_index());
    let r = sm.apply(upsert(2, 10, "k", MatchSeq::Any, Some(b"a"))).unwrap();
    assert_eq!(kv(None, Some((1, b"a"))), r);
}

#[test]
fn the_same_log_gives_the_same_state() {
    let log = || {
        vec![
            upsert(1, 100, "a", MatchSeq::Any, Some(b"1")),
            create_db(2, "db1", false),
            upsert(3, 100, "b", MatchSeq::Exact(0), Some(b"2")),
            upsert(4, 101, "a", MatchSeq::Exact(1), None),
            create_db(5, "db2", true),
            upsert(6, 102, "a", MatchSeq::GE(1), Some(b"never")),
            create_db(7, "db1", false),
        ]
    };
    let mut one = StateMachine::new();
    let mut results_one = vec![];
    for entry in log() {
        results_one.push(one.apply(entry));
    }
    let mut two = StateMachine::new();
    let mut results_two = vec![];
    for entry in log() {
        results_two.push(two.apply(entry));
    }
    assert_eq!(results_one, results_two);
    assert_eq!(one.prefix_list_kv("", 200), two.prefix_list_kv("", 200));
    assert_eq!(one.get_database_meta(None), two.get_database_meta(None));
    assert_eq!(one.last_applied_index(), two.last_applied_index());
    assert_eq!(2, one.get_database_meta(None).unwrap().meta_ver);
    assert_eq!(1, one.prefix_list_kv("", 200).len());
}

#[test]
fn a_snapshot_stands_for_the_log_before_it() {
    let head = || {
        vec![
            upsert(1, 100, "a", MatchSeq::Any, Some(b"1")),
            create_db(2, "db1", false),
        ]
    };
    let tail = || {
        vec![
            upsert(3, 100, "b", MatchSeq::Exact(0), Some(b"2")),
            create_db(4, "db2", false),
            upsert(5, 100, "a", MatchSeq::Exact(1), Some(b"3")),
        ]
    };
    let mut whole = StateMachine::new();
    for entry in head() {
        let _ = whole.apply(entry);
    }
    let kept = whole.snapshot();
    assert_eq!(Some(2), kept.last_applied_index());
    for entry in tail() {
        let _ = whole.apply(entry);
    }

    let mut caught_up = StateMachine::new();
    let _ = caught_up.apply(upsert(1, 5, "other", MatchSeq::Any, Some(b"x")));
    caught_up.restore(&kept);
    assert_eq!(Some(2), caught_up.last_applied_index());
    assert!(caught_up.get_kv("other", 100).unwrap().result.is_none());
    // the last entry of the head is known to the restored state
    let again = caught_up.apply(create_db(2, "db1", false)).unwrap();
    assert_eq!(
        AppliedState::Database(CreateDatabaseActionResult { database_id: 1 }),
        again
    );
    for entry in tail() {
        let _ = caught_up.apply(entry);
    }
    assert_eq!(whole.prefix_list_kv("", 100), caught_up.prefix_list_kv("", 100));
    assert_eq!(whole.get_database_meta(None), caught_up.get_database_meta(None));
    assert_eq!(Some(5), caught_up.last_applied_index());

    // the snapshot is not touched by what came after
    let mut third = StateMachine::new();
    third.restore(&kept);
    assert_eq!(1, third.prefix_list_kv("", 100).len());
    assert_eq!(1, third.get_database_meta(None).unwrap().meta_ver);
}

#[test]
fn duplicate_is_independent() {
    let mut sm = StateMachine::new();
    sm.upsert_kv("a", MatchSeq::Any, Some(b"1".to_vec()), None, 1)
        .unwrap();
    let copy = sm.duplicate();
    sm.upsert_kv("a", MatchSeq::Any, Some(b"2".to_vec()), None, 1)
        .unwrap();
    assert_eq!(
        Some((1, KVValue {
            meta: None,
            value: b"1".to_vec()
        })),
        copy.get_kv("a", 1).unwrap().result
    );
    assert_eq!(Some(1), copy.last_applied_index());
    assert_eq!(Some(2), sm.last_applied_index());
}

#[test]
fn writes_take_the_position_behind_the_last() {
    let mut sm = StateMachine::new();
    sm.apply(upsert(41, 10, "k", MatchSeq::Any, Some(b"a"))).unwrap();
    sm.upsert_kv("k", MatchSeq::Any, Some(b"b".to_vec()), None, 10)
        .unwrap();
    assert_eq!(Some(42), sm.last_applied_index());
    sm.create_database(CreateDatabasePlan {
        if_not_exists: false,
        db: "db1".to_string(),
        engine: "Local".to_string(),
        options: Default::default(),
    })
    .unwrap();
    assert_eq!(Some(43), sm.last_applied_index());
    // a refused plan still is an entry of the log
    let e = sm
        .drop_table(DropTablePlan {
            if_exists: false,
            db: "db1".to_string(),
            table: "t".to_string(),
        })
        .unwrap_err();
    assert_eq!(MetaError::UnknownTable("t".to_string()), e);
    assert_eq!(Some(44), sm.last_applied_index());
}

#[test]
fn log_room_ends_at_the_last_position() {
    let mut sm = StateMachine::new();
    sm.apply(upsert(u64::MAX, 10, "k", MatchSeq::Any, Some(b"a")))
        .unwrap();
    assert!(!sm.has_log_room());
    assert!(sm.has_room());
    // the same position again is still answered
    let again = sm
        .apply(upsert(u64::MAX, 10, "k", MatchSeq::Any, Some(b"a")))
        .unwrap();
    assert_eq!(kv(None, Some((1, b"a"))), again);
}

#[test]
fn apply_all_is_apply_in_turn() {
    let log = || {
        vec![
            upsert(1, 100, "a", MatchSeq::Any, Some(b"1")),
            create_db(2, "db1", false),
            create_db(2, "db9", false),
            upsert(3, 100, "a", MatchSeq::Exact(1), Some(b"2")),
            upsert(1, 100, "a", MatchSeq::Any, Some(b"stale")),
            create_db(4, "db1", false),
        ]
    };
    let mut one = StateMachine::new();
    assert!(one.has_room_for(6));
    assert!(one.has_room_for(usize::MAX));
    let results = one.apply_all(log());
    let mut two = StateMachine::new();
    let mut singly = vec![];
    for entry in log() {
        singly.push(two.apply(entry));
    }
    assert_eq!(singly, results);
    assert_eq!(6, results.len());
    assert_eq!(Ok(kv(None, Some((1, b"1")))), results[0]);
    assert_eq!(results[1], results[2]);
    assert_eq!(Ok(kv(Some((1, b"1")), Some((2, b"2")))), results[3]);
    assert!(results[4].is_err());
    assert_eq!(
        Err(MetaError::AlreadyExists("db1".to_string())),
        results[5]
    );
    assert_eq!(one.prefix_list_kv("", 100), two.prefix_list_kv("", 100));
    assert_eq!(2, one.last_seq());
    assert_eq!(1, one.meta_version());
    assert_eq!(Some(4), one.last_applied_index());
    assert!(one.apply_all(vec![]).is_empty());
    assert_eq!(Some(4), one.last_applied_index());
}
