use metasrv::kv_value::KVMeta;
use metasrv::kv_value::KVValue;
use metasrv::match_seq::MatchSeq;
use metasrv::state_machine::StateMachine;

const NOW: u64 = 1_600_000_000;

fn value(bytes: &[u8]) -> KVValue {
    KVValue {
        meta: None,
        value: bytes.to_vec(),
    }
}

#[test]
fn test_flight_generic_kv_mget() {
    let mut client = StateMachine::new();

    client
        .upsert_kv("k1", MatchSeq::Any, Some(b"v1".to_vec()), None, NOW)
        .unwrap();
    client
        .upsert_kv("k2", MatchSeq::Any, Some(b"v2".to_vec()), None, NOW)
        .unwrap();

    let res = client
        .mget_kv(&["k1".to_string(), "k2".to_string()], NOW)
        .unwrap();
    assert_eq!(res.result, vec![
        Some((1, KVValue {
            meta: None,
            value: b"v1".to_vec()
        })),
        // the sequence number is increased globally, inside the namespace
        Some((2, KVValue {
            meta: None,
            value: b"v2".to_vec()
        })),
    ]);

    let res = client
        .mget_kv(&["k1".to_string(), "key_no exist".to_string()], NOW)
        .unwrap();
    assert_eq!(res.result, vec![
        Some((1, KVValue {
            meta: None,
            value: b"v1".to_vec()
        })),
        None
    ]);
}

#[test]
fn test_flight_generic_kv_list() {
    let mut client = StateMachine::new();

    let mut values = vec![];
    {
        client
            .upsert_kv("t", MatchSeq::Any, Some("".as_bytes().to_vec()), None, NOW)
            .unwrap();

        for i in 0..9 {
            let key = format!("__users/{}", i);
            let val = format!("val_{}", i);
            values.push(val.clone());
            client
                .upsert_kv(&key, MatchSeq::Any, Some(val.as_bytes().to_vec()), None, NOW)
                .unwrap();
        }
        client
            .upsert_kv("v", MatchSeq::Any, Some(b"".to_vec()), None, NOW)
            .unwrap();
    }

    let res = client.prefix_list_kv("__users/", NOW);
    assert_eq!(
        res.iter()
            .map(|(_key, (_s, val))| val.clone())
            .collect::<Vec<_>>(),
        values
            .iter()
            .map(|v| KVValue {
                meta: None,
                value: v.as_bytes().to_vec()
            })
            .collect::<Vec<_>>()
    );
}

#[test]
fn test_flight_generic_kv_delete() {
    let mut client = StateMachine::new();

    let test_key = "test_key";
    client
        .upsert_kv(test_key, MatchSeq::Any, Some(b"v1".to_vec()), None, NOW)
        .unwrap();

    let current = client.get_kv(test_key, NOW).unwrap();
    if let Some((seq, _val)) = current.result {
        // seq mismatch
        let wrong_seq = Some(seq + 1);
        let res = client
            .upsert_kv(test_key, wrong_seq.into(), None, None, NOW)
            .unwrap();
        assert_eq!(res.prev, res.result);

        // seq match
        let res = client
            .upsert_kv(test_key, MatchSeq::Exact(seq), None, None, NOW)
            .unwrap();
        assert!(res.result.is_none());

        // read nothing
        let r = client.get_kv(test_key, NOW).unwrap();
        assert!(r.result.is_none());
    } else {
        panic!("expecting a value, but got nothing");
    }

    // key not exist
    let res = client
        .upsert_kv("not exists", MatchSeq::Any, None, None, NOW)
        .unwrap();
    assert_eq!(None, res.prev);
    assert_eq!(None, res.result);

    // do not care seq
    client
        .upsert_kv(test_key, MatchSeq::Any, Some(b"v2".to_vec()), None, NOW)
        .unwrap();

    let res = client
        .upsert_kv(test_key, MatchSeq::Any, None, None, NOW)
        .unwrap();
    // Each of the two removals before took a sequence number of its own.
    assert_eq!(
        (
            Some((4, KVValue {
                meta: None,
                value: b"v2".to_vec()
            })),
            None
        ),
        (res.prev, res.result)
    );
}

#[test]
fn test_flight_generic_kv_update() {
    let mut client = StateMachine::new();

    let test_key = "test_key_for_update";

    let r = client
        .upsert_kv(test_key, MatchSeq::GE(1), Some(b"v1".to_vec()), None, NOW)
        .unwrap();
    assert_eq!((None, None), (r.prev, r.result), "not changed");

    let r = client
        .upsert_kv(test_key, MatchSeq::Any, Some(b"v1".to_vec()), None, NOW)
        .unwrap();
    assert_eq!(
        Some((1, KVValue {
            meta: None,
            value: b"v1".to_vec()
        })),
        r.result
    );
    let seq = r.result.unwrap().0;

    // unmatched seq
    let r = client
        .upsert_kv(
            test_key,
            MatchSeq::Exact(seq + 1),
            Some(b"v2".to_vec()),
            None,
            NOW,
        )
        .unwrap();
    assert_eq!(
        Some((1, KVValue {
            meta: None,
            value: b"v1".to_vec()
        })),
        r.prev
    );
    assert_eq!(
        Some((1, KVValue {
            meta: None,
            value: b"v1".to_vec()
        })),
        r.result
    );

    // matched seq
    let r = client
        .upsert_kv(test_key, MatchSeq::Exact(seq), Some(b"v2".to_vec()), None, NOW)
        .unwrap();
    assert_eq!(
        Some((1, KVValue {
            meta: None,
            value: b"v1".to_vec()
        })),
        r.prev
    );
    assert_eq!(
        Some((2, KVValue {
            meta: None,
            value: b"v2".to_vec()
        })),
        r.result
    );

    // blind update
    let r = client
        .upsert_kv(test_key, MatchSeq::GE(1), Some(b"v3".to_vec()), None, NOW)
        .unwrap();
    assert_eq!(
        Some((2, KVValue {
            meta: None,
            value: b"v2".to_vec()
        })),
        r.prev
    );
    assert_eq!(
        Some((3, KVValue {
            meta: None,
            value: b"v3".to_vec()
        })),
        r.result
    );

    // value updated
    let kv = client.get_kv(test_key, NOW).unwrap();
    assert!(kv.result.is_some());
    assert_eq!(kv.result.unwrap().1, KVValue {
        meta: None,
        value: b"v3".to_vec()
    });
}

#[test]
fn test_flight_generic_kv_update_meta() {
    // Only update meta, do not touch the value part.
    let mut client = StateMachine::new();

    let test_key = "test_key_for_update_meta";

    let now = NOW;

    let r = client
        .upsert_kv(test_key, MatchSeq::Any, Some(b"v1".to_vec()), None, now)
        .unwrap();
    assert_eq!(
        Some((1, KVValue {
            meta: None,
            value: b"v1".to_vec()
        })),
        r.result
    );
    let seq = r.result.unwrap().0;

    // mismatching seq does nothing
    let r = client
        .update_kv_meta(
            test_key,
            MatchSeq::Exact(seq + 1),
            Some(KVMeta {
                expire_at: Some(now + 20),
            }),
            now,
        )
        .unwrap();
    assert_eq!(
        Some((1, KVValue {
            meta: None,
            value: b"v1".to_vec()
        })),
        r.prev
    );
    assert_eq!(
        Some((1, KVValue {
            meta: None,
            value: b"v1".to_vec()
        })),
        r.result
    );

    // matching seq only update meta
    let r = client
        .update_kv_meta(
            test_key,
            MatchSeq::Exact(seq),
            Some(KVMeta {
                expire_at: Some(now + 20),
            }),
            now,
        )
        .unwrap();
    assert_eq!(
        Some((1, KVValue {
            meta: None,
            value: b"v1".to_vec()
        })),
        r.prev
    );
    assert_eq!(
        Some((2, KVValue {
            meta: Some(KVMeta {
                expire_at: Some(now + 20)
            }),
            value: b"v1".to_vec()
        })),
        r.result
    );

    // get returns the value with meta and seq updated
    let kv = client.get_kv(test_key, now).unwrap();
    assert!(kv.result.is_some());
    assert_eq!(
        (seq + 1, KVValue {
            meta: Some(KVMeta {
                expire_at: Some(now + 20)
            }),
            value: b"v1".to_vec()
        }),
        kv.result.unwrap(),
    );
}

#[test]
fn test_flight_generic_kv_timeout() {
    // - Test get  expired and non-expired.
    // - Test mget expired and non-expired.
    // - Test list expired and non-expired.
    // - Test update with a new expire value.
    let mut client = StateMachine::new();

    let now = NOW;

    client
        .upsert_kv(
            "k1",
            MatchSeq::Any,
            Some(b"v1".to_vec()),
            Some(KVMeta {
                expire_at: Some(now + 1),
            }),
            now,
        )
        .unwrap();

    // get unexpired
    {
        let res = client.get_kv(&"k1".to_string(), now).unwrap();
        assert!(res.result.is_some(), "got unexpired");
    }

    // two seconds later
    let now = now + 2;

    // get expired
    {
        let res = client.get_kv(&"k1".to_string(), now).unwrap();
        assert!(res.result.is_none(), "got expired");
    }

    // expired entry act as if it does not exist, an ADD op should apply
    {
        client
            .upsert_kv(
                "k1",
                MatchSeq::Exact(0),
                Some(b"v1".to_vec()),
                Some(KVMeta {
                    expire_at: Some(now - 1),
                }),
                now,
            )
            .unwrap();
        client
            .upsert_kv(
                "k2",
                MatchSeq::Exact(0),
                Some(b"v2".to_vec()),
                Some(KVMeta {
                    expire_at: Some(now + 2),
                }),
                now,
            )
            .unwrap();

        // mget should not return expired
        let res = client
            .mget_kv(&["k1".to_string(), "k2".to_string()], now)
            .unwrap();
        assert_eq!(res.result, vec![
            None,
            Some((3, KVValue {
                meta: Some(KVMeta {
                    expire_at: Some(now + 2)
                }),
                value: b"v2".to_vec()
            })),
        ]);
    }

    // list should not return expired
    {
        let res = client.prefix_list_kv("k", now);
        let res_vec = res.iter().map(|(key, _)| key.clone()).collect::<Vec<_>>();

        assert_eq!(res_vec, vec!["k2".to_string(),]);
    }

    // update expire
    {
        client
            .upsert_kv(
                "k2",
                MatchSeq::Exact(3),
                Some(b"v2".to_vec()),
                Some(KVMeta {
                    expire_at: Some(now - 1),
                }),
                now,
            )
            .unwrap();

        let res = client.get_kv(&"k2".to_string(), now).unwrap();
        assert!(res.result.is_none(), "k2 expired");
    }
}

#[test]
fn test_flight_generic_kv() {
    let mut client = StateMachine::new();

    {
        // write
        let res = client
            .upsert_kv("foo", MatchSeq::Any, Some(b"bar".to_vec()), None, NOW)
            .unwrap();
        assert_eq!(None, res.prev);
        assert_eq!(
            Some((1, KVValue {
                meta: None,
                value: b"bar".to_vec()
            })),
            res.result
        );
    }

    {
        // write fails with unmatched seq
        let res = client
            .upsert_kv("foo", MatchSeq::Exact(2), Some(b"bar".to_vec()), None, NOW)
            .unwrap();
        assert_eq!(
            (
                Some((1, KVValue {
                    meta: None,
                    value: b"bar".to_vec()
                })),
                Some((1, KVValue {
                    meta: None,
                    value: b"bar".to_vec(),
                })),
            ),
            (res.prev, res.result),
            "nothing changed"
        );
    }

    {
        // write done with matching seq
        let res = client
            .upsert_kv("foo", MatchSeq::Exact(1), Some(b"wow".to_vec()), None, NOW)
            .unwrap();
        assert_eq!(
            Some((1, KVValue {
                meta: None,
                value: b"bar".to_vec()
            })),
            res.prev,
            "old value"
        );
        assert_eq!(
            Some((2, KVValue {
                meta: None,
                value: b"wow".to_vec()
            })),
            res.result,
            "new value"
        );
    }
}

#[test]
fn fresh_key_reads_as_absent_and_takes_first_seq() {
    let mut sm = StateMachine::new();
    assert_eq!(None, sm.get_kv("never", NOW).unwrap().result);
    let r = sm
        .upsert_kv("never", MatchSeq::Exact(0), Some(b"v".to_vec()), None, NOW)
        .unwrap();
    assert_eq!(None, r.prev);
    assert_eq!(Some((1, value(b"v"))), r.result);
    assert_eq!(Some((1, value(b"v"))), sm.get_kv("never", NOW).unwrap().result);
}

#[test]
fn seq_grows_across_keys_and_is_not_reused() {
    let mut sm = StateMachine::new();
    let mut last = 0;
    for i in 0..20u64 {
        let key = format!("key-{}", i % 5);
        let r = sm
            .upsert_kv(&key, MatchSeq::Any, Some(vec![i as u8]), None, NOW)
            .unwrap();
        let seq = r.result.unwrap().0;
        assert!(seq > last);
        assert_eq!(i + 1, seq);
        last = seq;
    }
    let listed = sm.prefix_list_kv("key-", NOW);
    assert_eq!(5, listed.len());
    let mut seqs: Vec<u64> = listed.iter().map(|(_, (s, _))| *s).collect();
    seqs.sort();
    seqs.dedup();
    assert_eq!(vec![16, 17, 18, 19, 20], seqs);
}

#[test]
fn exact_mismatch_leaves_state_unchanged() {
    let mut sm = StateMachine::new();
    sm.upsert_kv("a", MatchSeq::Any, Some(b"1".to_vec()), None, NOW)
        .unwrap();
    let before = sm.prefix_list_kv("", NOW);
    for n in [0u64, 2, 3, u64::MAX] {
        let r = sm
            .upsert_kv("a", MatchSeq::Exact(n), Some(b"2".to_vec()), None, NOW)
            .unwrap();
        assert_eq!(r.prev, r.result);
        assert_eq!(Some((1, value(b"1"))), r.prev);
    }
    // an absent key has no sequence number but zero
    let r = sm
        .upsert_kv("b", MatchSeq::Exact(1), Some(b"2".to_vec()), None, NOW)
        .unwrap();
    assert_eq!((None, None), (r.prev, r.result));
    assert_eq!(before, sm.prefix_list_kv("", NOW));
    // the next write shows that no sequence number was taken
    let r = sm
        .upsert_kv("c", MatchSeq::Any, Some(b"3".to_vec()), None, NOW)
        .unwrap();
    assert_eq!(Some((2, value(b"3"))), r.result);
}

#[test]
fn ge_condition() {
    let mut sm = StateMachine::new();
    // GE(0) admits an absent key
    let r = sm
        .upsert_kv("a", MatchSeq::GE(0), Some(b"1".to_vec()), None, NOW)
        .unwrap();
    assert_eq!(Some((1, value(b"1"))), r.result);
    // GE(2) does not admit sequence number 1
    let r = sm
        .upsert_kv("a", MatchSeq::GE(2), Some(b"2".to_vec()), None, NOW)
        .unwrap();
    assert_eq!(r.prev, r.result);
    // GE(1) does
    let r = sm
        .upsert_kv("a", MatchSeq::GE(1), Some(b"2".to_vec()), None, NOW)
        .unwrap();
    assert_eq!(Some((2, value(b"2"))), r.result);
    assert!(MatchSeq::GE(0).match_seq(None));
    assert!(!MatchSeq::GE(1).match_seq(None));
    assert!(MatchSeq::GE(5).match_seq(Some(5)));
    assert!(!MatchSeq::GE(6).match_seq(Some(5)));
    assert!(MatchSeq::Exact(0).match_seq(None));
    assert!(!MatchSeq::Exact(0).match_seq(Some(1)));
    assert!(MatchSeq::Exact(7).match_seq(Some(7)));
    assert!(MatchSeq::Any.match_seq(None));
    assert!(MatchSeq::Any.match_seq(Some(9)));
}

#[test]
fn match_seq_from_optional() {
    assert_eq!(MatchSeq::Exact(4), MatchSeq::from(Some(4)));
    assert_eq!(MatchSeq::Any, MatchSeq::from(None));
}

#[test]
fn meta_is_kept_unless_replaced() {
    let mut sm = StateMachine::new();
    let meta = Some(KVMeta {
        expire_at: Some(NOW + 100),
    });
    sm.upsert_kv("a", MatchSeq::Any, Some(b"1".to_vec()), meta, NOW)
        .unwrap();
    // a write of a value alone keeps the metadata
    let r = sm
        .upsert_kv("a", MatchSeq::Any, Some(b"2".to_vec()), None, NOW)
        .unwrap();
    assert_eq!(
        Some((2, KVValue {
            meta,
            value: b"2".to_vec()
        })),
        r.result
    );
    // a write with metadata replaces it
    let other = Some(KVMeta { expire_at: None });
    let r = sm
        .upsert_kv("a", MatchSeq::Any, Some(b"3".to_vec()), other, NOW)
        .unwrap();
    assert_eq!(
        Some((3, KVValue {
            meta: other,
            value: b"3".to_vec()
        })),
        r.result
    );
    // a change of metadata to none clears it and keeps the value
    let r = sm.update_kv_meta("a", MatchSeq::Any, None, NOW).unwrap();
    assert_eq!(Some((4, value(b"3"))), r.result);
    // a fresh key starts with the metadata that is given
    let r = sm
        .upsert_kv("b", MatchSeq::Any, Some(b"1".to_vec()), None, NOW)
        .unwrap();
    assert_eq!(Some((5, value(b"1"))), r.result);
}

#[test]
fn expired_entry_does_not_hand_on_its_meta() {
    let mut sm = StateMachine::new();
    let meta = Some(KVMeta {
        expire_at: Some(NOW + 1),
    });
    sm.upsert_kv("a", MatchSeq::Any, Some(b"1".to_vec()), meta, NOW)
        .unwrap();
    let later = NOW + 1;
    let r = sm
        .upsert_kv("a", MatchSeq::Exact(0), Some(b"2".to_vec()), None, later)
        .unwrap();
    assert_eq!(None, r.prev);
    assert_eq!(Some((2, value(b"2"))), r.result);
    assert_eq!(Some((2, value(b"2"))), sm.get_kv("a", later + 50).unwrap().result);
}

#[test]
fn update_meta_of_absent_key_changes_nothing() {
    let mut sm = StateMachine::new();
    let r = sm
        .update_kv_meta(
            "a",
            MatchSeq::Any,
            Some(KVMeta {
                expire_at: Some(NOW + 9),
            }),
            NOW,
        )
        .unwrap();
    assert_eq!((None, None), (r.prev, r.result));
    let r = sm
        .upsert_kv("a", MatchSeq::Any, Some(b"1".to_vec()), None, NOW)
        .unwrap();
    assert_eq!(Some((1, value(b"1"))), r.result);
}

#[test]
fn expiry_boundary() {
    let mut sm = StateMachine::new();
    let meta = Some(KVMeta {
        expire_at: Some(NOW + 10),
    });
    sm.upsert_kv("a", MatchSeq::Any, Some(b"1".to_vec()), meta, NOW)
        .unwrap();
    assert!(sm.get_kv("a", NOW + 9).unwrap().result.is_some());
    assert!(sm.get_kv("a", NOW + 10).unwrap().result.is_none());
    assert!(sm.get_kv("a", NOW + 11).unwrap().result.is_none());
    assert!(sm.get_kv("a", u64::MAX).unwrap().result.is_none());
    assert_eq!(
        vec![None],
        sm.mget_kv(&["a".to_string()], NOW + 10).unwrap().result
    );
    assert!(sm.prefix_list_kv("a", NOW + 10).is_empty());
    assert_eq!(1, sm.prefix_list_kv("a", NOW + 9).len());
    assert!(KVMeta { expire_at: Some(5) }.is_expired(5));
    assert!(!KVMeta { expire_at: Some(5) }.is_expired(4));
    assert!(!KVMeta { expire_at: None }.is_expired(u64::MAX));
}

#[test]
fn empty_key_is_rejected() {
    let mut sm = StateMachine::new();
    let e = sm
        .upsert_kv("", MatchSeq::Any, Some(b"1".to_vec()), None, NOW)
        .unwrap_err();
    assert_eq!(6, e.code());
    assert_eq!("empty key", e.message());
    assert!(sm.update_kv_meta("", MatchSeq::Any, None, NOW).is_err());
    assert!(sm.get_kv("", NOW).is_err());
    assert!(sm
        .mget_kv(&["a".to_string(), "".to_string()], NOW)
        .is_err());
    assert_eq!(None, sm.last_applied_index());
    // no sequence number was taken
    let r = sm
        .upsert_kv("a", MatchSeq::Any, Some(b"1".to_vec()), None, NOW)
        .unwrap();
    assert_eq!(Some((1, value(b"1"))), r.result);
    assert_eq!(Some(1), sm.last_applied_index());
}

#[test]
fn prefix_list_is_in_key_order() {
    let mut sm = StateMachine::new();
    for key in ["b/2", "a", "b/10", "b/", "c", "b", "b/1"] {
        sm.upsert_kv(key, MatchSeq::Any, Some(key.as_bytes().to_vec()), None, NOW)
            .unwrap();
    }
    let keys: Vec<String> = sm
        .prefix_list_kv("b/", NOW)
        .iter()
        .map(|(k, _)| k.clone())
        .collect();
    assert_eq!(vec!["b/", "b/1", "b/10", "b/2"], keys);
    let all: Vec<String> = sm
        .prefix_list_kv("", NOW)
        .iter()
        .map(|(k, _)| k.clone())
        .collect();
    assert_eq!(vec!["a", "b", "b/", "b/1", "b/10", "b/2", "c"], all);
    let listed = sm.prefix_list_kv("b/1", NOW);
    assert_eq!(
        vec![
            ("b/1".to_string(), (7, value(b"b/1"))),
            ("b/10".to_string(), (3, value(b"b/10")))
        ],
        listed
    );
    assert!(sm.prefix_list_kv("d", NOW).is_empty());
}

#[test]
fn keys_beyond_ascii() {
    let mut sm = StateMachine::new();
    for key in ["é", "e", "z", "日本", "日", "éa"] {
        sm.upsert_kv(key, MatchSeq::Any, Some(key.as_bytes().to_vec()), None, NOW)
            .unwrap();
    }
    let all: Vec<String> = sm
        .prefix_list_kv("", NOW)
        .iter()
        .map(|(k, _)| k.clone())
        .collect();
    let mut want = vec!["é", "e", "z", "日本", "日", "éa"];
    want.sort();
    assert_eq!(want, all);
    let some: Vec<String> = sm
        .prefix_list_kv("日", NOW)
        .iter()
        .map(|(k, _)| k.clone())
        .collect();
    assert_eq!(vec!["日", "日本"], some);
    assert_eq!(
        Some((4, value("日本".as_bytes()))),
        sm.get_kv("日本", NOW).unwrap().result
    );
}
