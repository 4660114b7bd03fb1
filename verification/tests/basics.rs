use metasrv::error::decimal_string;
use metasrv::error::MetaError;
use metasrv::key_map::KeyMap;
use metasrv::key_order::str_less;
use metasrv::key_order::str_starts_with;
use metasrv::kv::GenericKV;
use metasrv::kv_value::clone_seq_value;
use metasrv::kv_value::filter_expired;
use metasrv::kv_value::KVMeta;
use metasrv::kv_value::KVValue;
use metasrv::match_seq::MatchSeq;

#[test]
fn key_order_is_that_of_str() {
    let keys = [
        "", "a", "aa", "ab", "b", "B", "a/", "a0", "é", "e", "ée", "z", "日本", "日", "\u{10FFFF}",
        "\u{7f}", "\u{80}", "\u{7ff}", "\u{800}", "\u{ffff}", "\u{10000}",
    ];
    for a in keys {
        for b in keys {
            assert_eq!(a < b, str_less(a, b), "{:?} < {:?}", a, b);
        }
    }
}

#[test]
fn prefix_test_is_that_of_str() {
    let keys = [
        "", "a", "aa", "ab", "b", "a/", "é", "e", "ée", "日本", "日", "\u{80}", "\u{800}",
        "\u{10000}", "\u{10000}x",
    ];
    for s in keys {
        for p in keys {
            assert_eq!(s.starts_with(p), str_starts_with(s, p), "{:?} {:?}", s, p);
        }
    }
    assert!(str_starts_with("__users/3", "__users/"));
    assert!(!str_starts_with("__user", "__users/"));
}

#[test]
fn key_map_put_get_take() {
    let mut m: KeyMap<u32> = KeyMap::new();
    assert_eq!(0, m.len());
    assert_eq!(None, m.get("a"));
    assert_eq!(None, m.put("m".to_string(), 1));
    assert_eq!(None, m.put("a".to_string(), 2));
    assert_eq!(None, m.put("z".to_string(), 3));
    assert_eq!(Some(1), m.put("m".to_string(), 4));
    assert_eq!(3, m.len());
    assert_eq!("a", m.key_at(0));
    assert_eq!("m", m.key_at(1));
    assert_eq!("z", m.key_at(2));
    assert_eq!(&2, m.value_at(0));
    assert_eq!(&4, m.value_at(1));
    assert_eq!(&3, m.value_at(2));
    assert_eq!(Some(&4), m.get("m"));
    assert_eq!((1, true), m.find("m"));
    assert_eq!((1, false), m.find("b"));
    assert_eq!((0, false), m.find(""));
    assert_eq!((3, false), m.find("zz"));
    *m.value_at_mut(2) = 30;
    assert_eq!(Some(&30), m.get("z"));
    assert_eq!(None, m.take("b"));
    assert_eq!(Some(2), m.take("a"));
    assert_eq!(2, m.len());
    assert_eq!("m", m.key_at(0));
    m.push_last("zz".to_string(), 9);
    assert_eq!((2, true), m.find("zz"));
    assert_eq!(Some(30), m.take("z"));
    assert_eq!(Some(4), m.take("m"));
    assert_eq!(Some(9), m.take("zz"));
    assert_eq!(0, m.len());
}

#[test]
fn decimal_strings() {
    assert_eq!("0", decimal_string(0));
    assert_eq!("7", decimal_string(7));
    assert_eq!("10", decimal_string(10));
    assert_eq!("4003", decimal_string(4003));
    assert_eq!("1234567890", decimal_string(1234567890));
    assert_eq!(u64::MAX.to_string(), decimal_string(u64::MAX));
}

#[test]
fn every_error_has_its_code_and_text() {
    let cases = [
        (MetaError::UnknownDatabase("d".to_string()), 3, "d"),
        (MetaError::UnknownTable("t".to_string()), 25, "table not found: t"),
        (MetaError::AlreadyExists("d".to_string()), 4001, "d database exists"),
        (MetaError::TableAlreadyExists("t".to_string()), 4003, "table exists: t"),
        (MetaError::StorageFatal("disk".to_string()), 2401, "disk"),
        (MetaError::InvalidArgument("bad".to_string()), 6, "bad"),
    ];
    for (e, code, message) in cases {
        assert_eq!(code, e.code());
        assert_eq!(message, e.message());
        assert_eq!(
            format!("Code: {}, displayText = {}.", code, message),
            e.to_string()
        );
        assert_eq!(e, e.clone());
    }
}

#[test]
fn expiry_filter() {
    let live = (3u64, KVValue {
        meta: Some(KVMeta {
            expire_at: Some(100),
        }),
        value: b"v".to_vec(),
    });
    assert_eq!(Some(&live), filter_expired(Some(&live), 99));
    assert_eq!(None, filter_expired(Some(&live), 100));
    assert_eq!(None, filter_expired(Some(&live), 101));
    assert_eq!(None, filter_expired(None, 0));
    let plain = (4u64, KVValue {
        meta: None,
        value: b"v".to_vec(),
    });
    assert_eq!(Some(&plain), filter_expired(Some(&plain), u64::MAX));
    let forever = (5u64, KVValue {
        meta: Some(KVMeta { expire_at: None }),
        value: b"v".to_vec(),
    });
    assert_eq!(Some(&forever), filter_expired(Some(&forever), u64::MAX));
    assert_eq!(Some(plain.clone()), clone_seq_value(Some(&plain)));
    assert_eq!(None, clone_seq_value(None));
}

#[test]
fn namespace_on_its_own() {
    let mut kv = GenericKV::new();
    assert_eq!(0, kv.last_seq());
    assert!(kv.has_room());
    let r = kv
        .upsert("a", MatchSeq::Any, Some(b"1".to_vec()), None, 5)
        .unwrap();
    assert_eq!(None, r.prev);
    assert_eq!(1, kv.last_seq());
    let r = kv.update_meta("a", MatchSeq::GE(1), None, 5).unwrap();
    assert_eq!(
        Some((2, KVValue {
            meta: None,
            value: b"1".to_vec()
        })),
        r.result
    );
    let copy = kv.duplicate();
    kv.upsert("a", MatchSeq::Any, None, None, 5).unwrap();
    assert_eq!(3, kv.last_seq());
    assert!(kv.get("a", 5).unwrap().result.is_none());
    assert_eq!(2, copy.last_seq());
    assert_eq!(1, copy.prefix_list("", 5).len());
    assert_eq!(
        vec![None, None],
        kv.mget(&["a".to_string(), "b".to_string()], 5)
            .unwrap()
            .result
    );
}
