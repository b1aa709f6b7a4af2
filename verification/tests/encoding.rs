use packet_plane::idmap::{IdMap, IndexSet};
use packet_plane::logenc::{make_log_line, parse_log_line, push_decimal};

#[test]
fn log_line_round_trips_through_json() {
    let batches: Vec<Vec<i64>> = vec![vec![1, 2], vec![], vec![-3]];
    let line = make_log_line(&batches);
    assert_eq!(line, b"[[1,2],[],[-3]]\n".to_vec());
    assert_eq!(parse_log_line(&line), Some(batches));
}

#[test]
fn log_line_of_empty_flush_round_trips() {
    let batches: Vec<Vec<i64>> = vec![];
    let line = make_log_line(&batches);
    assert_eq!(line, b"[]\n".to_vec());
    assert_eq!(parse_log_line(&line), Some(batches));
}

#[test]
fn truncated_log_line_is_discarded() {
    assert_eq!(parse_log_line(&b"[[1,2]".to_vec()), None);
    assert_eq!(parse_log_line(&Vec::new()), None);
    assert_eq!(parse_log_line(&b"[[1,2]]".to_vec()), None);
}

#[test]
fn garbage_log_line_is_rejected() {
    assert_eq!(parse_log_line(&b"not json\n".to_vec()), None);
}

#[test]
fn decimal_rendering_matches_std() {
    for n in [0u64, 1, 9, 10, 42, 100, 4096, u64::MAX] {
        let mut s = String::new();
        push_decimal(&mut s, n);
        assert_eq!(s, n.to_string());
    }
}

#[test]
fn idmap_keeps_insertion_order_and_bindings() {
    let mut m: IdMap<u64> = IdMap::new();
    assert_eq!(m.len(), 0);
    m.insert(7, 70);
    m.insert(3, 30);
    m.insert(7, 71);
    assert_eq!(m.len(), 2);
    assert_eq!(m.key_at(0), 7);
    assert_eq!(m.key_at(1), 3);
    assert_eq!(m.get(7), Some(&71));
    assert_eq!(m.get(3), Some(&30));
    assert_eq!(m.remove(7), Some(71));
    assert_eq!(m.get(7), None);
    assert_eq!(m.len(), 1);
    assert!(m.contains_key(3));
}

#[test]
fn index_set_ignores_duplicates() {
    let mut s = IndexSet::new();
    s.insert(4);
    s.insert(4);
    s.insert(9);
    assert_eq!(s.len(), 2);
    assert!(s.contains(4));
    assert!(s.contains(9));
    assert!(!s.contains(5));
    let t = IndexSet::singleton(8);
    assert_eq!(t.len(), 1);
    assert!(t.contains(8));
}
