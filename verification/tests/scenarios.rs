use std::collections::hash_map::RandomState;

use rwmap::Options;
use rwmap::RwMap;

// Read-after-publish and staleness: an unpublished overwrite stays invisible
// until the next publish makes it visible as a whole.
#[test]
fn overwrite_visible_only_after_publish() {
    let mut m = RwMap::<String, i64>::default();
    m.insert("a".into(), 1);
    m.publish();
    assert_eq!(m.get(&"a".to_string()), Some(&1));

    m.insert("a".into(), 2);
    assert_eq!(m.get(&"a".to_string()), Some(&1));

    m.publish();
    assert_eq!(m.get(&"a".to_string()), Some(&2));
}

// Read-after-publish for removals: the published view reflects exactly the
// net effect of the batch.
#[test]
fn remove_shrinks_published_view() {
    let mut m = RwMap::<String, i64>::default();
    m.insert("x".into(), 1);
    m.insert("y".into(), 2);
    m.publish();
    assert_eq!(m.len(), 2);

    m.remove("y".to_string());
    m.publish();
    assert_eq!(m.len(), 1);
    assert_eq!(m.get(&"y".to_string()), None);
    assert_eq!(m.get(&"x".to_string()), Some(&1));
}

// A never-published map reports nothing, and that state is distinguishable
// from published-and-empty: enter() yields no guard before the first publish
// and a guard over an empty view after it.
#[test]
fn unpublished_map_reports_nothing() {
    let mut m = RwMap::<String, i64>::default();
    assert!(m.enter().is_none());
    assert_eq!(m.len(), 0);
    assert!(m.is_empty());
    assert!(!m.contains_key(&"a".to_string()));
    assert_eq!(m.get(&"a".to_string()), None);
    assert!(m.meta_get(&"a".to_string()).is_none());

    m.publish();
    let guard = m.enter().expect("published map must admit readers");
    assert_eq!(guard.len(), 0);
    assert!(guard.is_empty());
}

// Operations appended but not published are invisible, even many at a time.
#[test]
fn unpublished_batch_is_invisible() {
    let mut m = RwMap::<usize, usize>::default();
    m.publish();
    for i in 0..10 {
        m.insert(i, i * i);
    }
    assert_eq!(m.len(), 0);
    for i in 0..10 {
        assert_eq!(m.get(&i), None);
    }
    m.publish();
    assert_eq!(m.len(), 10);
    for i in 0..10 {
        assert_eq!(m.get(&i), Some(&(i * i)));
    }
}

// Writer self-consistency: has_pending is true right after any mutating call
// and false right after a publish with nothing in between.
#[test]
fn has_pending_tracks_mutations() {
    let mut m = RwMap::<String, i64>::default();
    // the readiness marker enqueued at construction is itself pending
    assert!(m.has_pending());
    m.publish();
    assert!(!m.has_pending());

    m.insert("a".into(), 1);
    assert!(m.has_pending());
    m.publish();
    assert!(!m.has_pending());

    m.remove("a".to_string());
    assert!(m.has_pending());
    m.publish();
    assert!(!m.has_pending());

    m.publish();
    assert!(!m.has_pending());
}

// Destruction visibility: after the writer side is torn down every read
// reports absence, never stale data.
#[test]
fn destroyed_map_reports_absence() {
    let mut m = RwMap::<String, i64>::default();
    m.insert("a".into(), 1);
    m.publish();
    assert_eq!(m.get(&"a".to_string()), Some(&1));
    assert!(!m.was_dropped());

    m.destroy();
    assert!(m.was_dropped());
    assert!(m.enter().is_none());
    assert_eq!(m.get(&"a".to_string()), None);
    assert_eq!(m.len(), 0);
    assert!(m.is_empty());
    assert!(m.meta().is_none());
    assert!(m.meta_get(&"a".to_string()).is_none());
}

// Metadata is snapshotted per publish like the data: absent before the first
// publish, and stale until the publish after each overwrite.
#[test]
fn meta_follows_publishes() {
    let mut m = RwMap::<String, i64, String, RandomState>::maybe_with_meta_and_hasher(
        Some("first".to_string()),
        None,
    );
    assert_eq!(m.meta(), None);

    m.publish();
    assert_eq!(m.meta(), Some("first".to_string()));

    m.set_meta("second".to_string());
    assert_eq!(m.meta(), Some("first".to_string()));

    m.publish();
    assert_eq!(m.meta(), Some("second".to_string()));
}

// meta_get pairs the published cell with the metadata; the guarded cell hands
// out the stored value.
#[test]
fn meta_get_pairs_cell_and_meta() {
    let mut m = RwMap::<String, i64, String, RandomState>::maybe_with_meta_and_hasher(
        Some("m".to_string()),
        None,
    );
    m.insert("k".into(), 7);
    m.publish();

    let (cell, meta) = m.meta_get(&"k".to_string()).expect("map is published");
    assert_eq!(meta, "m".to_string());
    assert_eq!(cell.map(|c| *c.as_ref()), Some(7));

    let (absent, meta2) = m.meta_get(&"nope".to_string()).expect("map is published");
    assert!(absent.is_none());
    assert_eq!(meta2, "m".to_string());
}

// The drop-responsibility tags alternate as the protocol dictates: the copy
// that absorbed an insert first holds the suppressed cell, the copy that got
// it by replay holds the owning one, and publishes swap which copy readers
// see.
#[test]
fn drop_tags_follow_the_protocol() {
    let mut m = RwMap::<String, i64>::default();
    m.insert("k1".into(), 1);
    m.publish();
    // readers now see the copy the insert was first applied to
    let (cell, _) = m.meta_get(&"k1".to_string()).unwrap();
    assert!(!cell.unwrap().is_owning());

    // an empty publish is a no-op and changes nothing
    m.publish();
    let (cell, _) = m.meta_get(&"k1".to_string()).unwrap();
    assert!(!cell.unwrap().is_owning());

    m.insert("k2".into(), 2);
    m.publish();
    // readers now see the other copy, whose cell for k1 was minted by replay
    let (cell1, _) = m.meta_get(&"k1".to_string()).unwrap();
    assert!(cell1.unwrap().is_owning());
    let (cell2, _) = m.meta_get(&"k2".to_string()).unwrap();
    assert!(!cell2.unwrap().is_owning());
}

// The guard's iterators walk the published snapshot: every published pair,
// key and cell exactly once.
#[test]
fn guard_iterators_walk_the_snapshot() {
    let mut m = RwMap::<usize, usize>::default();
    for i in 0..5 {
        m.insert(i, 10 * i);
    }
    m.publish();
    let guard = m.enter().unwrap();

    let mut pairs = Vec::new();
    let mut it = guard.iter();
    while let Some((k, cell)) = it.next() {
        pairs.push((*k, *cell.as_ref()));
    }
    pairs.sort();
    assert_eq!(pairs, vec![(0, 0), (1, 10), (2, 20), (3, 30), (4, 40)]);

    let mut ks = Vec::new();
    let mut kit = guard.keys();
    while let Some(k) = kit.next() {
        ks.push(*k);
    }
    ks.sort();
    assert_eq!(ks, vec![0, 1, 2, 3, 4]);

    let mut vs = Vec::new();
    let mut vit = guard.values();
    while let Some(cell) = vit.next() {
        vs.push(*cell.as_ref());
    }
    vs.sort();
    assert_eq!(vs, vec![0, 10, 20, 30, 40]);
}

// Removing an absent key is a no-op, not an error.
#[test]
fn removing_absent_key_is_noop() {
    let mut m = RwMap::<String, i64>::default();
    m.insert("a".into(), 1);
    m.publish();
    m.remove("missing".to_string());
    m.publish();
    assert_eq!(m.len(), 1);
    assert_eq!(m.get(&"a".to_string()), Some(&1));
}

// A writer inserting keys one publish at a time: no key is visible before its
// publish, and every key stays visible afterwards.
#[test]
fn keys_appear_only_with_their_publish() {
    let n: usize = 50;
    let mut m = RwMap::<usize, usize>::default();
    m.publish();
    for i in 0..n {
        assert_eq!(m.get(&i), None);
        m.insert(i, i);
        assert_eq!(m.get(&i), None);
        m.publish();
        for j in 0..=i {
            assert_eq!(m.get(&j), Some(&j));
        }
    }
    assert_eq!(m.len(), n);
}

// The construction options can be assembled step by step, swapping the
// metadata and hash strategy types along the way.
#[test]
fn options_can_be_assembled() {
    let base = Options::default();
    let with_meta = base.with_meta("meta".to_string());
    let opts = with_meta.with_hasher(RandomState::new());
    let full = Options::new(1u32, RandomState::default());
    drop(opts);
    drop(full);
}
