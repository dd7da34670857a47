use rwmap::RwMap;

#[test]
fn is_empty() {
    let mut w = RwMap::<String, serde_json::Value>::default();
    {
        assert!(w.is_empty());
    }
    w.publish();
    {
        assert!(w.is_empty());
    }
}

#[test]
fn check_one_item() {
    let mut w = RwMap::<String, serde_json::Value>::default();
    w.publish();
    {
        assert!(w.is_empty());
    }
    w.insert("test".into(), serde_json::Value::from(1));
    w.publish();
    {
        assert_eq!(w.len(), 1);
        let val = w.get(&"test".to_string()).unwrap();
        assert_eq!(val.as_u64().unwrap(), 1);
    }
}

#[test]
fn check_two_items() {
    let mut w = RwMap::<String, serde_json::Value>::default();
    w.publish();
    {
        assert!(w.is_empty());
    }
    w.insert("test1".into(), serde_json::Value::from(1));
    w.insert("test2".into(), serde_json::Value::from("2"));
    w.publish();
    {
        assert_eq!(w.len(), 2);
        let val = w.get(&"test1".to_string()).unwrap();
        assert_eq!(val.as_u64().unwrap(), 1);
        let val = w.get(&"test2".to_string()).unwrap();
        assert_eq!(val.as_str().unwrap(), "2");
    }
}

#[test]
fn delete_item() {
    let mut w = RwMap::<String, serde_json::Value>::default();
    w.publish();
    {
        assert!(w.is_empty());
    }
    w.insert("test1".into(), serde_json::Value::from(1));
    w.insert("test2".into(), serde_json::Value::from("2"));
    w.publish();
    {
        assert_eq!(w.len(), 2);
        let val = w.get(&"test1".to_string()).unwrap();
        assert_eq!(val.as_u64().unwrap(), 1);
        let val = w.get(&"test2".to_string()).unwrap();
        assert_eq!(val.as_str().unwrap(), "2");
    }
    w.remove("test2".to_owned());
    w.publish();
    {
        assert_eq!(w.len(), 1);
        let val = w.get(&"test2".to_string());
        assert!(val.is_none());
    }
}

#[test]
fn read_after_drop() {
    let x = ('x', 42);

    let mut w = RwMap::<char, (char, usize)>::default();
    w.insert(x.0, x);
    w.publish();
    assert!(w.get(&x.0).is_some());

    // tearing the writer side down makes the readers see an empty map
    w.destroy();
    assert!(w.get(&x.0).is_none());
}

#[test]
fn clone_types() {
    let x = b"xyz";

    let mut w = RwMap::<&[u8; 3], &[u8; 3]>::default();
    w.insert(&*x, x);
    w.publish();

    assert!(w.get(&&*x).is_some());

    assert_eq!(w.get(&&*x).map(|v| *v == x), Some(true));
}

#[test]
fn minimal_query() {
    let mut w = RwMap::<usize, &str>::default();
    w.insert(1, "a");
    w.publish();
    w.insert(1, "b");

    assert_eq!(w.get(&1).map(|rs| rs.len()), Some(1));
    assert!(w.get(&1).map(|rs| rs == &"a").unwrap());
}

#[test]
fn non_copy_values() {
    let mut w = RwMap::<usize, String>::default();
    w.insert(1, "a".to_string());
    assert_eq!(w.get(&1).map(|rs| rs.len()), None);

    w.publish();

    assert!(w.get(&1).is_some());
    assert!(w.get(&1).map(|rs| rs.as_str() == "a").unwrap());

    w.insert(1, "b".to_string());
    assert_eq!(w.get(&1).map(|rs| rs.len()), Some(1));
    assert!(w.get(&1).map(|rs| rs.as_str() == "a").unwrap());
}
