use tysondb::buffer::{FilterBuffer, InsertBuffer};
use tysondb::errors::DBError;
use tysondb::item::{Item, Primitive};
use tysondb::link::{Link, PathSeg, PathToValue};
use tysondb::storage::{FoundItem, FoundRootItem, Storage};
use tysondb::FETCH_DEPTH_LIMIT;

fn text(s: &str) -> Item {
    Item::Primitive(Primitive::StringPrimitive(s.to_string()))
}

fn num(n: i64) -> Item {
    Item::Primitive(Primitive::NumberPrimitive(n))
}

fn null() -> Item {
    Item::Primitive(Primitive::NullPrimitive)
}

fn link_item(l: &Link) -> Item {
    Item::Primitive(Primitive::Link(l.clone()))
}

fn sample_nested() -> Item {
    Item::Mapping(vec![
        ("name".to_string(), text("ada")),
        (
            "tags".to_string(),
            Item::Vector(vec![
                num(1),
                Item::Primitive(Primitive::BoolPrimitive(true)),
                Item::Mapping(vec![("inner".to_string(), null())]),
            ]),
        ),
    ])
}

#[test]
fn flatten_fetch_round_trip() {
    let storage = Storage::new();
    let mut buf = InsertBuffer::new(0);
    let v = sample_nested();
    let root = storage
        .insert_item("people".to_string(), &mut buf, v.dup())
        .unwrap();
    let fetched = storage.fetch(&root, &buf, 0).unwrap();
    assert_eq!(fetched, v);
}

#[test]
fn flattened_containers_hold_only_links() {
    let storage = Storage::new();
    let mut buf = InsertBuffer::new(0);
    let v = sample_nested();
    let root = storage
        .insert_item("people".to_string(), &mut buf, v)
        .unwrap();
    let root_link = match &root {
        Item::Primitive(Primitive::Link(l)) => l.clone(),
        _ => panic!("insert must return a link"),
    };
    let stored = buf.get(&root_link).unwrap();
    match stored {
        Item::Mapping(entries) => {
            for (_, value) in entries.iter() {
                assert!(matches!(value, Item::Primitive(Primitive::Link(_))));
            }
        }
        _ => panic!("stored root must be a mapping"),
    }
}

#[test]
fn depth_bound_chain_at_limit_succeeds() {
    let storage = Storage::new();
    let mut buf = InsertBuffer::new(0);
    let n: u64 = 5;
    for k in 0..n {
        let link = Link::create("c".to_string(), k);
        let value = if k + 1 < n {
            link_item(&Link::create("c".to_string(), k + 1))
        } else {
            null()
        };
        buf.insert(link, value);
    }
    let start = link_item(&Link::create("c".to_string(), 0));
    let fetched = storage.fetch(&start, &buf, 0).unwrap();
    assert_eq!(fetched, null());
}

#[test]
fn depth_bound_chain_above_limit_fails() {
    let storage = Storage::new();
    let mut buf = InsertBuffer::new(0);
    let n: u64 = FETCH_DEPTH_LIMIT + 8;
    for k in 0..n {
        let link = Link::create("c".to_string(), k);
        let value = if k + 1 < n {
            link_item(&Link::create("c".to_string(), k + 1))
        } else {
            null()
        };
        buf.insert(link, value);
    }
    let start = link_item(&Link::create("c".to_string(), 0));
    let r = storage.fetch(&start, &buf, 0);
    assert_eq!(r, Err(DBError::RecursionLimit));
}

#[test]
fn cyclic_chain_reports_recursion_limit() {
    let storage = Storage::new();
    let mut buf = InsertBuffer::new(0);
    let a = Link::create("c".to_string(), 0);
    let b = Link::create("c".to_string(), 1);
    buf.insert(a.clone(), link_item(&b));
    buf.insert(b, link_item(&a));
    let r = storage.fetch(&link_item(&a), &buf, 0);
    assert_eq!(r, Err(DBError::RecursionLimit));
}

#[test]
fn unknown_link_reads_as_null() {
    let storage = Storage::new();
    let buf = InsertBuffer::new(0);
    let ghostly = Link::create("internal".to_string(), 77);
    let r = storage.get_item_by_link(&ghostly, &buf, 0, None).unwrap();
    assert_eq!(r, null());
}

#[test]
fn missing_reference_inside_map_is_lenient() {
    let storage = Storage::new();
    let mut buf = InsertBuffer::new(100);
    let m = Link::create("internal".to_string(), 0);
    let dangling = Link::create("internal".to_string(), 55);
    buf.insert(
        m.clone(),
        Item::Mapping(vec![("a".to_string(), link_item(&dangling))]),
    );
    let fetched = storage.get_item_by_link(&m, &buf, 0, None).unwrap();
    assert_eq!(
        fetched,
        Item::Mapping(vec![("a".to_string(), null())])
    );
}

#[test]
fn path_navigation_reaches_nested_value() {
    let storage = Storage::new();
    let mut buf = InsertBuffer::new(0);
    let v = sample_nested();
    let root = storage
        .insert_item("people".to_string(), &mut buf, v)
        .unwrap();
    let root_link = match &root {
        Item::Primitive(Primitive::Link(l)) => l.clone(),
        _ => panic!("insert must return a link"),
    };
    let stored_root = buf.get(&root_link).unwrap().dup();
    let path = PathToValue::new(vec![
        PathSeg::Key("tags".to_string()),
        PathSeg::Index(0),
    ]);
    let found = storage
        .get_item_value_by_path(path, &stored_root, Some(&buf))
        .unwrap();
    assert_eq!(found, Some(num(1)));
}

#[test]
fn path_navigation_missing_key_is_none() {
    let storage = Storage::new();
    let mut buf = InsertBuffer::new(0);
    let v = sample_nested();
    let root = storage
        .insert_item("people".to_string(), &mut buf, v)
        .unwrap();
    let root_link = match &root {
        Item::Primitive(Primitive::Link(l)) => l.clone(),
        _ => panic!("insert must return a link"),
    };
    let stored_root = buf.get(&root_link).unwrap().dup();
    let path = PathToValue::new(vec![PathSeg::Key("absent".to_string())]);
    let found = storage
        .get_item_value_by_path(path, &stored_root, Some(&buf))
        .unwrap();
    assert_eq!(found, None);
}

#[test]
fn find_sub_item_records_container() {
    let storage = Storage::new();
    let mut buf = InsertBuffer::new(0);
    let v = sample_nested();
    let root = storage
        .insert_item("people".to_string(), &mut buf, v)
        .unwrap();
    let root_link = match &root {
        Item::Primitive(Primitive::Link(l)) => l.clone(),
        _ => panic!("insert must return a link"),
    };
    let path = PathToValue::new(vec![PathSeg::Key("name".to_string())]);
    let sub = storage
        .find_sub_item_by_path(path, root_link.clone(), &buf)
        .unwrap()
        .unwrap();
    assert!(sub.container_id.same_link(&root_link));
    assert!(matches!(sub.key, PathSeg::Key(ref k) if k == "name"));
    let prim = sub.get_primitive_or_none().unwrap();
    assert_eq!(Item::Primitive(prim), text("ada"));
}

#[test]
fn found_item_exposes_value() {
    let root = FoundItem::FoundRootItem(FoundRootItem {
        id: Link::create("t".to_string(), 1),
        value: num(9),
    });
    assert_eq!(root.get_value(), Some(num(9)));
}

#[test]
fn insert_rejects_tombstone() {
    let storage = Storage::new();
    let mut buf = InsertBuffer::new(0);
    let r = storage.insert_item(
        "t".to_string(),
        &mut buf,
        Item::Primitive(Primitive::DeletedPrimitive),
    );
    assert_eq!(r, Err(DBError::MalformedQuery));
}

#[test]
fn filter_buffer_starts_empty() {
    let f = FilterBuffer::new();
    assert_eq!(f.ids.len(), 0);
}

#[test]
fn deep_eq_distinguishes_values() {
    assert_ne!(sample_nested(), text("ada"));
    assert_ne!(
        Item::Vector(vec![num(1), num(2)]),
        Item::Vector(vec![num(2), num(1)])
    );
    assert_eq!(sample_nested(), sample_nested());
}
