use tysondb::buffer::InsertBuffer;
use tysondb::link::{PathSeg, PathToValue};
use tysondb::query::{SetOperator, SetTarget};
use tysondb::errors::DBError;
use tysondb::item::{Item, Primitive};
use tysondb::link::{Link, TrackPath};
use tysondb::ops::QueryOperation;
use tysondb::query::{
    DeleteQuery, FindQuery, GetQuery, InsertQuery, LimitQuery, OffsetQuery, ProjectQuery,
    QueryItem, QueryStep, SortQuery, Transaction, UpdateQuery,
};
use tysondb::response::QueryStatus;
use tysondb::storage::Storage;

fn text(s: &str) -> Item {
    Item::Primitive(Primitive::StringPrimitive(s.to_string()))
}

fn num(n: i64) -> Item {
    Item::Primitive(Primitive::NumberPrimitive(n))
}

fn step(name: &str, items: Vec<QueryItem>) -> QueryStep {
    QueryStep { collection_name: name.to_string(), items }
}

fn record(k: &str, v: Item) -> Item {
    Item::Mapping(vec![(k.to_string(), v)])
}

/// The links an insert response reports, in order.
fn response_links(data: &Item) -> Vec<Link> {
    let mut out = Vec::new();
    match data {
        Item::Vector(items) => {
            for it in items.iter() {
                match it {
                    Item::Primitive(Primitive::Link(l)) => out.push(l.clone()),
                    _ => panic!("insert response must hold links"),
                }
            }
        }
        _ => panic!("insert response must be a vector"),
    }
    out
}

/// The `(link, value)` rows of a fetched step response.
fn response_rows(data: &Item) -> Vec<(Link, Item)> {
    let mut out = Vec::new();
    match data {
        Item::Vector(rows) => {
            for row in rows.iter() {
                match row {
                    Item::Vector(pair) => {
                        assert_eq!(pair.len(), 2);
                        match &pair[0] {
                            Item::Primitive(Primitive::Link(l)) => {
                                out.push((l.clone(), pair[1].dup()))
                            }
                            _ => panic!("row must start with a link"),
                        }
                    }
                    _ => panic!("rows must be vectors"),
                }
            }
        }
        _ => panic!("step response must be a vector"),
    }
    out
}

#[test]
fn insert_then_update_is_unavailable() {
    let mut storage = Storage::new();
    let tx = Transaction {
        steps: vec![step(
            "t",
            vec![
                QueryItem::Insert(InsertQuery { items: vec![num(1)] }),
                QueryItem::Update(UpdateQuery { operators: vec![] }),
            ],
        )],
    };
    let r = storage.run_transaction(tx);
    assert_eq!(
        r.err().unwrap(),
        DBError::Unavailable(QueryOperation::UpdateOperation)
    );
}

#[test]
fn find_limit_offset_project_succeeds() {
    let mut storage = Storage::new();
    let mut project = ProjectQuery::new();
    project.insert(Primitive::StringPrimitive("a".to_string()), num(1));
    let tx = Transaction {
        steps: vec![step(
            "t",
            vec![
                QueryItem::Find(FindQuery { conditions: vec![] }),
                QueryItem::Limit(LimitQuery::new(num(10)).unwrap()),
                QueryItem::Offset(OffsetQuery::new(num(0)).unwrap()),
                QueryItem::Project(project),
            ],
        )],
    };
    let r = storage.run_transaction(tx);
    assert!(r.is_ok());
}

#[test]
fn insert_commits_and_fetches_back() {
    let mut storage = Storage::new();
    let tx = Transaction {
        steps: vec![step(
            "t",
            vec![QueryItem::Insert(InsertQuery {
                items: vec![record("a", num(7))],
            })],
        )],
    };
    let resp = storage.run_transaction(tx).unwrap();
    assert_eq!(resp.responses.len(), 1);
    assert_eq!(resp.responses[0].status, QueryStatus::Ready);
    let links = response_links(&resp.responses[0].data);
    assert_eq!(links.len(), 1);

    let tx2 = Transaction {
        steps: vec![step(
            "t",
            vec![QueryItem::Get(GetQuery { links: links.clone() })],
        )],
    };
    let resp2 = storage.run_transaction(tx2).unwrap();
    let rows = response_rows(&resp2.responses[0].data);
    assert_eq!(rows.len(), 1);
    assert_eq!(rows[0].1, record("a", num(7)));
}

#[test]
fn failing_second_step_leaves_storage_unchanged() {
    let mut storage = Storage::new();
    let seed = Transaction {
        steps: vec![step(
            "t",
            vec![QueryItem::Insert(InsertQuery {
                items: vec![record("a", num(1))],
            })],
        )],
    };
    storage.run_transaction(seed).unwrap();

    let names_before: Vec<String> = storage.warehouse.iter().map(|c| c.name.clone()).collect();
    let logs_before: Vec<usize> = storage.warehouse.iter().map(|c| c.records.len()).collect();
    let rows_before: Vec<usize> = storage.warehouse.iter().map(|c| c.values.len()).collect();

    let tx = Transaction {
        steps: vec![
            step(
                "t",
                vec![QueryItem::Insert(InsertQuery {
                    items: vec![record("b", num(2))],
                })],
            ),
            step(
                "t",
                vec![QueryItem::Update(UpdateQuery { operators: vec![] })],
            ),
        ],
    };
    let r = storage.run_transaction(tx);
    assert_eq!(
        r.err().unwrap(),
        DBError::Unavailable(QueryOperation::UpdateOperation)
    );

    let names_after: Vec<String> = storage.warehouse.iter().map(|c| c.name.clone()).collect();
    let logs_after: Vec<usize> = storage.warehouse.iter().map(|c| c.records.len()).collect();
    let rows_after: Vec<usize> = storage.warehouse.iter().map(|c| c.values.len()).collect();
    assert_eq!(names_before, names_after);
    assert_eq!(logs_before, logs_after);
    assert_eq!(rows_before, rows_after);
}

#[test]
fn commit_failure_leaves_storage_unchanged() {
    let mut storage = Storage::new();
    let mut buf = InsertBuffer::new(0);
    // A container committed with a non-link element violates the flattening
    // invariant and must fail without touching the warehouse.
    let m = Link::create("t".to_string(), 0);
    buf.insert(
        m,
        Item::Mapping(vec![("a".to_string(), num(1))]),
    );
    let names_before: Vec<String> = storage.warehouse.iter().map(|c| c.name.clone()).collect();
    let r = storage.sync_buf(&buf);
    assert_eq!(r, Err(DBError::InternalConsistency));
    let names_after: Vec<String> = storage.warehouse.iter().map(|c| c.name.clone()).collect();
    assert_eq!(names_before, names_after);
}

#[test]
fn back_track_recorded_and_retracted() {
    let mut storage = Storage::new();
    let x = Link::create("t".to_string(), 0);
    let m = Link::create("t".to_string(), 1);

    let mut buf = InsertBuffer::new(2);
    buf.insert(x.clone(), num(5));
    buf.insert(
        m.clone(),
        Item::Mapping(vec![(
            "a".to_string(),
            Item::Primitive(Primitive::Link(x.clone())),
        )]),
    );
    storage.sync_buf(&buf).unwrap();

    let collection = storage.get_collection("t".to_string()).unwrap();
    let row = collection.row_get(&x).unwrap();
    let mut found_key: Option<String> = None;
    for (from, path) in row.back_track.iter() {
        if from.same_link(&m) {
            match path {
                TrackPath::AtKey(k) => found_key = Some(k.clone()),
                _ => panic!("a map reference must be recorded under its key"),
            }
        }
    }
    assert_eq!(found_key, Some("a".to_string()));

    let mut buf2 = InsertBuffer::new(2);
    buf2.insert(m.clone(), Item::Primitive(Primitive::DeletedPrimitive));
    storage.sync_buf(&buf2).unwrap();

    let collection = storage.get_collection("t".to_string()).unwrap();
    assert!(collection.row_get(&m).is_none());
    let row = collection.row_get(&x).unwrap();
    for (from, _) in row.back_track.iter() {
        assert!(!from.same_link(&m));
    }
}

#[test]
fn delete_first_drops_collection() {
    let mut storage = Storage::new();
    let seed = Transaction {
        steps: vec![step(
            "t",
            vec![QueryItem::Insert(InsertQuery {
                items: vec![record("a", num(1))],
            })],
        )],
    };
    storage.run_transaction(seed).unwrap();
    assert!(storage.get_collection("t".to_string()).is_some());

    let tx = Transaction {
        steps: vec![step("t", vec![QueryItem::Delete(DeleteQuery {})])],
    };
    storage.run_transaction(tx).unwrap();
    assert!(storage.get_collection("t".to_string()).is_none());
}

#[test]
fn later_delete_tombstones_matched_items() {
    let mut storage = Storage::new();
    let seed = Transaction {
        steps: vec![step(
            "t",
            vec![QueryItem::Insert(InsertQuery {
                items: vec![record("a", num(1))],
            })],
        )],
    };
    let resp = storage.run_transaction(seed).unwrap();
    let links = response_links(&resp.responses[0].data);

    let tx = Transaction {
        steps: vec![step(
            "t",
            vec![
                QueryItem::Get(GetQuery { links: links.clone() }),
                QueryItem::Delete(DeleteQuery {}),
            ],
        )],
    };
    storage.run_transaction(tx).unwrap();

    // The collection survives; the matched item's row is purged.
    let collection = storage.get_collection("t".to_string()).unwrap();
    assert!(collection.row_get(&links[0]).is_none());
}

#[test]
fn find_matches_by_key_value() {
    let mut storage = Storage::new();
    let seed = Transaction {
        steps: vec![step(
            "t",
            vec![QueryItem::Insert(InsertQuery {
                items: vec![record("a", num(1)), record("a", num(2))],
            })],
        )],
    };
    storage.run_transaction(seed).unwrap();

    let tx = Transaction {
        steps: vec![step(
            "t",
            vec![QueryItem::Find(FindQuery {
                conditions: vec![("a".to_string(), Primitive::NumberPrimitive(2))],
            })],
        )],
    };
    let resp = storage.run_transaction(tx).unwrap();
    let rows = response_rows(&resp.responses[0].data);
    assert_eq!(rows.len(), 1);
    assert_eq!(rows[0].1, record("a", num(2)));
}

#[test]
fn sort_orders_by_numeric_key() {
    let mut storage = Storage::new();
    let seed = Transaction {
        steps: vec![step(
            "t",
            vec![QueryItem::Insert(InsertQuery {
                items: vec![record("k", num(3)), record("k", num(1)), record("k", num(2))],
            })],
        )],
    };
    storage.run_transaction(seed).unwrap();

    let tx = Transaction {
        steps: vec![step(
            "t",
            vec![
                QueryItem::Find(FindQuery { conditions: vec![] }),
                QueryItem::Sort(SortQuery { key: "k".to_string(), ascending: true }),
            ],
        )],
    };
    let resp = storage.run_transaction(tx).unwrap();
    let rows = response_rows(&resp.responses[0].data);
    let keys: Vec<Item> = rows.iter().map(|r| r.1.dup()).collect();
    assert_eq!(
        keys,
        vec![record("k", num(1)), record("k", num(2)), record("k", num(3))]
    );
}

#[test]
fn limit_and_offset_narrow_the_working_set() {
    let mut storage = Storage::new();
    let seed = Transaction {
        steps: vec![step(
            "t",
            vec![QueryItem::Insert(InsertQuery {
                items: vec![record("k", num(1)), record("k", num(2)), record("k", num(3))],
            })],
        )],
    };
    storage.run_transaction(seed).unwrap();

    let tx = Transaction {
        steps: vec![step(
            "t",
            vec![
                QueryItem::Find(FindQuery { conditions: vec![] }),
                QueryItem::Limit(LimitQuery::new(num(2)).unwrap()),
                QueryItem::Offset(OffsetQuery::new(num(1)).unwrap()),
            ],
        )],
    };
    let resp = storage.run_transaction(tx).unwrap();
    let rows = response_rows(&resp.responses[0].data);
    assert_eq!(rows.len(), 1);
}

#[test]
fn projection_resolves_requested_keys_only() {
    let mut storage = Storage::new();
    let seed = Transaction {
        steps: vec![step(
            "t",
            vec![QueryItem::Insert(InsertQuery {
                items: vec![Item::Mapping(vec![
                    ("a".to_string(), num(1)),
                    ("b".to_string(), num(2)),
                ])],
            })],
        )],
    };
    let resp = storage.run_transaction(seed).unwrap();
    let links = response_links(&resp.responses[0].data);

    let mut project = ProjectQuery::new();
    project.insert(Primitive::StringPrimitive("a".to_string()), num(1));
    let tx = Transaction {
        steps: vec![step(
            "t",
            vec![
                QueryItem::Get(GetQuery { links }),
                QueryItem::Project(project),
            ],
        )],
    };
    let resp2 = storage.run_transaction(tx).unwrap();
    let rows = response_rows(&resp2.responses[0].data);
    assert_eq!(rows.len(), 1);
    assert_eq!(rows[0].1, record("a", num(1)));
}

#[test]
fn update_rewrites_nested_value() {
    let mut storage = Storage::new();
    let seed = Transaction {
        steps: vec![step(
            "t",
            vec![QueryItem::Insert(InsertQuery {
                items: vec![record("a", num(1))],
            })],
        )],
    };
    let resp = storage.run_transaction(seed).unwrap();
    let links = response_links(&resp.responses[0].data);

    let tx = Transaction {
        steps: vec![step(
            "t",
            vec![
                QueryItem::Get(GetQuery { links: links.clone() }),
                QueryItem::Update(UpdateQuery {
                    operators: vec![SetOperator {
                        values: vec![(
                            SetTarget::PathTarget(PathToValue::new(vec![PathSeg::Key(
                                "a".to_string(),
                            )])),
                            num(9),
                        )],
                    }],
                }),
            ],
        )],
    };
    let resp2 = storage.run_transaction(tx).unwrap();
    let rows = response_rows(&resp2.responses[0].data);
    assert_eq!(rows[0].1, record("a", num(9)));
}

#[test]
fn update_of_unresolved_path_reports_error() {
    let mut storage = Storage::new();
    let ghostly = Link::create("internal".to_string(), 123);
    let tx = Transaction {
        steps: vec![step(
            "t",
            vec![
                QueryItem::Get(GetQuery { links: vec![ghostly] }),
                QueryItem::Update(UpdateQuery {
                    operators: vec![SetOperator {
                        values: vec![(
                            SetTarget::PathTarget(PathToValue::new(vec![PathSeg::Key(
                                "a".to_string(),
                            )])),
                            num(9),
                        )],
                    }],
                }),
            ],
        )],
    };
    let r = storage.run_transaction(tx);
    assert_eq!(r.err().unwrap(), DBError::UnresolvedReference);
}

#[test]
fn malformed_insert_aborts_transaction() {
    let mut storage = Storage::new();
    let tx = Transaction {
        steps: vec![step(
            "t",
            vec![QueryItem::Insert(InsertQuery {
                items: vec![Item::Primitive(Primitive::DeletedPrimitive)],
            })],
        )],
    };
    let r = storage.run_transaction(tx);
    assert_eq!(r.err().unwrap(), DBError::MalformedQuery);
}

#[test]
fn limit_rejects_non_number() {
    let r = LimitQuery::new(text("three"));
    assert!(matches!(r, Err(DBError::MalformedQuery)));
}

#[test]
fn project_rules_reject_non_string_keys() {
    let mut project = ProjectQuery::new();
    project.insert(Primitive::NumberPrimitive(3), num(1));
    assert!(matches!(project.make_rules(), Err(DBError::MalformedQuery)));
}

#[test]
fn limit_next_available_gates_offset() {
    let q = LimitQuery::new(num(1)).unwrap();
    let next = q.next_available();
    assert!(next.contains(&QueryOperation::LimitOperation));
    assert!(next.contains(&QueryOperation::OffsetOperation));
    assert!(next.contains(&QueryOperation::ProjectOperation));
    assert!(!next.contains(&QueryOperation::InsertOperation));
}

#[test]
fn project_next_available_is_empty() {
    let q = ProjectQuery::new();
    assert!(q.next_available().is_empty());
}

#[test]
fn index_opens_a_step_and_has_no_effect() {
    // The initial permitted set includes the index operation; the item is
    // accepted and resolves nothing.
    let mut storage = Storage::new();
    let tx = Transaction {
        steps: vec![step(
            "t",
            vec![QueryItem::Index(tysondb::query::IndexQuery { values: vec![] })],
        )],
    };
    let resp = storage.run_transaction(tx).unwrap();
    assert_eq!(response_rows(&resp.responses[0].data).len(), 0);

    // Outside a permitted position it is rejected like any other operation.
    let mut storage2 = Storage::new();
    let tx2 = Transaction {
        steps: vec![step(
            "t",
            vec![
                QueryItem::Find(FindQuery { conditions: vec![] }),
                QueryItem::Index(tysondb::query::IndexQuery { values: vec![] }),
            ],
        )],
    };
    let r = storage2.run_transaction(tx2);
    assert_eq!(
        r.err().unwrap(),
        DBError::Unavailable(QueryOperation::IndexOperation)
    );
}

#[test]
fn restore_rebuilds_the_warehouse_from_its_logs() {
    let mut storage = Storage::new();
    let seed = Transaction {
        steps: vec![step(
            "t",
            vec![QueryItem::Insert(InsertQuery {
                items: vec![record("a", num(4)), record("a", num(5))],
            })],
        )],
    };
    let resp = storage.run_transaction(seed).unwrap();
    let links = response_links(&resp.responses[0].data);

    // Hand the persisted logs back: one (name, records) pair per collection.
    let mut files: Vec<(String, Vec<(Link, Item)>)> = Vec::new();
    for collection in storage.warehouse.iter() {
        let mut records: Vec<(Link, Item)> = Vec::new();
        for (link, item) in collection.records.iter() {
            records.push((link.clone(), item.dup()));
        }
        files.push((collection.name.clone(), records));
    }

    let mut reopened = Storage::restore(files).unwrap();
    assert!(reopened.next_id > links[1].id);

    let tx = Transaction {
        steps: vec![step(
            "t",
            vec![QueryItem::Get(GetQuery { links: links.clone() })],
        )],
    };
    let resp2 = reopened.run_transaction(tx).unwrap();
    let rows = response_rows(&resp2.responses[0].data);
    assert_eq!(rows.len(), 2);
    assert_eq!(rows[0].1, record("a", num(4)));
    assert_eq!(rows[1].1, record("a", num(5)));
}

#[test]
fn restore_compacts_to_the_latest_record_per_link() {
    let x = Link::create("t".to_string(), 0);
    let files = vec![(
        "t".to_string(),
        vec![(x.clone(), num(1)), (x.clone(), num(2))],
    )];
    let storage = Storage::restore(files).unwrap();
    let collection = storage.get_collection("t".to_string()).unwrap();
    let row = collection.row_get(&x).unwrap();
    assert_eq!(row.item, num(2));
    assert_eq!(storage.next_id, 1);
}
