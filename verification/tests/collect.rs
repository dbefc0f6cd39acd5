use covdir::{Json, JsonNumber, KeyValueVec, KeyValueVisitor, Node, SyntaxError};

fn pairs(items: &[(&str, u8)]) -> Vec<(String, u8)> {
    items.iter().map(|(key, value)| (key.to_string(), *value)).collect()
}

#[test]
fn a_new_visitor_holds_nothing() {
    let visitor: KeyValueVisitor<String, u8> = KeyValueVisitor::new();
    assert!(visitor.items.is_empty());
}

#[test]
fn a_visitor_keeps_the_order_of_its_entries() {
    let mut visitor: KeyValueVisitor<String, u8> = KeyValueVisitor::new();
    visitor.visit_entry("b".to_string(), 1);
    visitor.visit_entry("a".to_string(), 2);
    visitor.visit_entry("c".to_string(), 3);
    assert_eq!(visitor.items, pairs(&[("b", 1), ("a", 2), ("c", 3)]));
}

#[test]
fn a_visitor_keeps_a_key_where_it_first_came() {
    let mut visitor: KeyValueVisitor<String, u8> = KeyValueVisitor::new();
    visitor.visit_entry("b".to_string(), 1);
    visitor.visit_entry("a".to_string(), 2);
    visitor.visit_entry("b".to_string(), 3);
    visitor.visit_entry("".to_string(), 4);
    visitor.visit_entry("a".to_string(), 5);
    assert_eq!(visitor.items, pairs(&[("b", 3), ("a", 5), ("", 4)]));
}

#[test]
fn visit_map_collects_a_whole_object() {
    let visitor: KeyValueVisitor<String, u8> = KeyValueVisitor::new();
    let collected = visitor.visit_map(pairs(&[("x", 1), ("y", 2), ("x", 3), ("z", 4)]));
    assert_eq!(collected.0, pairs(&[("x", 3), ("y", 2), ("z", 4)]));
}

#[test]
fn visit_map_goes_on_from_what_was_seen() {
    let mut visitor: KeyValueVisitor<String, u8> = KeyValueVisitor::new();
    visitor.visit_entry("y".to_string(), 0);
    let collected = visitor.visit_map(pairs(&[("x", 1), ("y", 2)]));
    assert_eq!(collected.0, pairs(&[("y", 2), ("x", 1)]));
}

#[test]
fn collected_entries_turn_into_a_vec() {
    let items: Vec<(String, u8)> = KeyValueVec(pairs(&[("k", 1), ("j", 2)])).into();
    assert_eq!(items, pairs(&[("k", 1), ("j", 2)]));
    let items = Vec::from(KeyValueVec(pairs(&[("only", 9)])));
    assert_eq!(items, pairs(&[("only", 9)]));
}

#[test]
fn json_reads_every_kind_of_value() {
    let doc = Json::from_slice(
        r#"{"n":null,"t":true,"f":false,"s":"a\u00e9\n","a":[1,[2]],"o":{}}"#.as_bytes(),
    );
    assert_eq!(
        doc,
        Ok(Json::Object(vec![
            ("n".to_string(), Json::Null),
            ("t".to_string(), Json::Bool(true)),
            ("f".to_string(), Json::Bool(false)),
            ("s".to_string(), Json::Text("a\u{e9}\n".to_string())),
            (
                "a".to_string(),
                Json::Array(vec![
                    Json::Number(JsonNumber { unsigned: Some(1), text: "1".to_string() }),
                    Json::Array(vec![Json::Number(JsonNumber {
                        unsigned: Some(2),
                        text: "2".to_string()
                    })]),
                ])
            ),
            ("o".to_string(), Json::Object(Vec::new())),
        ]))
    );
}

#[test]
fn json_reads_numbers_by_their_kind() {
    let number = |text: &str| match Json::from_slice(text.as_bytes()) {
        Ok(Json::Number(number)) => (number.unsigned, number.text),
        other => panic!("expected a number, got {:?}", other),
    };
    assert_eq!(number("0"), (Some(0), "0".to_string()));
    assert_eq!(number("46"), (Some(46), "46".to_string()));
    assert_eq!(number("18446744073709551615"), (Some(u64::MAX), "18446744073709551615".to_string()));
    assert_eq!(number("-7"), (None, "-7".to_string()));
    assert_eq!(number("12.34"), (None, "12.34".to_string()));
    assert_eq!(number("12.340"), (None, "12.34".to_string()));
    assert_eq!(number("1.234e1"), (None, "12.34".to_string()));
    assert_eq!(number("46.0"), (None, "46.0".to_string()));
}

#[test]
fn json_keeps_the_members_of_an_object_in_order() {
    let doc = Json::from_slice(br#"{"b":1,"c":2,"a":3,"b":4}"#);
    let keys: Vec<(String, Option<u64>)> = match doc {
        Ok(Json::Object(members)) => members
            .into_iter()
            .map(|(key, value)| match value {
                Json::Number(number) => (key, number.unsigned),
                _ => (key, None),
            })
            .collect(),
        other => panic!("expected an object, got {:?}", other),
    };
    assert_eq!(
        keys,
        vec![("b".to_string(), Some(4)), ("c".to_string(), Some(2)), ("a".to_string(), Some(3))]
    );
}

#[test]
fn json_tells_where_reading_stopped() {
    assert_eq!(Json::from_slice(b"[1, 2"), Err(SyntaxError { line: 1, column: 5 }));
    assert_eq!(Json::from_slice(b"[1,\n 2,\n x]"), Err(SyntaxError { line: 3, column: 2 }));
    assert_eq!(Json::from_slice(b"1 2"), Err(SyntaxError { line: 1, column: 3 }));
}

#[test]
fn a_written_tree_reads_back_in_its_order() {
    fn object(name: &str, children: Vec<(&str, serde_json::Value)>) -> serde_json::Value {
        let mut members = serde_json::Map::new();
        members.insert("name".to_string(), serde_json::Value::from(name));
        members.insert("linesCovered".to_string(), serde_json::Value::from(3u64));
        members.insert("linesMissed".to_string(), serde_json::Value::from(1u64));
        members.insert("linesTotal".to_string(), serde_json::Value::from(4u64));
        members.insert("coveragePercent".to_string(), serde_json::Value::from(75.0));
        let mut kids = serde_json::Map::new();
        for (key, child) in children {
            kids.insert(key.to_string(), child);
        }
        members.insert("children".to_string(), serde_json::Value::Object(kids));
        serde_json::Value::Object(members)
    }
    let orders: [[&str; 4]; 3] =
        [["d", "a", "c", "b"], ["a", "b", "c", "d"], ["b", "d", "a", "c"]];
    for order in orders {
        let inner = object("in", order.iter().rev().map(|key| (*key, object(key, Vec::new()))).collect());
        let mut children: Vec<(&str, serde_json::Value)> =
            order.iter().map(|key| (*key, object(key, Vec::new()))).collect();
        children.push(("inner", inner));
        let written = serde_json::to_vec(&object("", children)).unwrap_or_default();

        let root = Node::from_slice(&written).unwrap_or_else(|e| panic!("{}", e.message()));
        let keys: Vec<&str> = root.children.iter().map(|child| child.0.as_str()).collect();
        let mut expected: Vec<&str> = order.to_vec();
        expected.push("inner");
        assert_eq!(keys, expected);
        let names: Vec<&str> = root.children.iter().map(|child| child.1.name.as_str()).collect();
        assert_eq!(names[..4], order[..]);
        let inner = &root.children[4].1;
        let inner_keys: Vec<&str> = inner.children.iter().map(|child| child.0.as_str()).collect();
        let reversed: Vec<&str> = order.iter().rev().copied().collect();
        assert_eq!(inner_keys, reversed);
    }
}
