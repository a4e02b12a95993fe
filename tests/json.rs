use tjson::json::{from_number, get_cell, pointer, resolve_all, EntityResult, Json, JsonEntity, JsonValue};

fn status_doc() -> Json {
    Json::Object(vec![(
        "status".to_string(),
        Json::Object(vec![
            ("state".to_string(), Json::Str("running".to_string())),
            ("done".to_string(), Json::Int(1234)),
            ("float".to_string(), Json::Float(3.14f64.to_bits())),
            ("negafloat".to_string(), Json::Float((-3.14f64).to_bits())),
            ("negative".to_string(), Json::Int(-123)),
        ]),
    )])
}

fn entity(title: &str, value: JsonValue) -> JsonEntity {
    JsonEntity { title: title.to_string(), value }
}

#[test]
fn parse_str() {
    let jo = status_doc();
    let str = get_cell(&jo, "/status/state");
    assert_eq!(
        str,
        Some(EntityResult::Entity(JsonEntity {
            title: String::from("state"),
            value: JsonValue::Text("running".to_string())
        }))
    );
}

#[test]
fn parse_posint() {
    let jo = status_doc();
    let posint = get_cell(&jo, "/status/done");
    assert_eq!(
        posint,
        Some(EntityResult::Entity(JsonEntity {
            title: String::from("done"),
            value: JsonValue::PosInt(1234)
        }))
    );
}

#[test]
fn parse_float() {
    let jo = status_doc();
    let floatpos = get_cell(&jo, "/status/float");
    assert_eq!(
        floatpos,
        Some(EntityResult::Entity(JsonEntity {
            title: String::from("float"),
            value: JsonValue::Float(3.14f64.to_bits())
        }))
    );
}

#[test]
fn parse_negfloat() {
    let jo = status_doc();
    let negafloat = get_cell(&jo, "/status/negafloat");
    assert_eq!(
        negafloat,
        Some(EntityResult::Entity(JsonEntity {
            title: String::from("negafloat"),
            value: JsonValue::Float((-3.14f64).to_bits())
        }))
    );
}

#[test]
fn parse_negative() {
    let jo = status_doc();
    let negative = get_cell(&jo, "/status/negative");
    assert_eq!(
        negative,
        Some(EntityResult::Entity(JsonEntity {
            title: String::from("negative"),
            value: JsonValue::PosInt(-123)
        }))
    );
}

#[test]
fn object_flattens_in_key_order() {
    let jo = status_doc();
    assert_eq!(
        get_cell(&jo, "/status"),
        Some(EntityResult::Entities(vec![
            entity("state", JsonValue::Text("running".to_string())),
            entity("done", JsonValue::PosInt(1234)),
            entity("float", JsonValue::Float(3.14f64.to_bits())),
            entity("negafloat", JsonValue::Float((-3.14f64).to_bits())),
            entity("negative", JsonValue::PosInt(-123)),
        ]))
    );
}

#[test]
fn missing_path_is_no_match() {
    let jo = status_doc();
    assert_eq!(get_cell(&jo, "/missing/path"), None);
    assert_eq!(get_cell(&jo, "/status/state/deeper"), None);
    assert!(resolve_all(&jo, &vec!["/missing/path".to_string()]).is_empty());
}

#[test]
fn flattening_drops_null_and_containers() {
    let jo = Json::Object(vec![(
        "o".to_string(),
        Json::Object(vec![
            ("a".to_string(), Json::Null),
            ("b".to_string(), Json::Bool(true)),
            ("c".to_string(), Json::Array(vec![Json::Int(1)])),
            ("d".to_string(), Json::Object(vec![("x".to_string(), Json::Int(2))])),
            ("e".to_string(), Json::Int(7)),
        ]),
    )]);
    assert_eq!(
        get_cell(&jo, "/o"),
        Some(EntityResult::Entities(vec![
            entity("b", JsonValue::Boolean(true)),
            entity("e", JsonValue::PosInt(7)),
        ]))
    );
    assert_eq!(get_cell(&jo, "/o/d"), Some(EntityResult::Entities(vec![entity("x", JsonValue::PosInt(2))])));
}

#[test]
fn scalar_null_is_a_field() {
    let jo = Json::Object(vec![("a".to_string(), Json::Null)]);
    assert_eq!(get_cell(&jo, "/a"), Some(EntityResult::Entity(entity("a", JsonValue::Null))));
}

#[test]
fn empty_object_yields_no_fields() {
    let jo = Json::Object(vec![("o".to_string(), Json::Object(vec![]))]);
    assert_eq!(get_cell(&jo, "/o"), Some(EntityResult::Entities(vec![])));
}

#[test]
fn array_is_no_match_but_can_be_walked() {
    let jo = Json::Object(vec![(
        "list".to_string(),
        Json::Array(vec![Json::Int(10), Json::Str("x".to_string())]),
    )]);
    assert_eq!(get_cell(&jo, "/list"), None);
    assert_eq!(get_cell(&jo, "/list/1"), Some(EntityResult::Entity(entity("1", JsonValue::Text("x".to_string())))));
    assert_eq!(get_cell(&jo, "/list/0"), Some(EntityResult::Entity(entity("0", JsonValue::PosInt(10)))));
    assert_eq!(get_cell(&jo, "/list/2"), None);
    assert_eq!(get_cell(&jo, "/list/01"), None);
    assert_eq!(get_cell(&jo, "/list/+1"), None);
    assert_eq!(get_cell(&jo, "/list/-"), None);
}

#[test]
fn escaped_tokens_are_decoded() {
    let jo = Json::Object(vec![
        ("a/b".to_string(), Json::Int(1)),
        ("m~n".to_string(), Json::Int(2)),
        ("~1".to_string(), Json::Int(3)),
    ]);
    assert_eq!(get_cell(&jo, "/a~1b"), Some(EntityResult::Entity(entity("a~1b", JsonValue::PosInt(1)))));
    assert_eq!(get_cell(&jo, "/m~0n"), Some(EntityResult::Entity(entity("m~0n", JsonValue::PosInt(2)))));
    assert_eq!(get_cell(&jo, "/~01"), Some(EntityResult::Entity(entity("~01", JsonValue::PosInt(3)))));
    assert_eq!(get_cell(&jo, "/a/b"), None);
}

#[test]
fn pointer_without_leading_slash_is_no_match() {
    let jo = status_doc();
    assert_eq!(get_cell(&jo, "status"), None);
    assert!(pointer(&jo, "status/state").is_none());
}

#[test]
fn empty_pointer_is_no_match() {
    assert_eq!(get_cell(&Json::Int(5), ""), None);
    assert_eq!(get_cell(&status_doc(), ""), None);
    assert!(pointer(&Json::Int(5), "").is_some());
}

#[test]
fn trailing_slash_is_no_match() {
    let jo = Json::Object(vec![("".to_string(), Json::Bool(false))]);
    assert_eq!(get_cell(&jo, "/"), None);
    assert_eq!(get_cell(&status_doc(), "/status/"), None);
    assert!(pointer(&jo, "/").is_some());
}

#[test]
fn numbers_are_classified() {
    assert!(matches!(from_number(Some(-123), 0), Json::Int(-123)));
    let bits = 3.14f64.to_bits();
    assert!(matches!(from_number(None, bits), Json::Float(b) if b == bits));
    let big = (u64::MAX as f64).to_bits();
    assert!(matches!(from_number(None, big), Json::Float(b) if b == big));
}

#[test]
fn integer_extremes_keep_their_value() {
    let jo = Json::Object(vec![
        ("min".to_string(), Json::Int(i64::MIN)),
        ("max".to_string(), Json::Int(i64::MAX)),
    ]);
    assert_eq!(get_cell(&jo, "/min"), Some(EntityResult::Entity(entity("min", JsonValue::PosInt(i64::MIN)))));
    assert_eq!(get_cell(&jo, "/max"), Some(EntityResult::Entity(entity("max", JsonValue::PosInt(i64::MAX)))));
}

#[test]
fn resolving_twice_gives_the_same_outcome() {
    let jo = status_doc();
    assert_eq!(get_cell(&jo, "/status"), get_cell(&jo, "/status"));
    assert_eq!(get_cell(&jo, "/status/done"), get_cell(&jo, "/status/done"));
}

#[test]
fn resolve_all_keeps_pointer_order() {
    let jo = status_doc();
    let fields = resolve_all(
        &jo,
        &vec!["/status/negative".to_string(), "/missing".to_string(), "/status/state".to_string()],
    );
    assert_eq!(
        fields,
        vec![
            entity("negative", JsonValue::PosInt(-123)),
            entity("state", JsonValue::Text("running".to_string())),
        ]
    );
    let both = resolve_all(&jo, &vec!["/status/done".to_string(), "/status".to_string()]);
    assert_eq!(both.len(), 6);
    assert_eq!(both[0], entity("done", JsonValue::PosInt(1234)));
    assert_eq!(both[1], entity("state", JsonValue::Text("running".to_string())));
    assert!(resolve_all(&jo, &vec![]).is_empty());
}

fn from_serde(v: &serde_json::Value) -> Json {
    match v {
        serde_json::Value::Null => Json::Null,
        serde_json::Value::Bool(b) => Json::Bool(*b),
        serde_json::Value::Number(n) => from_number(n.as_i64(), n.as_f64().unwrap().to_bits()),
        serde_json::Value::String(s) => Json::Str(s.clone()),
        serde_json::Value::Array(items) => Json::Array(items.iter().map(from_serde).collect()),
        serde_json::Value::Object(map) => {
            Json::Object(map.iter().map(|(k, v)| (k.clone(), from_serde(v))).collect())
        }
    }
}

#[test]
fn document_from_json_text() {
    let text = "{ \"status\": { \"state\": \"running\", \"done\": 1234, \"float\": 3.14, \"negafloat\": -3.14, \"negative\": -123 } }";
    let value: serde_json::Value = serde_json::from_str(text).unwrap();
    let jo = from_serde(&value);
    assert_eq!(get_cell(&jo, "/status/done"), Some(EntityResult::Entity(entity("done", JsonValue::PosInt(1234)))));
    assert_eq!(
        get_cell(&jo, "/status/negafloat"),
        Some(EntityResult::Entity(entity("negafloat", JsonValue::Float((-3.14f64).to_bits()))))
    );
    match get_cell(&jo, "/status") {
        Some(EntityResult::Entities(v)) => {
            let titles: Vec<&str> = v.iter().map(|e| e.title.as_str()).collect();
            assert_eq!(titles, vec!["state", "done", "float", "negafloat", "negative"]);
        }
        other => panic!("unexpected {:?}", other),
    }
}
