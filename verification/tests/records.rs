use serde_json::Value;
use still::ast::{Aggregation, Comparison, SearchTerm, Sort, Transform};
use still::count::count_by;
use still::json::{Json, Numeral};
use still::order::sort_descending;
use still::path::pointer_for;
use still::pattern::Pattern;
use still::plan::{run_stages, survives, LineStage, RecordStage};
use still::stage::{bind_groups, extract, keeps};

fn json(text: &str) -> Json {
    Json::decode(text).unwrap()
}

fn value(text: &str) -> Value {
    serde_json::from_str(text).unwrap()
}

fn to_value(json: &Json) -> Value {
    value(&json.encode())
}

fn text(s: &str) -> Json {
    Json::Text(s.to_string())
}

fn names(list: &[&str]) -> Vec<String> {
    list.iter().map(|s| s.to_string()).collect()
}

#[test]
fn decode_reads_every_kind_of_value() {
    assert_eq!(Json::Null, json("null"));
    assert_eq!(Json::Bool(true), json(" true "));
    assert_eq!(Json::Number(Numeral::PosInt(42)), json("42"));
    assert_eq!(Json::Number(Numeral::PosInt(u64::MAX)), json("18446744073709551615"));
    assert_eq!(Json::Number(Numeral::NegInt(-7)), json("-7"));
    assert_eq!(Json::Number(Numeral::Float("2.5".to_string())), json("2.5"));
    assert_eq!(text("a\"b"), json(r#""a\"b""#));
    assert_eq!(Json::Array(vec![Json::Number(Numeral::PosInt(1)), Json::Null]), json("[1, null]"));
    assert_eq!(
        Json::Object(vec![
            ("a".to_string(), Json::Number(Numeral::PosInt(1))),
            ("b".to_string(), Json::Object(vec![("c".to_string(), text("d"))])),
        ]),
        json(r#"{"b": {"c": "d"}, "a": 1}"#)
    );
    assert_eq!(None, Json::decode(""));
    assert_eq!(None, Json::decode("{"));
    assert_eq!(None, Json::decode("1 2"));
    assert_eq!(None, Json::decode("{'a': 1}"));
}

#[test]
fn a_repeated_key_keeps_its_last_value() {
    let record = json(r#"{"a": 1, "a": 2}"#);
    assert_eq!(Some(&Json::Number(Numeral::PosInt(2))), record.get("a"));
    let by_hand =
        Json::Object(vec![("a".to_string(), text("old")), ("a".to_string(), text("new"))]);
    assert_eq!(Some(&text("new")), by_hand.get("a"));
    assert_eq!(value(r#"{"a":"new"}"#), to_value(&by_hand));
}

#[test]
fn encode_writes_compact_json_with_sorted_keys() {
    let record = Json::Object(vec![
        ("b".to_string(), Json::Array(vec![Json::Null, Json::Bool(false)])),
        ("a".to_string(), Json::Number(Numeral::Float("1.5e300".to_string()))),
        ("c".to_string(), Json::Number(Numeral::NegInt(-3))),
    ]);
    assert_eq!(r#"{"a":1.5e+300,"b":[null,false],"c":-3}"#, record.encode());
    assert_eq!(Json::Number(Numeral::Float("1.5e+300".to_string())), json("1.5e300"));
    assert_eq!("null", Json::Number(Numeral::Float("not a number".to_string())).encode());
    assert_eq!(r#""x\ny""#, text("x\ny").encode());
    let line = r#"{"k":[1,-2,3.25,"s",true,null,{"n":{}}]}"#;
    assert_eq!(line, json(line).encode());
}

#[test]
fn get_and_as_text_read_the_top_level() {
    let record = json(r#"{"stream": "stdout", "n": 3, "nested": {"stream": "inner"}}"#);
    assert_eq!(Some("stdout"), record.get("stream").and_then(|v| v.as_text()));
    assert_eq!(None, record.get("n").and_then(|v| v.as_text()));
    assert_eq!(None, record.get("missing"));
    assert_eq!(None, record.get("nested.stream"));
    assert_eq!(None, json("[1]").get("0"));
    assert_eq!(None, text("x").get("x"));
}

#[test]
fn with_member_adds_and_replaces() {
    let record = json(r#"{"a": 1, "b": 2}"#);
    let record = record.with_member("c".to_string(), text("new"));
    assert_eq!(value(r#"{"a":1,"b":2,"c":"new"}"#), to_value(&record));
    let record = record.with_member("a".to_string(), Json::Null);
    assert_eq!(value(r#"{"a":null,"b":2,"c":"new"}"#), to_value(&record));
    assert_eq!(Some(&Json::Null), record.get("a"));
    match &record {
        Json::Object(members) => assert_eq!(3, members.len()),
        _ => panic!("an object stays an object"),
    }
    assert_eq!(text("x"), text("x").with_member("a".to_string(), Json::Null));
    assert_eq!(json("[1]"), json("[1]").with_member("a".to_string(), Json::Null));
}

fn same_as_pointer(record: &str, path: &str) {
    let ours = json(record);
    let theirs = value(record);
    let pointer = "/".to_owned() + &path.replace(".", "/");
    assert_eq!(pointer, pointer_for(path));
    assert_eq!(
        theirs.pointer(&pointer).cloned(),
        ours.lookup(path).map(|found| to_value(&found)),
        "path {:?} in {}",
        path,
        record
    );
    assert_eq!(
        theirs.pointer(&pointer).and_then(Value::as_str).map(str::to_owned),
        ours.text_at(path)
    );
}

#[test]
fn lookup_agrees_with_json_pointers() {
    let record = r#"{
        "log": "line", "n": 1, "": "empty key", "a/b": "slash", "m~n": "tilde", "~1": "literal",
        "kubernetes": {"namespace_name": "protocol-kitchen", "labels": {"app": "web", "": {"": "deep"}}},
        "list": ["zero", "one", {"k": "v"}, ["x", "y"]],
        "0": "key zero", "01": "key zero one",
        "big": {"18446744073709551616": "beyond"}
    }"#;
    for path in [
        "log", "n", "missing", "", ".", "..", "kubernetes", "kubernetes.namespace_name",
        "kubernetes.labels.app", "kubernetes.labels.", "kubernetes.labels..", "kubernetes..app",
        "kubernetes/labels/app", "kubernetes.labels/app", "log.more", "n.more",
        "list.0", "list.1", "list.2.k", "list.3.1", "list.4", "list.00", "list.01", "list.+1",
        "list.-1", "list.1x", "list.", "list. 1", "list.18446744073709551616",
        "list.99999999999999999999999999", "list.3.0", "list.3.2", "0", "01",
        "a~1b", "m~0n", "~01", "~0", "~", "~2", "a~", "big.18446744073709551616",
        "kubernetes.labels", ".log", "log.",
    ] {
        same_as_pointer(record, path);
    }
    for record in ["[\"a\", [\"b\"]]", "\"text\"", "7", "null", "[]", "{}"] {
        for path in ["", "0", "1", "1.0", "a", "0.0", "."] {
            same_as_pointer(record, path);
        }
    }
}

#[test]
fn paths_reach_into_objects_and_arrays() {
    let record = json(r#"{"k": {"ns": "kitchen", "a/b": "slash"}, "list": ["zero", {"x": "y"}], "n": 1}"#);
    assert_eq!("/k/ns", pointer_for("k.ns"));
    assert_eq!("/", pointer_for(""));
    assert_eq!("///a/b/", pointer_for("./a.b/"));
    assert_eq!(Some("kitchen".to_string()), record.text_at("k.ns"));
    assert_eq!(Some("slash".to_string()), record.text_at("k.a~1b"));
    assert_eq!(Some("zero".to_string()), record.text_at("list.0"));
    assert_eq!(Some("y".to_string()), record.text_at("list.1.x"));
    assert_eq!(None, record.text_at("list.01"));
    assert_eq!(None, record.text_at("list.2"));
    assert_eq!(None, record.text_at("n"));
    assert_eq!(None, record.text_at("k"));
    assert_eq!(None, record.text_at("k.ns.deeper"));
    assert_eq!(Some(json(r#"{"x": "y"}"#)), record.lookup("list.1"));
    assert_eq!(Some(Json::Number(Numeral::PosInt(1))), record.lookup("n"));
    assert_eq!(None, record.lookup("missing"));
}

#[test]
fn filters_compare_the_text_of_a_field() {
    let record = json(r#"{"stream": "stderr", "code": 200, "k": {"ns": "kitchen"}, "e": ""}"#);
    assert!(keeps(&record, "stream", Comparison::Eq, "stderr"));
    assert!(!keeps(&record, "stream", Comparison::Ne, "stderr"));
    assert!(!keeps(&record, "stream", Comparison::Eq, "stdout"));
    assert!(keeps(&record, "stream", Comparison::Ne, "stdout"));
    assert!(!keeps(&record, "stream", Comparison::Eq, "stder"));
    assert!(keeps(&record, "k.ns", Comparison::Eq, "kitchen"));
    assert!(keeps(&record, "stream", Comparison::Match, "der"));
    assert!(keeps(&record, "stream", Comparison::Match, ""));
    assert!(keeps(&record, "stream", Comparison::Match, "stderr"));
    assert!(!keeps(&record, "stream", Comparison::Match, "stderr!"));
    assert!(keeps(&record, "e", Comparison::Match, ""));
    assert!(keeps(&record, "e", Comparison::Eq, ""));
    for field in ["missing", "code", "k", "k.missing", "stream.deeper"] {
        assert!(!keeps(&record, field, Comparison::Eq, "200"));
        assert!(keeps(&record, field, Comparison::Ne, "200"));
        assert!(!keeps(&record, field, Comparison::Match, ""));
    }
}

#[test]
fn line_stages_look_for_their_text() {
    let stages = vec![
        LineStage::Include("kitchen".to_string()),
        LineStage::Exclude("feedme".to_string()),
        LineStage::Include("".to_string()),
    ];
    assert!(stages[0].keeps("protocol.kitchen"));
    assert!(!stages[0].keeps("protocol.kitche"));
    assert!(!stages[0].keeps("Kitchen"));
    assert!(stages[1].keeps("protocol.kitchen"));
    assert!(!stages[1].keeps("GET /feedme/"));
    assert!(stages[2].keeps(""));
    assert!(survives(&stages, "the kitchen sink"));
    assert!(!survives(&stages, "feedme in the kitchen"));
    assert!(!survives(&stages, "the sink"));
    assert!(survives(&Vec::new(), "anything"));
    assert!(!survives(&vec![LineStage::Exclude("".to_string())], "anything"));
}

#[test]
fn patterns_compile_or_say_why_not() {
    assert!(Pattern::compile(r"(\d+)-(\d+)").is_ok());
    assert!(Pattern::compile("").is_ok());
    for bad in ["(", "[a", r"\", "a{2,1}", "(?P<n>a)(?P<n>b)", r"\w{1000}{1000}"] {
        let error = Pattern::compile(bad).unwrap_err();
        assert_eq!(bad, error.pattern);
        assert!(!error.reason.is_empty());
    }
}

#[test]
fn captures_list_every_group() {
    let pattern = Pattern::compile(r"(\w+)@(\w+)(\.com)?(x)?").unwrap();
    assert_eq!(
        Some(vec![
            Some("me@host.com".to_string()),
            Some("me".to_string()),
            Some("host".to_string()),
            Some(".com".to_string()),
            None,
        ]),
        pattern.captures("mail me@host.com now")
    );
    assert_eq!(None, pattern.captures("no address"));
    let leftmost = Pattern::compile("a(b|c)").unwrap();
    assert_eq!(
        Some(vec![Some("ac".to_string()), Some("c".to_string())]),
        leftmost.captures("xacab")
    );
}

#[test]
fn bind_groups_writes_one_field_for_each_binding() {
    let groups = vec![Some("GET / 200".to_string()), Some("GET".to_string()), Some("/".to_string()), None];
    let record = json(r#"{"log": "x", "verb": "old"}"#);
    let bound = bind_groups(record, &names(&["verb", "path"]), &groups).unwrap();
    assert_eq!(value(r#"{"log":"x","verb":"GET","path":"/"}"#), to_value(&bound));

    assert_eq!(None, bind_groups(json("{}"), &names(&["a", "b", "c"]), &groups));
    assert_eq!(None, bind_groups(json("{}"), &names(&["a", "b", "c", "d"]), &groups));
    assert_eq!(None, bind_groups(json("{}"), &names(&["a"]), &vec![Some("whole".to_string())]));
    assert_eq!(None, bind_groups(json("{}"), &names(&["a"]), &Vec::new()));
    assert_eq!(None, bind_groups(json(r#"["x"]"#), &names(&["a"]), &groups));
    assert_eq!(Some(json(r#"["x"]"#)), bind_groups(json(r#"["x"]"#), &Vec::new(), &groups));
    assert_eq!(Some(json("{}")), bind_groups(json("{}"), &Vec::new(), &Vec::new()));

    let twice = bind_groups(json("{}"), &names(&["a", "a"]), &groups).unwrap();
    assert_eq!(value(r#"{"a":"/"}"#), to_value(&twice));
}

#[test]
fn extract_binds_the_groups_of_the_first_match() {
    let pattern = Pattern::compile(r#""([^ ]+) ([^ ]+) HTTP/1.1" ([\d]{3})"#).unwrap();
    let aliases = names(&["verb", "path", "response_code"]);
    let record = json(r#"{"log": "1.2.3.4 \"GET /index.html HTTP/1.1\" 200 \"POST /x HTTP/1.1\" 500", "path": 7, "keep": [1]}"#);
    let bound = extract(record, "log", &pattern, &aliases).unwrap();
    assert_eq!(
        value(r#"{"log": "1.2.3.4 \"GET /index.html HTTP/1.1\" 200 \"POST /x HTTP/1.1\" 500", "path": "/index.html", "keep": [1], "verb": "GET", "response_code": "200"}"#),
        to_value(&bound)
    );
    assert_eq!(None, extract(json(r#"{"log": "GET / HTTP/2.0"}"#), "log", &pattern, &aliases));
    assert_eq!(None, extract(json(r#"{"other": 1}"#), "log", &pattern, &aliases));
    assert_eq!(None, extract(json(r#"{"log": 200}"#), "log", &pattern, &aliases));
    assert_eq!(None, extract(json("17"), "log", &pattern, &aliases));
    let too_many = names(&["a", "b", "c", "d"]);
    assert_eq!(
        None,
        extract(json(r#"{"log": "\"GET / HTTP/1.1\" 200"}"#), "log", &pattern, &too_many)
    );
    let fewer = names(&["verb"]);
    assert_eq!(
        value(r#"{"log": "\"GET / HTTP/1.1\" 200", "verb": "GET"}"#),
        to_value(&extract(json(r#"{"log": "\"GET / HTTP/1.1\" 200"}"#), "log", &pattern, &fewer).unwrap())
    );
    let nested = Pattern::compile("(a)|(b)").unwrap();
    let both = names(&["first", "second"]);
    assert_eq!(None, extract(json(r#"{"k": {"v": "b"}}"#), "k.v", &nested, &both));
    let inner = extract(json(r#"{"k": {"v": "ab"}}"#), "k.v", &nested, &names(&["first"])).unwrap();
    assert_eq!(value(r#"{"k": {"v": "ab"}, "first": "a"}"#), to_value(&inner));
}

#[test]
fn count_by_groups_in_the_order_of_first_occurrence() {
    let records: Vec<Json> = [
        r#"{"verb": "GET", "path": "/a"}"#,
        r#"{"verb": "POST", "path": "/a"}"#,
        r#"{"verb": "GET", "path": "/a", "extra": true}"#,
        r#"{"verb": "GET"}"#,
        r#"{"verb": "GET", "path": null}"#,
        r#"{"verb": "GET", "path": 7}"#,
        r#"[1, 2]"#,
        r#"{"path": "/a"}"#,
        r#"{"verb": "GET", "path": "/a"}"#,
    ]
    .iter()
    .map(|line| json(line))
    .collect();
    let counted = count_by(&records, &names(&["verb", "path"]));
    let expected: Vec<Value> = [
        r#"{"verb": "GET", "path": "/a", "_count": 3}"#,
        r#"{"verb": "POST", "path": "/a", "_count": 1}"#,
        r#"{"verb": "GET", "path": null, "_count": 3}"#,
        r#"{"verb": null, "path": null, "_count": 1}"#,
        r#"{"verb": null, "path": "/a", "_count": 1}"#,
    ]
    .iter()
    .map(|line| value(line))
    .collect();
    assert_eq!(expected, counted.iter().map(to_value).collect::<Vec<Value>>());
    let total: u64 = counted
        .iter()
        .map(|record| match record.get("_count") {
            Some(Json::Number(Numeral::PosInt(n))) => *n,
            _ => panic!("every group has a count"),
        })
        .sum();
    assert_eq!(records.len() as u64, total);
    for (i, left) in counted.iter().enumerate() {
        for right in counted.iter().skip(i + 1) {
            assert!(left.get("verb") != right.get("verb") || left.get("path") != right.get("path"));
        }
    }
}

#[test]
fn a_clone_is_the_same_value() {
    let record = json(r#"{"a": [1, -2, 2.5, {"b": null}], "c": "text", "d": true}"#);
    let copy = record.clone();
    assert_eq!(record, copy);
    let changed = copy.with_member("c".to_string(), Json::Null);
    assert_eq!(Some(&text("text")), record.get("c"));
    assert_eq!(Some(&Json::Null), changed.get("c"));
}

#[test]
fn count_by_edge_cases() {
    let none: Vec<Json> = Vec::new();
    assert!(count_by(&none, &names(&["a"])).is_empty());
    let records = vec![json(r#"{"a": "x"}"#), json("3"), json(r#"{"a": "y"}"#)];
    let all = count_by(&records, &Vec::new());
    assert_eq!(vec![value(r#"{"_count": 3}"#)], all.iter().map(to_value).collect::<Vec<Value>>());
    let twice = count_by(&records, &names(&["a", "a"]));
    assert_eq!(
        vec![value(r#"{"a":"x","_count":1}"#), value(r#"{"a":null,"_count":1}"#), value(r#"{"a":"y","_count":1}"#)],
        twice.iter().map(to_value).collect::<Vec<Value>>()
    );
    let counts = vec![json(r#"{"_count": "a"}"#), json(r#"{"_count": "b"}"#)];
    let shadowed = count_by(&counts, &names(&["_count"]));
    assert_eq!(
        vec![value(r#"{"_count":1}"#), value(r#"{"_count":1}"#)],
        shadowed.iter().map(to_value).collect::<Vec<Value>>()
    );
}

#[test]
fn record_stages_run_in_their_order() {
    let stages = vec![
        RecordStage::Filter {
            field: "stream".to_string(),
            comparison: Comparison::Ne,
            value: "stderr".to_string(),
        },
        RecordStage::Parse {
            field: "log".to_string(),
            pattern: Pattern::compile("^(\\w+) ").unwrap(),
            bindings: names(&["verb"]),
        },
        RecordStage::Count { fields: names(&["verb"]) },
        RecordStage::Filter {
            field: "verb".to_string(),
            comparison: Comparison::Match,
            value: "T".to_string(),
        },
    ];
    assert!(!stages[0].is_barrier());
    assert!(!stages[1].is_barrier());
    assert!(stages[2].is_barrier());
    let records: Vec<Json> = [
        r#"{"log": "PUT /a", "stream": "stdout"}"#,
        r#"{"log": "GET /a", "stream": "stdout"}"#,
        r#"{"log": "GET /b", "stream": "stderr"}"#,
        r#"{"log": "HEAD /b"}"#,
        r#"{"log": "nothing"}"#,
        r#"{"log": "PUT /c"}"#,
    ]
    .iter()
    .map(|line| json(line))
    .collect();
    let out = run_stages(&stages, records);
    assert_eq!(
        vec![value(r#"{"verb":"PUT","_count":2}"#), value(r#"{"verb":"GET","_count":1}"#)],
        out.iter().map(to_value).collect::<Vec<Value>>()
    );
    assert_eq!(vec![json("1")], run_stages(&Vec::new(), vec![json("1")]));
}

#[test]
fn sort_descending_orders_by_the_json_text_of_the_field() {
    let records: Vec<Json> = [
        r#"{"_count": 9, "id": "a"}"#,
        r#"{"_count": 10, "id": "b"}"#,
        r#"{"id": "c"}"#,
        r#"{"_count": "9", "id": "d"}"#,
        r#"{"_count": 9, "id": "e"}"#,
        r#"[]"#,
        r#"{"_count": [1], "id": "f"}"#,
        r#"{"_count": 100, "id": "g"}"#,
    ]
    .iter()
    .map(|line| json(line))
    .collect();
    let sorted = sort_descending(records, "_count");
    let ids: Vec<String> = sorted
        .iter()
        .map(|record| record.get("id").and_then(|v| v.as_text()).unwrap_or("-").to_string())
        .collect();
    assert_eq!(vec!["c", "-", "f", "a", "e", "g", "b", "d"], ids);
    assert!(sort_descending(Vec::new(), "x").is_empty());
}

#[test]
fn nodes_are_written_out() {
    assert_eq!(r#""ingress""#, SearchTerm::Include("ingress").show());
    assert_eq!(r#"! "GET /assets""#, SearchTerm::Exclude("GET /assets").show());
    assert_eq!(r#""say \"hi\"""#, SearchTerm::Include("say \"hi\"").show());
    assert_eq!("*", SearchTerm::Any().show());
    assert_eq!("!=", Comparison::Ne.show());
    assert_eq!("=", Comparison::Eq.show());
    assert_eq!("match", Comparison::Match.show());
    assert_eq!(r#"! count by ["verb", "path"]"#, Aggregation::Count(vec!["verb", "path"]).show());
    assert_eq!(
        r#"! ! count by ["verb"]"#,
        Transform::Aggregate(Aggregation::Count(vec!["verb"])).show()
    );
    assert_eq!(
        r#"! where "stream" != "stderr""#,
        Transform::Filter { field: "stream", comparison: Comparison::Ne, value: "stderr" }.show()
    );
    assert_eq!(
        r#"! parse "log" "(\\d+)" ["code"]"#,
        Transform::Parse { field: "log", parser: r"(\d+)", bindings: vec!["code"] }.show()
    );
    assert_eq!(r#"! sort by ["_count"]"#, Sort::Desc(vec!["_count"]).show());
    assert_eq!(r#"! sort by ["_count"] asc"#, Sort::Asc(vec!["_count"]).show());
    assert_eq!("! count by []", Aggregation::Count(Vec::new()).show());
}
