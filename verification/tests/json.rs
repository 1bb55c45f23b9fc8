use dsh_tools::json::{compact, parse, pretty, quote, value_text, Json};

#[test]
fn objects_stand_in_the_order_of_their_keys() {
    let v = Json::object()
        .with("b", Json::Uint(2))
        .with("a", Json::text("x\"y"))
        .with("b", Json::Bool(true));
    assert_eq!(compact(&v), "{\"a\":\"x\\\"y\",\"b\":true}");
    assert_eq!(pretty(&v), "{\n  \"a\": \"x\\\"y\",\n  \"b\": true\n}");
}

#[test]
fn an_object_out_of_order_is_written_in_order() {
    let v = Json::Obj(vec![
        ("b".to_string(), Json::Uint(1)),
        ("a".to_string(), Json::Null),
        ("b".to_string(), Json::Int(-2)),
    ]);
    assert_eq!(compact(&v), "{\"a\":null,\"b\":-2}");
}

#[test]
fn what_is_written_is_read() {
    let t = "{\"a\":[1,-2,true,null,\"中\"],\"c\":{\"d\":1.5}}";
    let v = parse(t).unwrap();
    assert_eq!(compact(&v), t);
    assert_eq!(compact(&parse(&pretty(&v)).unwrap()), t);
    assert_eq!(compact(&v.copy()), t);
}

#[test]
fn what_is_no_value_is_refused() {
    assert!(parse("{\"a\":").is_err());
    assert!(parse("").is_err());
    assert!(parse("1 2").is_err());
    assert_eq!(
        parse("nope").err().unwrap(),
        "expected ident at line 1 column 2"
    );
}

#[test]
fn values_are_read_by_their_keys() {
    let v = parse("{\"s\":\"x\",\"n\":7,\"m\":-7,\"b\":true,\"l\":[\"p\",1,\"q\"],\"o\":{\"k\":2}}").unwrap();
    assert_eq!(v.text_at("s"), Some("x".to_string()));
    assert_eq!(v.text_at("n"), None);
    assert_eq!(v.text_or("z", "d"), "d");
    assert_eq!(v.uint_at("n"), Some(7));
    assert_eq!(v.uint_at("m"), None);
    assert!(v.flag_at("b"));
    assert!(!v.flag_at("s"));
    assert_eq!(v.text_items("l"), vec!["p", "q"]);
    assert_eq!(v.items("l").map(|a| a.len()), Some(3));
    assert_eq!(v.entries_at("o").map(|e| e[0].0.clone()), Some("k".to_string()));
    assert_eq!(compact(&v.at("o")), "{\"k\":2}");
    assert_eq!(compact(&v.at("nothing")), "null");
    assert_eq!(value_text(&v.at("s")), "x");
    assert_eq!(value_text(&v.at("n")), "");
    assert!(v.get("s").is_some());
    assert_eq!(quote("a\n"), "\"a\\n\"");
}

#[test]
fn numbers_that_are_no_integers_are_kept() {
    let v = parse("{\"x\":0.25,\"y\":18446744073709551615,\"z\":-9223372036854775808}").unwrap();
    assert_eq!(compact(&v), "{\"x\":0.25,\"y\":18446744073709551615,\"z\":-9223372036854775808}");
    assert!(matches!(v.at("x"), Json::Float(_)));
    assert!(matches!(v.at("y"), Json::Uint(u64::MAX)));
    assert!(matches!(v.at("z"), Json::Int(i64::MIN)));
}
