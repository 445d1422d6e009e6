use cognitive_memory::embeddings::vector_in_answer;
use cognitive_memory::json::{parse_json, Json};

fn number(x: f64) -> Json {
    Json::Number(Some(x.to_bits()))
}

#[test]
fn documents_are_taken_apart() {
    let v = parse_json(b"{\"a\":[1,-2.5,true,null,\"t\"],\"b\":{\"c\":0}}").unwrap_or(Json::Null);
    let a = v.field("a").unwrap();
    assert!(matches!(a.item(0), Some(Json::Number(Some(n))) if *n == 1.0f64.to_bits()));
    assert!(matches!(a.item(1), Some(Json::Number(Some(n))) if *n == (-2.5f64).to_bits()));
    assert!(matches!(a.item(2), Some(Json::Bool(true))));
    assert!(matches!(a.item(3), Some(Json::Null)));
    assert!(matches!(a.item(4), Some(Json::Text(t)) if t == "t"));
    assert!(a.item(5).is_none());
    assert_eq!(a.numbers(), Some(vec![1.0f64.to_bits(), (-2.5f64).to_bits()]));
    let b = v.field("b").unwrap();
    assert!(matches!(b.field("c"), Some(Json::Number(Some(0)))));
    assert!(v.field("missing").is_none());
    assert!(b.item(0).is_none());
    assert!(b.numbers().is_none());
}

#[test]
fn faults_in_a_document_are_told() {
    match parse_json(b"{\"a\":") {
        Err(e) => assert_eq!(e, "EOF while parsing a value at line 1 column 5"),
        Ok(_) => panic!("parsed"),
    }
}

#[test]
fn a_vector_is_found_in_a_value() {
    let answer = Json::Object(vec![
        ("model".to_string(), Json::Text("m".to_string())),
        (
            "data".to_string(),
            Json::Array(vec![Json::Object(vec![(
                "embedding".to_string(),
                Json::Array(vec![number(0.5), Json::Null, Json::Number(None), number(2.0)]),
            )])]),
        ),
    ]);
    assert_eq!(vector_in_answer(&answer), Some(vec![0.5f64.to_bits(), 2.0f64.to_bits()]));
    assert_eq!(vector_in_answer(&number(1.0)), None);
}
