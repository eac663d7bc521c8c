use json_parser::parser;
use json_parser::tokenizer;
use json_parser::{JsonVal, Number, ObjectMap};

fn json_str(s: &str) -> JsonVal {
    JsonVal::String(s.to_string())
}

fn json_obj(pairs: Vec<(&str, JsonVal)>) -> JsonVal {
    let mut map = ObjectMap::new();
    for (k, v) in pairs {
        map.insert(k.to_string(), v);
    }
    JsonVal::Object(map)
}

fn float_of(v: &JsonVal) -> f64 {
    match v {
        JsonVal::Number(Number::Float(t)) => t.parse::<f64>().unwrap(),
        other => panic!("expected a float, got {:?}", other),
    }
}

const WIKIPEDIA: &str = r#"{
  "firstName": "John",
  "lastName": "Smith",
  "isAlive": true,
  "age": 27,
  "address": {
    "streetAddress": "21 2nd Street",
    "city": "New York",
    "state": "NY",
    "postalCode": "10021-3100"
  },
  "phoneNumbers": [
    {
      "type": "home",
      "number": "212 555-1234"
    },
    {
      "type": "office",
      "number": "646 555-4567"
    }
  ],
  "children": [],
  "spouse": null
}
"#;

const JSONPLACEHOLDER: &str = r#"[
  {
    "userId": 1,
    "id": 1,
    "title": "delectus aut autem",
    "completed": false
  },
  {
    "userId": 1,
    "id": 2,
    "title": "quis ut nam facilis et officia qui",
    "completed": false
  },
  {
    "userId": 1,
    "id": 3,
    "title": "fugiat veniam minus",
    "completed": false
  },
  {
    "userId": 1,
    "id": 4,
    "title": "et porro tempora",
    "completed": true
  }
]
"#;

const JSONORG: &str = r#"{"widget": {
    "debug": "on",
    "window": {
        "title": "Sample Konfabulator Widget",
        "name": "main_window",
        "width": 500,
        "height": 500
    },
    "image": {
        "src": "Images/Sun.png",
        "name": "sun1",
        "hOffset": 250,
        "vOffset": 250,
        "alignment": "center"
    },
    "text": {
        "data": "Click Here",
        "size": 36,
        "style": "bold",
        "name": "text1",
        "hOffset": 250,
        "vOffset": 100,
        "alignment": "center",
        "onMouseUp": "sun1.opacity = (sun1.opacity / 100) * 90;"
    }
}}
"#;

#[test]
fn wikipedia() {
    let input = WIKIPEDIA;
    let tokenizer = tokenizer::Tokenizer::from_str(&input);
    let parsed = parser::parse(tokenizer).expect("Expected valid json");
    if let JsonVal::Object(ref parsed) = parsed {
        assert_eq!(parsed.get("firstName").unwrap(), &json_str("John"));
        assert_eq!(parsed.get("lastName").unwrap(), &json_str("Smith"));
        assert_eq!(parsed.get("isAlive").unwrap(), &JsonVal::Boolean(true));
        assert_eq!(parsed.get("age").unwrap(), &JsonVal::Number(Number::UnsignedInt(27)));
        assert_eq!(
            parsed.get("address").unwrap(),
            &json_obj(vec![
                ("postalCode", json_str("10021-3100")),
                ("state", json_str("NY")),
                ("streetAddress", json_str("21 2nd Street")),
                ("city", json_str("New York")),
            ])
        );
        assert_eq!(
            parsed.get("phoneNumbers").unwrap(),
            &JsonVal::Array(vec![
                json_obj(vec![("type", json_str("home")), ("number", json_str("212 555-1234"))]),
                json_obj(vec![("type", json_str("office")), ("number", json_str("646 555-4567"))]),
            ])
        );
        assert_eq!(parsed.get("children").unwrap(), &JsonVal::Array(vec![]));
        assert_eq!(parsed.get("spouse").unwrap(), &JsonVal::Null);
    } else {
        unreachable!("Must parse as an object, {:#?}", parsed)
    }
}

#[test]
fn jsonplaceholder() {
    let input = JSONPLACEHOLDER;
    let tokenizer = tokenizer::Tokenizer::from_str(&input);
    let parsed = parser::parse(tokenizer).expect("Expected valid json");
    if let JsonVal::Array(ref parsed) = parsed {
        for val in parsed {
            if let JsonVal::Object(val) = val {
                assert!(matches!(
                    val.get("userId").unwrap(),
                    JsonVal::Number(Number::UnsignedInt(_))
                ));
                assert!(matches!(val.get("id").unwrap(), JsonVal::Number(Number::UnsignedInt(_))));
                assert!(matches!(val.get("title").unwrap(), JsonVal::String(_)));
                assert!(matches!(val.get("completed").unwrap(), JsonVal::Boolean(_)));
            } else {
                unreachable!("Must parse as an object, {:#?}", parsed)
            }
        }
    } else {
        unreachable!("Must parse as an array, {:#?}", parsed)
    }
}

#[test]
fn jsonorg() {
    let input = JSONORG;
    let tokenizer = tokenizer::Tokenizer::from_str(&input);
    let parsed = parser::parse(tokenizer).expect("Expected valid json");
    if let JsonVal::Object(parsed) = parsed {
        if let JsonVal::Object(ref widget) = parsed.get("widget").unwrap() {
            assert_eq!(widget.get("debug").unwrap(), &json_str("on"));
            if let JsonVal::Object(ref window) = widget.get("window").unwrap() {
                assert_eq!(window.get("title").unwrap(), &json_str("Sample Konfabulator Widget"));
                assert_eq!(window.get("name").unwrap(), &json_str("main_window"));
                assert_eq!(window.get("width").unwrap(), &JsonVal::Number(Number::UnsignedInt(500)));
                assert_eq!(window.get("height").unwrap(), &JsonVal::Number(Number::UnsignedInt(500)));
                if let JsonVal::Object(ref image) = widget.get("image").unwrap() {
                    assert_eq!(image.get("src").unwrap(), &json_str("Images/Sun.png"));
                    assert_eq!(image.get("name").unwrap(), &json_str("sun1"));
                    assert_eq!(image.get("hOffset").unwrap(), &JsonVal::Number(Number::UnsignedInt(250)));
                    assert_eq!(image.get("vOffset").unwrap(), &JsonVal::Number(Number::UnsignedInt(250)));
                    assert_eq!(image.get("alignment").unwrap(), &json_str("center"));
                } else {
                    unreachable!("Must parse as an object, {:#?}", parsed)
                }
                if let JsonVal::Object(ref text) = widget.get("text").unwrap() {
                    assert_eq!(text.get("data").unwrap(), &json_str("Click Here"));
                    assert_eq!(text.get("size").unwrap(), &JsonVal::Number(Number::UnsignedInt(36)));
                    assert_eq!(text.get("style").unwrap(), &json_str("bold"));
                    assert_eq!(text.get("name").unwrap(), &json_str("text1"));
                    assert_eq!(text.get("hOffset").unwrap(), &JsonVal::Number(Number::UnsignedInt(250)));
                    assert_eq!(text.get("vOffset").unwrap(), &JsonVal::Number(Number::UnsignedInt(100)));
                    assert_eq!(text.get("alignment").unwrap(), &json_str("center"));
                    assert_eq!(
                        text.get("onMouseUp").unwrap(),
                        &json_str("sun1.opacity = (sun1.opacity / 100) * 90;")
                    );
                } else {
                    unreachable!("Must parse as an object, {:#?}", parsed)
                }
            }
        } else {
            unreachable!("Must parse as an object, {:#?}", parsed)
        }
    } else {
        unreachable!("Must parse as an object, {:#?}", parsed)
    }
}

#[test]
fn tsoding() {
    let input = r#"{
                "hello": [false,true,null,42,"foo\n\u1234\"", [1,-2,3.1415, 4e-6, 5E6, 0.123e+1]],
                "world": null
                }
            "#;
    let tokenizer = tokenizer::Tokenizer::from_str(&input);
    let parsed = parser::parse(tokenizer).expect("Expected valid json");
    if let JsonVal::Object(ref parsed) = parsed {
        if let JsonVal::Array(ref hello) = parsed.get("hello").unwrap() {
            assert_eq!(hello[0], JsonVal::Boolean(false));
            assert_eq!(hello[1], JsonVal::Boolean(true));
            assert_eq!(hello[2], JsonVal::Null);
            assert_eq!(hello[3], JsonVal::Number(Number::UnsignedInt(42)));
            let s = String::from("foo\n\\u1234");
            println!("{}", s);
            if let JsonVal::Array(ref arr) = hello[5] {
                assert_eq!(arr[0], JsonVal::Number(Number::UnsignedInt(1)));
                assert_eq!(arr[1], JsonVal::Number(Number::SignedInt(-2)));
                assert_eq!(float_of(&arr[2]), 3.1415);
                assert_eq!(float_of(&arr[3]), 0.000004);
                assert_eq!(float_of(&arr[4]), 5000000f64);
                assert_eq!(float_of(&arr[5]), 1.23);
            } else {
            }
        } else {
            unreachable!("Must parse as an array, {:#?}", parsed)
        }
    } else {
        unreachable!("Must parse as an object, {:#?}", parsed)
    }
}
