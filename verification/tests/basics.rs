use llm_loop::assoc::Assoc;
use llm_loop::error::AppError;
use llm_loop::json::{Fields, Json};
use llm_loop::numbers::{decimal, decimal_i64, hexadecimal, parse_i64, parse_unsigned};
use llm_loop::order::text_before;
use llm_loop::text::{
    chars_of, join_strings, lines_of, replace_chars, split_chars, string_of, trimmed_text,
    words_of,
};

fn shown(list: Vec<Vec<char>>) -> Vec<String> {
    list.iter().map(|chars| string_of(chars)).collect()
}

#[test]
fn texts_are_taken_apart() {
    let text = chars_of(" a\r\nb \n\n");
    assert_eq!(shown(lines_of(&text)), vec![" a", "b ", ""]);
    assert_eq!(shown(words_of(&text)), vec!["a", "b"]);
    assert_eq!(shown(split_chars(&chars_of("a,,b"), ',')), vec!["a", "", "b"]);
    assert_eq!(trimmed_text("\u{3000} x\t"), "x");
    assert_eq!(
        join_strings(&vec!["a".to_string(), "b".to_string()], "--"),
        "a--b"
    );
    assert_eq!(
        string_of(&replace_chars(&chars_of("aaa"), &chars_of("aa"), &chars_of("b"))),
        "ba"
    );
    assert!(text_before("a", "ab"));
    assert!(!text_before("b", "ab"));
}

#[test]
fn numbers_are_written_and_read() {
    assert_eq!(decimal(0), "0");
    assert_eq!(decimal(u128::MAX), u128::MAX.to_string());
    assert_eq!(decimal_i64(i64::MIN), i64::MIN.to_string());
    assert_eq!(hexadecimal(48879), "beef");
    assert_eq!(parse_i64(&chars_of("-9223372036854775808")), Some(i64::MIN));
    assert_eq!(parse_i64(&chars_of("9223372036854775808")), None);
    assert_eq!(parse_i64(&chars_of("+5")), Some(5));
    assert_eq!(parse_unsigned(&chars_of("256"), 255), None);
    assert_eq!(parse_unsigned(&chars_of("255"), 255), Some(255));
    assert_eq!(parse_unsigned(&chars_of(""), 255), None);
}

#[test]
fn json_is_read() {
    let value = Json::parse("{\"b\":[1,2.5,null],\"a\":{\"t\":\"x\\n\"},\"c\":true}").unwrap();
    assert_eq!(
        value.get("b"),
        Some(&Json::List(vec![
            Json::Number("1".to_string()),
            Json::Number("2.5".to_string()),
            Json::Null,
        ]))
    );
    assert_eq!(value.get("a").unwrap().text_field("t"), Some("x\n"));
    assert_eq!(value.get("c"), Some(&Json::Bool(true)));
    assert!(value.get("d").is_none());
    assert!(Json::parse("{").is_none());
    let built = Fields::new().text("k", "v").with("n", Json::Null).object();
    assert_eq!(
        built,
        Json::Object(vec![
            ("k".to_string(), Json::text("v")),
            ("n".to_string(), Json::Null),
        ])
    );
}

#[test]
fn json_is_written() {
    let value = Fields::new()
        .with("b", Json::List(vec![Json::Number("1".to_string()), Json::Bool(true)]))
        .text("a", "x\n")
        .text("b", "later")
        .object();
    assert_eq!(value.render(), "{\"a\":\"x\\n\",\"b\":\"later\"}");
    let list = Json::List(vec![Json::Null, Json::Number("-7".to_string()), Json::text("你\"")]);
    assert_eq!(list.render(), "[null,-7,\"你\\\"\"]");
    assert_eq!(Json::parse(&list.render()), Some(list));
    assert_eq!(Json::Number("x".to_string()).render(), "null");
}

#[test]
fn maps_keep_one_value_for_a_key() {
    let mut map: Assoc<u32> = Assoc::new();
    map.insert("a".to_string(), 1);
    map.insert("b".to_string(), 2);
    map.insert("a".to_string(), 3);
    assert_eq!(map.len(), 2);
    assert_eq!(map.get("a"), Some(&3));
    assert_eq!(map.remove("a"), Some(3));
    assert_eq!(map.get("a"), None);
    assert_eq!(map.remove("a"), None);
    map.clear();
    assert_eq!(map.len(), 0);
}

#[test]
fn errors_say_what_failed() {
    let text = |error: AppError| error.to_text();
    assert_eq!(text(AppError::Io("x".to_string())), "io error: x");
    assert_eq!(text(AppError::Config("x".to_string())), "config parse error: x");
    assert_eq!(text(AppError::Json("x".to_string())), "json error: x");
    assert_eq!(text(AppError::Http("x".to_string())), "http error: x");
    assert_eq!(
        text(AppError::MissingHome),
        "HOME is not set; cannot resolve ~/.llm-loop"
    );
    assert_eq!(text(AppError::Tool("x".to_string())), "tool error: x");
    assert_eq!(text(AppError::Cron("x".to_string())), "cron error: x");
    assert_eq!(text(AppError::Provider("x".to_string())), "provider error: x");
}
