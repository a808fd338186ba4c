use rdbg::frame::{read_body, read_framed, write_framed, Framing};
use rdbg::json::Json;

#[test]
fn values_are_read_and_written() {
    let j = Json::parse(r#"{"b": [1, -2, true, null, "x\n"], "a": {"k": 1.5}}"#).unwrap();
    assert_eq!(j.render(), r#"{"a":{"k":1.5},"b":[1,-2,true,null,"x\n"]}"#);
    assert_eq!(j.at("b").as_array().unwrap().len(), 5);
    assert_eq!(j.at("b").as_array().unwrap()[1].as_i64(), Some(-2));
    assert!(j.at("missing").is_null());
    assert!(j.at("a").is_object());
    assert!(j.at("a").at("k").as_i64().is_none());
    assert!(Json::parse("{").is_none());
    assert!(Json::parse("").is_none());
}

#[test]
fn building_sets_keys() {
    let j = Json::obj()
        .with("n", Json::number(-7))
        .with("s", Json::text("q\"uote"))
        .with("n", Json::number(8))
        .with("l", Json::strings(&vec!["a".to_string()]))
        .with("b", Json::boolean(false))
        .with("c", Json::count(3));
    assert_eq!(j.render(), r#"{"b":false,"c":3,"l":["a"],"n":8,"s":"q\"uote"}"#);
    assert_eq!(j.copy().render(), j.render());
    assert_eq!(j.at("s").as_str(), Some("q\"uote"));
    assert_eq!(j.at("n").int_or(1), 8);
    assert_eq!(j.at("zz").int_or(1), 1);
    assert_eq!(j.at("n").nat_or_zero(), 8);
    assert_eq!(j.at("b").as_bool(), Some(false));
    assert!(j.get("zz").is_none());
    assert_eq!(Json::Null.with("k", Json::Null).render(), r#"{"k":null}"#);
}

#[test]
fn pretty_values_are_indented() {
    let j = Json::obj().with("k", Json::number(1));
    assert_eq!(j.render_pretty(), "{\n  \"k\": 1\n}");
}

#[test]
fn the_last_of_two_keys_counts() {
    let j = Json::parse(r#"{"k": 1, "k": 2}"#).unwrap();
    assert_eq!(j.at("k").as_i64(), Some(2));
}

fn feed(bytes: &[u8]) -> (Framing, usize) {
    let mut header = Vec::new();
    for (i, b) in bytes.iter().enumerate() {
        match read_framed(&mut header, *b) {
            Framing::More => {}
            end => return (end, i + 1),
        }
    }
    (Framing::More, bytes.len())
}

#[test]
fn frames_read_back_what_was_written() {
    let j = Json::obj().with("text", Json::text("héllo → \"x\"")).with("n", Json::number(i64::MIN));
    let bytes = write_framed(&j);
    match feed(&bytes) {
        (Framing::Body(n), at) => {
            assert_eq!(at + n, bytes.len());
            assert_eq!(read_body(&bytes[at..]).unwrap().render(), j.render());
        }
        _ => panic!("no body"),
    }
}

#[test]
fn headers_are_read_leniently() {
    assert!(matches!(feed(b"X: y\r\nCONTENT-length:  42 \r\n\r\n"), (Framing::Body(42), _)));
    assert!(matches!(feed(b"X: y\r\n\r\n"), (Framing::Bad, _)));
    assert!(matches!(feed(b"Content-Length: x\r\n\r\n"), (Framing::Bad, _)));
    assert!(matches!(feed(b"Content-Length: 3\r\n"), (Framing::More, _)));
    assert!(matches!(feed(&[b'a'; (1 << 16) + 5]), (Framing::Bad, _)));
    assert!(read_body(b"{").is_none());
    assert!(read_body(&[0xff, 0xfe]).is_none());
}

#[test]
fn lines_read_back_what_was_written() {
    let j = Json::obj().with("cmd", Json::text("eval\n\r\t x ")).with("n", Json::number(-7));
    let line = j.render_line();
    assert_eq!(line, "{\"cmd\":\"eval\\n\\r\\t x \",\"n\":-7}\n");
    assert_eq!(line.matches('\n').count(), 1);
    assert_eq!(rdbg::cli::request_line(&j), line);
    assert_eq!(rdbg::daemon::read_request(&line).unwrap().render(), j.render());
    assert_eq!(rdbg::daemon::write_response(&j), line);
    assert_eq!(rdbg::cli::read_reply(&line).unwrap().render(), j.render());
    for v in [Json::Null, Json::text(""), Json::text("\u{2028}"), Json::number(0)] {
        assert_eq!(rdbg::daemon::read_request(&v.render_line()).unwrap().render(), v.render());
    }
}
