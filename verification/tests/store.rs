use bytes::Bytes;
use my_redis::command::{Command, MalformedCommand};
use my_redis::db::{Db, ProcessError};
use my_redis::frame::RespFrame;

fn bulk(s: &str) -> RespFrame {
    RespFrame::Bulk(Bytes::from(s.to_string()))
}

fn request(parts: &[&str]) -> RespFrame {
    RespFrame::Array(parts.iter().map(|p| bulk(p)).collect())
}

fn bulk_bytes(reply: &RespFrame) -> Vec<u8> {
    match reply {
        RespFrame::Bulk(b) => b.to_vec(),
        _ => panic!("not a bulk reply"),
    }
}

#[test]
fn fresh_store_has_no_key() {
    let db = Db::new();
    assert!(db.get("foo").is_none());
}

#[test]
fn get_after_set_returns_the_value() {
    let mut db = Db::new();
    db.set("foo".to_string(), Bytes::from("bar"));
    assert_eq!(db.get("foo").unwrap(), Bytes::from("bar"));
    assert!(db.get("baz").is_none());
}

#[test]
fn set_overwrites_and_keeps_other_keys() {
    let mut db = Db::new();
    db.set("a".to_string(), Bytes::from("1"));
    db.set("b".to_string(), Bytes::from("2"));
    db.set("a".to_string(), Bytes::from("3"));
    assert_eq!(db.get("a").unwrap(), Bytes::from("3"));
    assert_eq!(db.get("b").unwrap(), Bytes::from("2"));
}

#[test]
fn apply_answers_set_and_get() {
    let mut db = Db::new();
    let r = db.apply(Command::GetKey { key: "k".to_string() });
    assert!(matches!(r, RespFrame::Null));
    let r = db.apply(Command::SetKey { key: "k".to_string(), value: Bytes::from("v") });
    assert!(matches!(r, RespFrame::Simple(ref s) if s == "OK"));
    let r = db.apply(Command::GetKey { key: "k".to_string() });
    assert_eq!(bulk_bytes(&r), b"v".to_vec());
}

#[test]
fn process_frame_runs_set_then_get() {
    let mut db = Db::new();
    let r = db.process_frame(request(&["SET", "hello", "world"]));
    assert!(matches!(r, Ok(RespFrame::Simple(ref s)) if s == "OK"));
    let r = db.process_frame(request(&["get", "hello"])).ok().unwrap();
    assert_eq!(bulk_bytes(&r), b"world".to_vec());
    let r = db.process_frame(request(&["GET", "missing"]));
    assert!(matches!(r, Ok(RespFrame::Null)));
}

#[test]
fn process_frame_reports_unsupported_and_malformed() {
    let mut db = Db::new();
    let r = db.process_frame(request(&["PUBLISH", "chan", "msg"]));
    assert!(matches!(r, Err(ProcessError::Unsupported { .. })));
    let r = db.process_frame(RespFrame::Simple("GET".to_string()));
    assert!(matches!(r, Err(ProcessError::Malformed)));
    let r = db.process_frame(request(&["GET"]));
    assert!(matches!(r, Err(ProcessError::Malformed)));
    assert!(db.get("chan").is_none());
}

#[test]
fn answer_command_for_each_decoded_request() {
    let mut db = Db::new();
    let r = db.answer_command(Ok(Command::SetKey { key: "x".to_string(), value: Bytes::from("1") }));
    assert!(matches!(r, Ok(RespFrame::Simple(ref s)) if s == "OK"));
    let r = db.answer_command(Ok(Command::GetKey { key: "x".to_string() })).ok().unwrap();
    assert_eq!(bulk_bytes(&r), b"1".to_vec());
    let r = db.answer_command(Ok(Command::Unsupported { description: "Publish".to_string() }));
    assert!(matches!(r, Err(ProcessError::Unsupported { ref description }) if description == "Publish"));
    let r = db.answer_command(Err(MalformedCommand));
    assert!(matches!(r, Err(ProcessError::Malformed)));
    assert_eq!(db.get("x").unwrap(), Bytes::from("1"));
}
