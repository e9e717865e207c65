use derive_aktor::kv_store::KeyValueStore;
use derive_aktor::logger::{PrintLogger, PrintLoggerMessage};
use derive_aktor::runtime::Handler;

fn text(s: &str) -> String {
    s.to_string()
}

#[test]
fn it_works() {}

#[test]
fn store_keeps_last_value() {
    let mut store = KeyValueStore::new();
    assert_eq!(store.query(&text("foo")), None);
    store.set(text("foo"), text("bar"));
    store.set(text("baz"), text("qux"));
    assert_eq!(store.query(&text("foo")), Some(text("bar")));
    store.set(text("foo"), text("again"));
    assert_eq!(store.query(&text("foo")), Some(text("again")));
    assert_eq!(store.query(&text("baz")), Some(text("qux")));
    assert_eq!(store.query(&text("")), None);
    assert!(store.error_log().is_empty());
}

#[test]
fn logger_codes_and_lines() {
    let mut logger = PrintLogger::new();
    assert_eq!(logger.info(&text("info log")), 0);
    assert_eq!(logger.error(&text("error!!")), -1);
    assert!(logger.lines().is_empty());
    assert_eq!(logger.handle(&PrintLoggerMessage::Info { data: text("info log") }), Ok(0));
    assert_eq!(logger.handle(&PrintLoggerMessage::Error { data: text("error!!") }), Ok(-1));
    assert_eq!(logger.take_output(), vec![text("info log"), text("error!!")]);
    assert!(logger.take_output().is_empty());
}
