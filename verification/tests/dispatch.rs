use kvs::dispatch::Command;
use kvs::dispatch::Reply;
use kvs::dispatch::dispatch;
use kvs::store::KvStore;

#[test]
fn set_foo_bar_then_get_foo_prints_bar_and_exits_zero() {
    let mut store = KvStore::new();
    let set_reply = dispatch(
        &mut store,
        Command::Put { key: String::from("foo"), value: String::from("bar") },
    );
    assert!(matches!(set_reply, Reply::Done));
    assert_eq!(set_reply.exit_code(), 0);
    let get_reply = dispatch(&mut store, Command::Get { key: String::from("foo") });
    match get_reply {
        Reply::Value(ref v) => assert_eq!(v, "bar"),
        _ => panic!("expected the stored value"),
    }
    assert_eq!(get_reply.exit_code(), 0);
}

#[test]
fn get_of_missing_key_is_a_failure() {
    let mut store = KvStore::new();
    let reply = dispatch(&mut store, Command::Get { key: String::from("missing") });
    assert!(matches!(reply, Reply::KeyNotFound));
    assert_eq!(reply.exit_code(), 1);
}

#[test]
fn set_then_rm_then_get_ends_in_failure() {
    let mut store = KvStore::new();
    let set_reply = dispatch(
        &mut store,
        Command::Put { key: String::from("foo"), value: String::from("bar") },
    );
    assert_eq!(set_reply.exit_code(), 0);
    let rm_reply = dispatch(&mut store, Command::Rm { key: String::from("foo") });
    assert!(matches!(rm_reply, Reply::Done));
    assert_eq!(rm_reply.exit_code(), 0);
    let get_reply = dispatch(&mut store, Command::Get { key: String::from("foo") });
    assert!(matches!(get_reply, Reply::KeyNotFound));
    assert_eq!(get_reply.exit_code(), 1);
}

#[test]
fn rm_of_missing_key_is_a_failure() {
    let mut store = KvStore::new();
    let reply = dispatch(&mut store, Command::Rm { key: String::from("missing") });
    assert!(matches!(reply, Reply::KeyNotFound));
    assert_eq!(reply.exit_code(), 1);
}

#[test]
fn set_of_a_new_key_succeeds() {
    let mut store = KvStore::new();
    let reply = dispatch(
        &mut store,
        Command::Put { key: String::from("fresh"), value: String::from("v") },
    );
    assert!(matches!(reply, Reply::Done));
    assert_eq!(reply.exit_code(), 0);
}
