use cl::cli::data_store::{call_error, handle_error, DataStoreError};
use cl::cli::example::Example;
use cl::cli::jobs::child_job;
use cl::cli::messenger::{Messenger, MsgQueue};
use cl::cli::my_error::{show_error, MyError, OtherError};
use cl::cli::pointer::MyBox;
use cl::cli::puzzle::Puzzle;

#[test]
fn example_is_named_example() {
    assert_eq!(Example::new().name(), "example");
    assert_eq!(Example::default().name(), "example");
}

#[test]
fn child_job_uppercases() {
    let mut s = "good enough".to_string();
    child_job(&mut s);
    assert_eq!(s, "GOOD ENOUGH");
}

#[test]
fn puzzles_compare_names_without_case() {
    let a = Puzzle { num_pieces: 15, name: "Mountain".to_string() };
    let b = Puzzle { num_pieces: 15, name: "mOUNTAIN".to_string() };
    let c = Puzzle { num_pieces: 16, name: "Mountain".to_string() };
    let d = Puzzle { num_pieces: 15, name: "Lake".to_string() };
    assert!(a == b);
    assert!(a != c);
    assert!(a != d);
}

#[test]
fn default_puzzle() {
    let p = Puzzle::default();
    assert_eq!(p.num_pieces, 10);
    assert_eq!(p.name, "default");
}

#[test]
fn puzzle_into_string_is_its_name() {
    let p = Puzzle { num_pieces: 15, name: "Lake".to_string() };
    let by_ref: String = (&p).into();
    let by_value: String = p.into();
    assert_eq!(by_ref, "Lake");
    assert_eq!(by_value, "Lake");
}

#[test]
fn queue_keeps_messages_in_order() {
    let mut q = MsgQueue::new();
    assert_eq!(q.len(), 0);
    q.send("hello".to_string());
    q.send("world".to_string());
    assert_eq!(q.len(), 2);
    assert_eq!(q.message_at(0), "hello");
    assert_eq!(q.message_at(1), "world");
}

#[test]
fn box_writes_through_mutable_reference() {
    let mut b = MyBox::new(String::from("hello, "));
    b.deref_mut().push_str("world");
    assert_eq!(b.deref(), "hello, world");
}

#[test]
fn my_error_texts() {
    assert_eq!(MyError::EnvironmentVariableNotFound.text(), "Environment variable not found");
    assert_eq!(MyError::Other.text(), "other error");
    let io = MyError::from(std::io::Error::new(std::io::ErrorKind::Other, "disk gone"));
    assert!(io.text().starts_with("IO Error: "));
    assert!(io.text().ends_with("disk gone"));
    assert_eq!(OtherError::Unknown.text(), "unknown error");
}

#[test]
fn my_error_conversions() {
    assert!(matches!(MyError::from(OtherError::Unknown), MyError::Other));
    assert_eq!(OtherError::from(MyError::Other), OtherError::Unknown);
    assert_eq!(OtherError::from(MyError::EnvironmentVariableNotFound), OtherError::Unknown);
}

#[test]
fn rendering_outcomes_are_passed_on() {
    assert!(show_error(Ok("text".to_string())).is_ok());
    assert!(matches!(show_error(Err(MyError::Other)), Err(MyError::Other)));
    assert_eq!(cl::cli::my_error::handle_error(Ok("text".to_string())), Ok(()));
    assert_eq!(
        cl::cli::my_error::handle_error(Err(MyError::EnvironmentVariableNotFound)),
        Err(OtherError::Unknown)
    );
}

#[test]
fn data_store_texts() {
    assert_eq!(
        DataStoreError::Redaction("prop".to_string()).text(),
        "the data for key `prop` is not available"
    );
    let e = DataStoreError::InvalidHeader { expected: "a".to_string(), found: "b\"c".to_string() };
    assert_eq!(e.text(), "invalid header (expected \"a\", found \"b\\\"c\")");
    assert_eq!(DataStoreError::Unknown.text(), "unknown data store error");
    let d = DataStoreError::from(std::io::Error::new(std::io::ErrorKind::Other, "x"));
    assert_eq!(d.text(), "data store disconnected");
}

#[test]
fn data_store_calls_fail_unknown() {
    assert!(matches!(call_error(), Err(DataStoreError::Unknown)));
    assert!(matches!(handle_error(), Err(DataStoreError::Unknown)));
}

#[test]
fn cool_sum() {
    assert_eq!(cl::cool::sum(2, 3), 5);
    assert_eq!(cl::cool::sum(-7, 3), -4);
}
