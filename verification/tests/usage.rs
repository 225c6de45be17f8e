use seq::error::usage;

#[test]
fn test_usage() {
    assert_eq!(
        usage(),
        "Usage: seq [-w] [-s string] [-t string] [first [incr]] last",
    );
}
