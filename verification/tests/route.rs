use service_bootstrap::route::{root, Reply};

#[test]
fn root_answers_with_the_greeting() {
    assert_eq!(root(), Reply { status: 200, body: "Hello, World!" });
}

#[test]
fn root_answers_the_same_every_time() {
    let first = root();
    for _ in 0..100 {
        let again = root();
        assert_eq!(again.status, 200);
        assert_eq!(again.body, "Hello, World!");
        assert_eq!(again, first);
    }
}
