use rust_crawler::frontier::Frontier;

#[test]
fn new_frontier_is_empty() {
    let mut frontier = Frontier::new();
    assert!(frontier.is_empty());
    assert_eq!(frontier.len(), 0);
    assert_eq!(frontier.pop(), None);
}

#[test]
fn pop_returns_in_push_order() {
    let mut frontier = Frontier::new();
    frontier.push(String::from("http://a.example/"));
    frontier.push(String::from("http://b.example/"));
    frontier.push(String::from("http://c.example/"));
    assert_eq!(frontier.len(), 3);
    assert_eq!(frontier.pop(), Some(String::from("http://a.example/")));
    assert_eq!(frontier.pop(), Some(String::from("http://b.example/")));
    assert_eq!(frontier.len(), 1);
    assert_eq!(frontier.pop(), Some(String::from("http://c.example/")));
    assert!(frontier.is_empty());
}

#[test]
fn pop_on_empty_changes_nothing() {
    let mut frontier = Frontier::new();
    assert_eq!(frontier.pop(), None);
    frontier.push(String::from("http://a.example/"));
    assert_eq!(frontier.pop(), Some(String::from("http://a.example/")));
    assert_eq!(frontier.pop(), None);
    assert_eq!(frontier.pop(), None);
    assert_eq!(frontier.len(), 0);
}

#[test]
fn frontier_refills_after_it_emptied() {
    let mut frontier = Frontier::new();
    frontier.push(String::from("http://a.example/"));
    assert_eq!(frontier.pop(), Some(String::from("http://a.example/")));
    assert!(frontier.is_empty());
    frontier.push(String::from("http://b.example/"));
    assert!(!frontier.is_empty());
    assert_eq!(frontier.pop(), Some(String::from("http://b.example/")));
}

#[test]
fn frontier_holds_many() {
    let mut frontier = Frontier::new();
    for i in 0..1000 {
        frontier.push(format!("http://a.example/{}", i));
    }
    assert_eq!(frontier.len(), 1000);
    for i in 0..1000 {
        assert_eq!(frontier.pop(), Some(format!("http://a.example/{}", i)));
    }
    assert!(frontier.is_empty());
}
