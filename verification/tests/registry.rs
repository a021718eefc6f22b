use pretense::registry::Registry;

#[test]
fn new_registry_renders_nothing() {
    let registry = Registry::new();
    assert_eq!(registry.render(), "");
}

#[test]
fn registered_port_is_listed_with_zero() {
    let mut registry = Registry::new();
    registry.register(9000);
    assert_eq!(
        registry.render(),
        "# TYPE pretense_connection counter\npretense_connection{port=\"9000\"} 0\n\n"
    );
}

#[test]
fn register_changes_no_count() {
    let mut registry = Registry::new();
    registry.increment(9000);
    registry.increment(9000);
    registry.register(9000);
    assert_eq!(
        registry.render(),
        "# TYPE pretense_connection counter\npretense_connection{port=\"9000\"} 2\n\n"
    );
}

#[test]
fn increment_starts_an_unseen_port_at_zero() {
    let mut registry = Registry::new();
    registry.increment(443);
    assert_eq!(
        registry.render(),
        "# TYPE pretense_connection counter\npretense_connection{port=\"443\"} 1\n\n"
    );
}

#[test]
fn increment_adds_exactly_one_each_time() {
    let mut registry = Registry::new();
    for seen in 1..=250u64 {
        registry.increment(8080);
        let expected = format!(
            "# TYPE pretense_connection counter\npretense_connection{{port=\"8080\"}} {}\n\n",
            seen
        );
        assert_eq!(registry.render(), expected);
    }
}

#[test]
fn render_lists_every_port_once() {
    let mut registry = Registry::new();
    for _ in 0..3 {
        registry.increment(8001);
    }
    registry.increment(8002);
    let text = registry.render();
    let first = "pretense_connection{port=\"8001\"} 3\n";
    let second = "pretense_connection{port=\"8002\"} 1\n";
    let head = "# TYPE pretense_connection counter\n";
    let one_way = format!("{}{}{}\n", head, first, second);
    let other_way = format!("{}{}{}\n", head, second, first);
    assert!(text == one_way || text == other_way, "got {:?}", text);
}

#[test]
fn ports_are_counted_apart() {
    let mut registry = Registry::new();
    registry.increment(1);
    registry.increment(2);
    registry.increment(2);
    registry.increment(65535);
    registry.increment(0);
    let text = registry.render();
    assert!(text.contains("pretense_connection{port=\"1\"} 1\n"));
    assert!(text.contains("pretense_connection{port=\"2\"} 2\n"));
    assert!(text.contains("pretense_connection{port=\"65535\"} 1\n"));
    assert!(text.contains("pretense_connection{port=\"0\"} 1\n"));
    assert_eq!(text.lines().filter(|line| line.starts_with("pretense_connection{")).count(), 4);
    assert_eq!(text.lines().filter(|line| line.starts_with("# TYPE ")).count(), 1);
}

#[test]
fn render_changes_nothing() {
    let mut registry = Registry::new();
    registry.increment(9000);
    let once = registry.render();
    let twice = registry.render();
    assert_eq!(once, twice);
    registry.increment(9000);
    assert!(registry.render().contains("pretense_connection{port=\"9000\"} 2\n"));
}

#[test]
fn registries_do_not_share_counts() {
    let mut one = Registry::new();
    let mut other = Registry::new();
    one.increment(9000);
    other.register(9001);
    assert!(one.render().contains("pretense_connection{port=\"9000\"} 1\n"));
    assert!(!one.render().contains("9001"));
    assert!(other.render().contains("pretense_connection{port=\"9001\"} 0\n"));
    assert!(!other.render().contains("9000"));
}
