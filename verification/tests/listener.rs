use pretense::listener::{Action, ConnectionEvent, Event, IpAddress, Listener, Phase};
use pretense::registry::Registry;
use pretense::task::{Failure, FailureKind, Task};

fn peer(n: u32) -> Event {
    Event::Connected { remote_ip: IpAddress::V4(0x0a00_0000 + n), remote_port: 40000 + (n as u16) }
}

fn bound(port: u16, registry: &mut Registry) -> Listener {
    let mut listener = Listener::new(port);
    assert_eq!(listener.step(Event::Started, registry), Action::Bind(port));
    assert_eq!(listener.step(Event::BindSucceeded, registry), Action::Accept);
    listener
}

fn family(lines: &str) -> String {
    format!("# TYPE pretense_connection counter\n{}\n", lines)
}

#[test]
fn new_listener_has_no_socket() {
    let listener = Listener::new(8001);
    assert_eq!(listener.port(), 8001);
    assert_eq!(listener.phase(), Phase::Unbound);
}

#[test]
fn started_listener_binds_its_port() {
    let mut registry = Registry::new();
    let mut listener = Listener::new(8001);
    assert_eq!(listener.step(Event::Started, &mut registry), Action::Bind(8001));
    assert_eq!(listener.phase(), Phase::Unbound);
    assert_eq!(listener.port(), 8001);
    assert_eq!(registry.render(), "");
}

#[test]
fn bound_listener_is_known_with_zero_and_accepts() {
    let mut registry = Registry::new();
    let mut listener = Listener::new(8001);
    listener.step(Event::Started, &mut registry);
    assert_eq!(listener.step(Event::BindSucceeded, &mut registry), Action::Accept);
    assert_eq!(listener.phase(), Phase::Bound);
    assert_eq!(registry.render(), family("pretense_connection{port=\"8001\"} 0\n"));
}

#[test]
fn binding_needs_no_start_event() {
    let mut registry = Registry::new();
    let mut listener = Listener::new(8001);
    assert_eq!(listener.step(Event::BindSucceeded, &mut registry), Action::Accept);
    assert_eq!(listener.phase(), Phase::Bound);
}

#[test]
fn connection_is_counted_and_discarded() {
    let mut registry = Registry::new();
    let mut listener = bound(8001, &mut registry);
    let action = listener.step(
        Event::Connected { remote_ip: IpAddress::V4(0xc0a8_0105), remote_port: 51234 },
        &mut registry,
    );
    assert_eq!(
        action,
        Action::Discard(ConnectionEvent {
            local_port: 8001,
            remote_ip: IpAddress::V4(0xc0a8_0105),
            remote_port: 51234,
        })
    );
    assert_eq!(listener.phase(), Phase::Accepting);
    assert_eq!(registry.render(), family("pretense_connection{port=\"8001\"} 1\n"));
}

#[test]
fn connection_over_ipv6_is_counted_too() {
    let mut registry = Registry::new();
    let mut listener = bound(443, &mut registry);
    let action =
        listener.step(Event::Connected { remote_ip: IpAddress::V6(1), remote_port: 9 }, &mut registry);
    assert_eq!(
        action,
        Action::Discard(ConnectionEvent {
            local_port: 443,
            remote_ip: IpAddress::V6(1),
            remote_port: 9,
        })
    );
    assert_eq!(registry.render(), family("pretense_connection{port=\"443\"} 1\n"));
}

#[test]
fn accepting_is_a_steady_state() {
    let mut registry = Registry::new();
    let mut listener = bound(8001, &mut registry);
    for n in 0..20 {
        let action = listener.step(peer(n), &mut registry);
        assert!(matches!(action, Action::Discard(_)));
        assert_eq!(listener.phase(), Phase::Accepting);
    }
}

#[test]
fn count_equals_the_number_of_connections() {
    for total in [0u32, 1, 2, 3, 10, 57, 300] {
        let mut registry = Registry::new();
        let mut listener = bound(9000, &mut registry);
        for n in 0..total {
            listener.step(peer(n), &mut registry);
        }
        let line = format!("pretense_connection{{port=\"9000\"}} {}\n", total);
        assert_eq!(registry.render(), family(&line));
    }
}

#[test]
fn count_never_goes_down() {
    let mut registry = Registry::new();
    let mut listener = bound(9000, &mut registry);
    let mut last: u64 = 0;
    for n in 0..50 {
        listener.step(peer(n), &mut registry);
        let text = registry.render();
        let line = text.lines().find(|line| line.starts_with("pretense_connection{")).unwrap();
        let count: u64 = line.rsplit(' ').next().unwrap().parse().unwrap();
        assert!(count >= last);
        assert_eq!(count, last + 1);
        last = count;
    }
}

#[test]
fn bind_failure_ends_the_listener_and_names_the_port() {
    let mut registry = Registry::new();
    let mut listener = Listener::new(1);
    assert_eq!(listener.step(Event::Started, &mut registry), Action::Bind(1));
    let action = listener.step(Event::BindFailed(String::from("Permission denied")), &mut registry);
    assert_eq!(
        action,
        Action::Abort(Failure {
            task: Task::Listener(1),
            kind: FailureKind::Bind,
            detail: String::from("Permission denied"),
        })
    );
    assert_eq!(listener.phase(), Phase::Failed);
    assert_eq!(registry.render(), "");
}

#[test]
fn accept_failure_is_fatal_by_design() {
    let mut registry = Registry::new();
    let mut listener = bound(8001, &mut registry);
    listener.step(peer(1), &mut registry);
    let action =
        listener.step(Event::AcceptFailed(String::from("Too many open files")), &mut registry);
    assert_eq!(
        action,
        Action::Abort(Failure {
            task: Task::Listener(8001),
            kind: FailureKind::Accept,
            detail: String::from("Too many open files"),
        })
    );
    assert_eq!(listener.phase(), Phase::Failed);
    assert_eq!(registry.render(), family("pretense_connection{port=\"8001\"} 1\n"));
}

#[test]
fn accept_failure_before_any_connection_is_fatal_too() {
    let mut registry = Registry::new();
    let mut listener = bound(8001, &mut registry);
    let action = listener.step(Event::AcceptFailed(String::from("reset")), &mut registry);
    assert_eq!(
        action,
        Action::Abort(Failure {
            task: Task::Listener(8001),
            kind: FailureKind::Accept,
            detail: String::from("reset"),
        })
    );
    assert_eq!(listener.phase(), Phase::Failed);
}

#[test]
fn failed_listener_takes_nothing_more() {
    let mut registry = Registry::new();
    let mut listener = bound(8001, &mut registry);
    listener.step(Event::AcceptFailed(String::from("reset")), &mut registry);
    let before = registry.render();
    for event in [
        Event::Started,
        Event::BindSucceeded,
        Event::BindFailed(String::from("x")),
        peer(3),
        Event::AcceptFailed(String::from("y")),
    ] {
        assert_eq!(listener.step(event, &mut registry), Action::Nothing);
        assert_eq!(listener.phase(), Phase::Failed);
        assert_eq!(registry.render(), before);
    }
}

#[test]
fn unbound_listener_counts_no_connection() {
    let mut registry = Registry::new();
    let mut listener = Listener::new(8001);
    assert_eq!(listener.step(peer(1), &mut registry), Action::Nothing);
    assert_eq!(
        listener.step(Event::AcceptFailed(String::from("x")), &mut registry),
        Action::Nothing
    );
    assert_eq!(listener.phase(), Phase::Unbound);
    assert_eq!(registry.render(), "");
}

#[test]
fn listener_with_a_socket_does_not_bind_again() {
    let mut registry = Registry::new();
    let mut listener = bound(8001, &mut registry);
    listener.step(peer(1), &mut registry);
    let before = registry.render();
    for event in [Event::Started, Event::BindSucceeded, Event::BindFailed(String::from("x"))] {
        assert_eq!(listener.step(event, &mut registry), Action::Nothing);
        assert_eq!(listener.phase(), Phase::Accepting);
        assert_eq!(registry.render(), before);
    }
}

#[test]
fn listeners_count_apart_in_one_registry() {
    let mut registry = Registry::new();
    let mut first = bound(8001, &mut registry);
    let mut second = bound(8002, &mut registry);
    first.step(peer(1), &mut registry);
    second.step(peer(2), &mut registry);
    first.step(peer(3), &mut registry);
    first.step(peer(4), &mut registry);
    let text = registry.render();
    assert!(text.contains("pretense_connection{port=\"8001\"} 3\n"));
    assert!(text.contains("pretense_connection{port=\"8002\"} 1\n"));
}

#[test]
fn one_listener_failing_leaves_the_counts_of_the_others() {
    let mut registry = Registry::new();
    let mut first = bound(8001, &mut registry);
    let mut second = Listener::new(8002);
    first.step(peer(1), &mut registry);
    second.step(Event::Started, &mut registry);
    second.step(Event::BindFailed(String::from("Address already in use")), &mut registry);
    assert_eq!(registry.render(), family("pretense_connection{port=\"8001\"} 1\n"));
}
