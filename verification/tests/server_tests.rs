use onepage::{ReloadBus, SiteServer, WatchEvent};

#[test]
fn server_new_parses_address() {
    let s = SiteServer::new("127.0.0.1:8080");
    assert_eq!(s.host, "127.0.0.1");
    assert_eq!(s.port, 8080);
}

#[test]
fn server_new_bad_port_defaults_to_zero() {
    let s = SiteServer::new("localhost:what");
    assert_eq!(s.host, "localhost");
    assert_eq!(s.port, 0);

    let s = SiteServer::new("localhost:");
    assert_eq!(s.port, 0);

    let s = SiteServer::new("localhost:70000");
    assert_eq!(s.port, 0);
}

#[test]
fn server_new_takes_middle_segment() {
    let s = SiteServer::new("a:81:99");
    assert_eq!(s.host, "a");
    assert_eq!(s.port, 81);
}

#[test]
fn parse_u16_like_std() {
    assert_eq!(onepage::parse_u16("8080"), "8080".parse::<u16>().ok());
    assert_eq!(onepage::parse_u16("+80"), "+80".parse::<u16>().ok());
    assert_eq!(onepage::parse_u16(""), "".parse::<u16>().ok());
    assert_eq!(onepage::parse_u16("+"), "+".parse::<u16>().ok());
    assert_eq!(onepage::parse_u16("65535"), "65535".parse::<u16>().ok());
    assert_eq!(onepage::parse_u16("65536"), "65536".parse::<u16>().ok());
    assert_eq!(onepage::parse_u16("0x10"), "0x10".parse::<u16>().ok());
    assert_eq!(onepage::parse_u16("-1"), "-1".parse::<u16>().ok());
    assert_eq!(onepage::parse_u16("007"), "007".parse::<u16>().ok());
    assert_eq!(
        onepage::parse_u16("999999999999999999999"),
        "999999999999999999999".parse::<u16>().ok()
    );
}

#[test]
fn watch_events_trigger_rebuilds() {
    assert!(onepage::should_rebuild(&WatchEvent::Create("pages/a.md".to_string())));
    assert!(onepage::should_rebuild(&WatchEvent::Write("pages/a.md".to_string())));
    assert!(onepage::should_rebuild(&WatchEvent::Remove("pages/a.md".to_string())));
    assert!(onepage::should_rebuild(&WatchEvent::Rename(
        "pages/a.md".to_string(),
        "pages/b.md".to_string()
    )));
    assert!(!onepage::should_rebuild(&WatchEvent::Other));
}

#[test]
fn reload_fanout() {
    // Three attached connections, one rebuild: each receives exactly one
    // signal; a connection attaching after the publish receives none.
    let mut bus = ReloadBus::new();
    let mut subs = vec![bus.attach(), bus.attach(), bus.attach()];
    bus.publish();
    let mut late = bus.attach();
    for sub in subs.iter_mut() {
        assert!(sub.poll(&bus));
        assert!(!sub.poll(&bus));
    }
    assert!(!late.poll(&bus));
    bus.publish();
    assert!(late.poll(&bus));
    assert!(!late.poll(&bus));
}

#[test]
fn reload_no_replay() {
    let mut bus = ReloadBus::new();
    bus.publish();
    bus.publish();
    let mut sub = bus.attach();
    assert!(!sub.poll(&bus));
}

#[test]
fn server_default_address() {
    let s = SiteServer::default();
    assert_eq!(s.host, "127.0.0.1");
    assert_eq!(s.port, 8080);
}
