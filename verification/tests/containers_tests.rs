use benchserv::containers::{
    run_allowed, Buttons, Connections, Ip, Mode, ModeToggle, Port, TextInputState,
};

#[test]
fn ip_check_accepts_localhost_and_dotted_octets() {
    let ip = Ip::default();
    assert!(ip.check("localhost"));
    assert!(ip.check("127.0.0.1"));
    assert!(ip.check("0.0.0.0"));
    assert!(ip.check("255.255.255.255"));
    // At least four pieces are required, but more are tolerated.
    assert!(ip.check("1.2.3.4.5"));
    // Leading zeros and a leading plus are read the way the number parser
    // reads them.
    assert!(ip.check("0007.8.9.10"));
    assert!(ip.check("+25.0.0.1"));
}

#[test]
fn ip_check_rejects_bad_hosts() {
    let ip = Ip::default();
    assert!(!ip.check(""));
    assert!(!ip.check("1.2.3"));
    assert!(!ip.check("256.1.1.1"));
    assert!(!ip.check("a.b.c.d"));
    assert!(!ip.check("1..2.3"));
    assert!(!ip.check("1.2.3.4x"));
    assert!(!ip.check("localhos"));
    assert!(!ip.check("-1.2.3.4"));
}

#[test]
fn ip_update_flags_bad_text() {
    let mut ip = Ip::default();
    assert_eq!(ip.0.content, "127.0.0.1");
    ip.update(String::from("10.0.0"));
    assert!(ip.0.incorrect);
    assert_eq!(ip.0.content, "10.0.0");
    ip.update(String::from("10.0.0.1"));
    assert!(!ip.0.incorrect);
    // Empty text is not flagged.
    ip.update(String::new());
    assert!(!ip.0.incorrect);
}

#[test]
fn port_check_bounds() {
    let port = Port::default();
    assert_eq!(port.0.content, "80");
    assert!(port.check("0"));
    assert!(port.check("80"));
    assert!(port.check("65535"));
    assert!(port.check("+443"));
    assert!(port.check("007"));
    assert!(!port.check("65536"));
    assert!(!port.check(""));
    assert!(!port.check("-1"));
    assert!(!port.check("8o"));
}

#[test]
fn port_update_flags_bad_text() {
    let mut port = Port::default();
    port.update(String::from("70000"));
    assert!(port.0.incorrect);
    port.update(String::from("8080"));
    assert!(!port.0.incorrect);
    port.update(String::new());
    assert!(!port.0.incorrect);
}

#[test]
fn mode_choices_stay_exclusive() {
    let mut mode = Mode::default();
    assert!(!mode.chosen());
    mode.update(ModeToggle::Constant(true));
    assert!(mode.constant && !mode.increase);
    assert!(mode.chosen());
    mode.update(ModeToggle::Increase(true));
    assert!(!mode.constant && mode.increase);
    mode.update(ModeToggle::Increase(false));
    assert!(!mode.constant && !mode.increase);
    assert!(!mode.chosen());
}

#[test]
fn connections_value_follows_text() {
    let mut c = Connections::default();
    c.update_input(String::from("123"));
    assert_eq!(c.value, 123);
    assert!(!c.text_state.incorrect);
    c.update_input(String::from("+007"));
    assert_eq!(c.value, 7);
    assert!(!c.text_state.incorrect);
    c.update_input(String::from("18446744073709551615"));
    assert_eq!(c.value, u64::MAX);
    // One past the largest representable count is rejected and the value
    // falls back to zero.
    c.update_input(String::from("18446744073709551616"));
    assert_eq!(c.value, 0);
    assert!(c.text_state.incorrect);
    c.update_input(String::from("12x"));
    assert_eq!(c.value, 0);
    assert!(c.text_state.incorrect);
}

#[test]
fn connections_slider_renders_value() {
    let mut c = Connections::default();
    c.update_slider(0);
    assert_eq!(c.text_state.content, "0");
    assert_eq!(c.value, 0);
    c.update_slider(42);
    assert_eq!(c.text_state.content, "42");
    c.update_slider(10_000);
    assert_eq!(c.text_state.content, "10000");
    assert!(!c.text_state.incorrect);
    // The rendered text reads back as the same value.
    let shown = c.text_state.content.clone();
    c.update_input(shown);
    assert_eq!(c.value, 10_000);
    assert!(!c.text_state.incorrect);
}

#[test]
fn buttons_follow_run_phase() {
    let b = Buttons::default();
    let idle = b.layout(false, false, false);
    assert!(idle.run && !idle.stop && !idle.pause && !idle.resume && !idle.warn);
    let running = b.layout(false, true, false);
    assert!(!running.run && running.stop && running.pause && !running.resume);
    let paused = b.layout(false, true, true);
    assert!(!paused.run && paused.stop && !paused.pause && paused.resume);
    let warned = b.layout(true, false, false);
    assert!(warned.warn);
}

#[test]
fn run_allowed_requires_complete_form() {
    let ok = TextInputState::new(String::from("127.0.0.1"), false);
    let port = TextInputState::new(String::from("80"), false);
    let conns = TextInputState::new(String::from("3"), false);
    let mut mode = Mode::default();
    mode.update(ModeToggle::Constant(true));

    assert!(run_allowed(&ok, &port, &conns, &mode, 3));
    assert!(!run_allowed(&ok, &port, &conns, &mode, 0));
    let unchosen = Mode::default();
    assert!(!run_allowed(&ok, &port, &conns, &unchosen, 3));
    let empty = TextInputState::new(String::new(), false);
    assert!(!run_allowed(&empty, &port, &conns, &mode, 3));
    let bad = TextInputState::new(String::from("256.1.1.1"), true);
    assert!(!run_allowed(&bad, &port, &conns, &mode, 3));
}
