use rhythm_engine::foundation::chart::playlist::SignalResponse;

#[test]
fn playlist_signal_toggle_flips() {
    let mut s = SignalResponse::Toggle(7, false);
    s.respond();
    assert_eq!(s, SignalResponse::Toggle(7, true));
    s.respond();
    assert_eq!(s, SignalResponse::Toggle(7, false));
}

#[test]
fn playlist_signal_commence_and_halt() {
    let mut c = SignalResponse::Commence(1, false);
    c.respond();
    c.respond();
    assert_eq!(c, SignalResponse::Commence(1, true));
    let mut h = SignalResponse::Halt(1, true);
    h.respond();
    assert_eq!(h, SignalResponse::Halt(1, false));
    let mut i = SignalResponse::Ignore(1);
    i.respond();
    assert_eq!(i, SignalResponse::Ignore(1));
}

#[test]
fn playlist_signal_unwrap() {
    let mut s = SignalResponse::Halt(String::from("a"), true);
    assert_eq!(s.unwrap(), "a");
    s.unwrap_mut().push('b');
    assert_eq!(s, SignalResponse::Halt(String::from("ab"), true));
}
