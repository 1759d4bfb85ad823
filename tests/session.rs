use receipt_printer_emulator::session::{Action, Event, Session};

#[test]
fn bytes_wait_until_a_cut_arrives() {
    let mut s = Session::new(None);
    assert!(matches!(s.on_event(Event::Received(b"ab".to_vec())), Action::Wait));
    match s.on_event(Event::Received(vec![0x1D, b'V', 0])) {
        Action::Print(job) => assert_eq!(job, vec![b'a', b'b', 0x1D, b'V', 0]),
        _ => panic!("expected a receipt"),
    }
    assert!(matches!(s.on_event(Event::Closed), Action::Close));
}

#[test]
fn close_prints_pending_bytes() {
    let mut s = Session::new(None);
    s.on_event(Event::Received(b"x".to_vec()));
    match s.on_event(Event::Closed) {
        Action::PrintAndClose(job) => assert_eq!(job, b"x".to_vec()),
        _ => panic!("expected a final receipt"),
    }
}

#[test]
fn idle_timeout_prints_pending_bytes() {
    let mut s = Session::new(Some(3));
    s.on_event(Event::Received(b"x".to_vec()));
    assert!(matches!(s.on_event(Event::Tick(2)), Action::Wait));
    match s.on_event(Event::Tick(3)) {
        Action::Print(job) => assert_eq!(job, b"x".to_vec()),
        _ => panic!("expected a receipt"),
    }
    assert!(matches!(s.on_event(Event::Tick(10)), Action::Wait));
}

#[test]
fn no_timeout_never_prints_on_tick() {
    let mut s = Session::new(None);
    s.on_event(Event::Received(b"x".to_vec()));
    assert!(matches!(s.on_event(Event::Tick(1000)), Action::Wait));
}

#[test]
fn failed_read_drops_pending_bytes() {
    let mut s = Session::new(Some(1));
    s.on_event(Event::Received(b"x".to_vec()));
    assert!(matches!(s.on_event(Event::Failed), Action::Close));
}
