use jukctl::session::{Action, Event, Reply, Request, Session, Stage};
use jukctl::Error;

fn send(a: &Action) -> Option<Request> {
    match a {
        Action::Send(r) => Some(*r),
        _ => None,
    }
}

#[test]
fn smooth_run_without_homing() {
    let (mut s, a) = Session::new(false);
    assert_eq!(send(&a), Some(Request::ConfigGet));
    assert!(matches!(s.handle(Event::Reply(Reply::Config)), Action::Plan));
    assert_eq!(s.stage(), Stage::Planning);
    let a = s.handle(Event::Planned(3));
    assert_eq!(send(&a), Some(Request::Command(0)));
    let a = s.handle(Event::Reply(Reply::Acked));
    assert_eq!(send(&a), Some(Request::Command(1)));
    let a = s.handle(Event::Reply(Reply::Acked));
    assert_eq!(send(&a), Some(Request::Command(2)));
    assert!(matches!(s.handle(Event::Reply(Reply::Acked)), Action::Done));
    assert_eq!(s.stage(), Stage::Finished);
    assert!(!s.accepts(Event::Reply(Reply::Acked)));
}

#[test]
fn smooth_run_with_homing() {
    let (mut s, _) = Session::new(true);
    s.handle(Event::Reply(Reply::Config));
    let a = s.handle(Event::Planned(1));
    assert_eq!(send(&a), Some(Request::Home));
    let a = s.handle(Event::Reply(Reply::Acked));
    assert_eq!(send(&a), Some(Request::Command(0)));
    assert!(matches!(s.handle(Event::Reply(Reply::Acked)), Action::Done));
}

#[test]
fn empty_plan_finishes_at_once() {
    let (mut s, _) = Session::new(false);
    s.handle(Event::Reply(Reply::Config));
    assert!(matches!(s.handle(Event::Planned(0)), Action::Done));
}

#[test]
fn wrong_reply_to_config_request() {
    for r in [Reply::Acked, Reply::Refused, Reply::Other] {
        let (mut s, _) = Session::new(false);
        assert!(matches!(
            s.handle(Event::Reply(r)),
            Action::Abort(Error::UnexpectedResponse)
        ));
        assert_eq!(s.stage(), Stage::Aborted);
        assert!(!s.accepts(Event::Planned(1)));
    }
}

#[test]
fn homing_refused_or_unexpected() {
    let (mut s, _) = Session::new(true);
    s.handle(Event::Reply(Reply::Config));
    s.handle(Event::Planned(2));
    assert!(matches!(
        s.handle(Event::Reply(Reply::Refused)),
        Action::Abort(Error::DeviceError)
    ));
    let (mut s, _) = Session::new(true);
    s.handle(Event::Reply(Reply::Config));
    s.handle(Event::Planned(2));
    assert!(matches!(
        s.handle(Event::Reply(Reply::Config)),
        Action::Abort(Error::UnexpectedResponse)
    ));
}

#[test]
fn command_refused_mid_run() {
    let (mut s, _) = Session::new(false);
    s.handle(Event::Reply(Reply::Config));
    s.handle(Event::Planned(5));
    s.handle(Event::Reply(Reply::Acked));
    assert!(matches!(
        s.handle(Event::Reply(Reply::Refused)),
        Action::Abort(Error::DeviceError)
    ));
    assert_eq!(s.stage(), Stage::Aborted);
}

#[test]
fn accepts_only_awaited_events() {
    let (mut s, _) = Session::new(false);
    assert!(s.accepts(Event::Reply(Reply::Other)));
    assert!(!s.accepts(Event::Planned(1)));
    s.handle(Event::Reply(Reply::Config));
    assert!(s.accepts(Event::Planned(1)));
    assert!(!s.accepts(Event::Reply(Reply::Acked)));
}
