use acme_dns::error::Error;
use acme_dns::persist::{FilePersist, PersistKind};
use acme_dns::service::{start, step, Action, Event, State, DNS_PORT, READ_TIMEOUT_SECS};

#[test]
fn a_responder_stopped_at_once_ends_after_one_timeout() {
    let (state, action) = start();
    assert_eq!((state, action), (State::Starting, Action::Bind));
    let (state, action) = step(state, Event::Bound);
    assert_eq!((state, action), (State::Listening, Action::Receive));
    let (state, action) = step(state, Event::Timeout);
    assert_eq!((state, action), (State::Listening, Action::PollStop));
    let (state, action) = step(state, Event::StopRequested);
    assert_eq!((state, action), (State::Stopping, Action::Release));
    let (state, action) = step(state, Event::Released);
    assert_eq!((state, action), (State::Stopped, Action::Halt));
    assert_eq!(READ_TIMEOUT_SECS, 1);
    assert_eq!(DNS_PORT, 53);
}

#[test]
fn a_failed_bind_is_fatal() {
    assert_eq!(step(State::Starting, Event::BindFailed), (State::Stopped, Action::Abort));
}

#[test]
fn a_datagram_is_answered_and_the_stop_signal_polled() {
    assert_eq!(step(State::Listening, Event::Datagram), (State::Processing, Action::Answer));
    for outcome in [
        Event::Replied,
        Event::SendFailed,
        Event::Ignored(Error::PackingError),
        Event::Ignored(Error::Utf8Error),
        Event::Ignored(Error::RequestError),
        Event::Ignored(Error::IoError),
    ] {
        assert_eq!(step(State::Processing, outcome), (State::Listening, Action::PollStop));
    }
    assert_eq!(step(State::Listening, Event::NoStopRequest), (State::Listening, Action::Receive));
}

#[test]
fn an_event_that_is_not_waited_for_changes_nothing() {
    assert_eq!(step(State::Starting, Event::Datagram), (State::Starting, Action::Bind));
    assert_eq!(step(State::Listening, Event::Bound), (State::Listening, Action::Receive));
    assert_eq!(step(State::Listening, Event::Replied), (State::Listening, Action::Receive));
    assert_eq!(step(State::Processing, Event::Timeout), (State::Processing, Action::Answer));
    assert_eq!(step(State::Processing, Event::StopRequested), (State::Processing, Action::Answer));
    assert_eq!(step(State::Stopping, Event::Datagram), (State::Stopping, Action::Release));
}

#[test]
fn a_stopped_responder_stays_stopped() {
    for event in [
        Event::Bound,
        Event::BindFailed,
        Event::Datagram,
        Event::Timeout,
        Event::Replied,
        Event::SendFailed,
        Event::Ignored(Error::RequestError),
        Event::StopRequested,
        Event::NoStopRequest,
        Event::Released,
    ] {
        assert_eq!(step(State::Stopped, event), (State::Stopped, Action::Halt));
    }
}

#[test]
fn files_are_named_after_the_domain_and_what_they_hold() {
    let store = FilePersist::new("/etc/acme-certs", "example.com");
    assert_eq!(store.dir(), "/etc/acme-certs");
    assert_eq!(store.domain(), "example.com");
    assert_eq!(store.file_name_of(PersistKind::Certificate), "example.com.crt");
    assert_eq!(store.file_name_of(PersistKind::PrivateKey), "example.com.key");
    assert_eq!(store.file_name_of(PersistKind::AccountPrivateKey), "example.com_account.key");
}

#[test]
fn a_wildcard_is_spelled_out_in_file_names() {
    let store = FilePersist::new("out", "*.example.com");
    assert_eq!(store.file_name_of(PersistKind::Certificate), "STAR.example.com.crt");
    assert_eq!(store.file_name_of(PersistKind::AccountPrivateKey), "STAR.example.com_account.key");
    let odd = FilePersist::new("", "**a*é*");
    assert_eq!(odd.file_name_of(PersistKind::PrivateKey), "STARSTARaSTARéSTAR.key");
    let empty = FilePersist::new("", "");
    assert_eq!(empty.file_name_of(PersistKind::PrivateKey), ".key");
    assert_eq!(store.clone().domain(), "*.example.com");
}

#[test]
fn only_private_keys_are_kept_from_other_users() {
    assert!(!FilePersist::owner_only(PersistKind::Certificate));
    assert!(FilePersist::owner_only(PersistKind::PrivateKey));
    assert!(FilePersist::owner_only(PersistKind::AccountPrivateKey));
}
