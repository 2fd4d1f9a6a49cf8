use uuid_service::bus::EventBus;
use uuid_service::messages::{LogMessage, UuidRequest, UuidResponse, WatchResponse};
use uuid_service::prefix_mappings::PrefixMappings;
use uuid_service::server::UuidService;
use uuid_service::session::{SessionAction, SessionEvent, WatchSession};

fn asked(prefix: &str, entity: &str) -> UuidRequest {
    UuidRequest { prefix: prefix.to_string(), entity: entity.to_string() }
}

fn answered(uuid: &str) -> UuidResponse {
    UuidResponse { uuid: uuid.to_string() }
}

#[test]
fn forwarded_message_is_the_log_message() {
    assert_eq!(
        WatchResponse::from_log_message(LogMessage::Request(asked("usr", "alice"))),
        WatchResponse::UuidRequest(asked("usr", "alice"))
    );
    assert_eq!(
        WatchResponse::from_log_message(LogMessage::Response(answered("U_1"))),
        WatchResponse::UuidResponse(answered("U_1"))
    );
}

#[test]
fn messages_are_cloned_whole() {
    let message = LogMessage::Request(asked("usr", "alice"));
    assert_eq!(message.clone(), message);
    let forwarded = WatchResponse::UuidResponse(answered("U_1"));
    assert_eq!(forwarded.clone(), forwarded);
}

#[test]
fn session_opens_under_the_next_handle() {
    let mut bus = EventBus::new(4);
    let first = WatchSession::open(&mut bus).unwrap();
    let second = WatchSession::open(&mut bus).unwrap();
    assert_eq!(first.handle(), 0);
    assert_eq!(second.handle(), 1);
    assert!(first.is_open());
    assert!(bus.is_subscribed(0));
    assert!(bus.is_subscribed(1));
}

#[test]
fn session_waits_while_nothing_is_queued() {
    let mut bus = EventBus::new(4);
    let mut session = WatchSession::open(&mut bus).unwrap();
    assert_eq!(session.step(&mut bus, SessionEvent::Ready), SessionAction::Wait);
    assert_eq!(session.step(&mut bus, SessionEvent::Forwarded), SessionAction::Wait);
    assert!(session.is_open());
    assert!(bus.is_subscribed(session.handle()));
}

#[test]
fn session_forwards_in_publish_order() {
    let mut bus = EventBus::new(4);
    let mut session = WatchSession::open(&mut bus).unwrap();
    bus.publish(LogMessage::Request(asked("usr", "carol")));
    bus.publish(LogMessage::Response(answered("U_c")));
    assert_eq!(
        session.step(&mut bus, SessionEvent::Ready),
        SessionAction::Forward(WatchResponse::UuidRequest(asked("usr", "carol")))
    );
    assert_eq!(
        session.step(&mut bus, SessionEvent::Forwarded),
        SessionAction::Forward(WatchResponse::UuidResponse(answered("U_c")))
    );
    assert_eq!(session.step(&mut bus, SessionEvent::Forwarded), SessionAction::Wait);
    bus.publish(LogMessage::Request(asked("usr", "dave")));
    assert_eq!(
        session.step(&mut bus, SessionEvent::Ready),
        SessionAction::Forward(WatchResponse::UuidRequest(asked("usr", "dave")))
    );
}

#[test]
fn session_stops_and_unsubscribes_when_the_watcher_is_gone() {
    let mut bus = EventBus::new(4);
    let mut session = WatchSession::open(&mut bus).unwrap();
    let other = WatchSession::open(&mut bus).unwrap();
    bus.publish(LogMessage::Response(answered("U_1")));
    bus.publish(LogMessage::Response(answered("U_2")));
    assert_eq!(
        session.step(&mut bus, SessionEvent::Ready),
        SessionAction::Forward(WatchResponse::UuidResponse(answered("U_1")))
    );
    assert_eq!(session.step(&mut bus, SessionEvent::ForwardFailed), SessionAction::Stop);
    assert!(!session.is_open());
    assert!(!bus.is_subscribed(session.handle()));
    assert!(bus.is_subscribed(other.handle()));
    assert_eq!(bus.pending_count(other.handle()), Some(2));
}

#[test]
fn session_stops_and_unsubscribes_at_shutdown() {
    let mut bus = EventBus::new(4);
    let mut session = WatchSession::open(&mut bus).unwrap();
    bus.publish(LogMessage::Response(answered("U_1")));
    assert_eq!(session.step(&mut bus, SessionEvent::Shutdown), SessionAction::Stop);
    assert!(!session.is_open());
    assert!(!bus.is_subscribed(session.handle()));
}

#[test]
fn stopped_session_stays_stopped() {
    let mut bus = EventBus::new(4);
    let mut session = WatchSession::open(&mut bus).unwrap();
    let other = WatchSession::open(&mut bus).unwrap();
    assert_eq!(session.step(&mut bus, SessionEvent::Shutdown), SessionAction::Stop);
    bus.publish(LogMessage::Response(answered("U_1")));
    assert_eq!(session.step(&mut bus, SessionEvent::Ready), SessionAction::Stop);
    assert_eq!(session.step(&mut bus, SessionEvent::Forwarded), SessionAction::Stop);
    assert_eq!(session.step(&mut bus, SessionEvent::ForwardFailed), SessionAction::Stop);
    assert_eq!(session.step(&mut bus, SessionEvent::Shutdown), SessionAction::Stop);
    assert!(!session.is_open());
    assert_eq!(bus.pending_count(other.handle()), Some(1));
}

#[test]
fn session_stops_when_the_bus_has_disconnected_it() {
    let mut bus = EventBus::new(2);
    let mut session = WatchSession::open(&mut bus).unwrap();
    for n in 0..3 {
        bus.publish(LogMessage::Response(answered(&format!("U_{}", n))));
    }
    assert!(!bus.is_subscribed(session.handle()));
    assert_eq!(session.step(&mut bus, SessionEvent::Ready), SessionAction::Stop);
    assert!(!session.is_open());
}

#[test]
fn service_session_yields_the_issuance_as_request_and_response() {
    let table = PrefixMappings::from_entries(vec![("usr".to_string(), "U".to_string())]);
    let mut service = UuidService::new(table);
    let mut session = service.watch().unwrap();
    let response = service.generate_uuid(asked("usr", "carol")).unwrap();
    assert_eq!(
        session.step(&mut service.log_channel, SessionEvent::Ready),
        SessionAction::Forward(WatchResponse::UuidRequest(asked("usr", "carol")))
    );
    assert_eq!(
        session.step(&mut service.log_channel, SessionEvent::Forwarded),
        SessionAction::Forward(WatchResponse::UuidResponse(response))
    );
    assert_eq!(
        session.step(&mut service.log_channel, SessionEvent::Forwarded),
        SessionAction::Wait
    );
}
