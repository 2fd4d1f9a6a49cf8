use uuid_service::bus::TryRecvError;
use uuid_service::identifier::{alphabet, compose, random_suffix, ALPHABET_SIZE, SUFFIX_LENGTH};
use uuid_service::messages::{LogMessage, UuidRequest, UuidResponse};
use uuid_service::prefix_mappings::PrefixMappings;
use uuid_service::server::{IssueError, UuidService, LOG_CHANNEL_CAPACITY};

fn service() -> UuidService {
    UuidService::new(PrefixMappings::from_entries(vec![
        ("usr".to_string(), "U".to_string()),
        ("org".to_string(), "ORG".to_string()),
    ]))
}

fn request(prefix: &str, entity: &str) -> UuidRequest {
    UuidRequest { prefix: prefix.to_string(), entity: entity.to_string() }
}

fn is_symbol(c: char) -> bool {
    c.is_ascii_digit() || c.is_ascii_uppercase() || c.is_ascii_lowercase()
}

fn has_form(identifier: &str, code: &str) -> bool {
    let head = format!("{}_", code);
    match identifier.strip_prefix(head.as_str()) {
        Some(suffix) => suffix.chars().count() == 22 && suffix.chars().all(is_symbol),
        None => false,
    }
}

#[test]
fn alphabet_is_digits_then_upper_then_lower_case() {
    let symbols: String = alphabet().into_iter().collect();
    assert_eq!(symbols, "0123456789ABCDEFGHIJKLMNOPQRSTUVWXYZabcdefghijklmnopqrstuvwxyz");
    assert_eq!(ALPHABET_SIZE, 62);
    assert_eq!(SUFFIX_LENGTH, 22);
}

#[test]
fn random_suffix_has_22_symbols_of_the_alphabet() {
    for _ in 0..50 {
        let suffix = random_suffix();
        assert_eq!(suffix.chars().count(), 22);
        assert!(suffix.chars().all(is_symbol));
    }
}

#[test]
fn random_suffixes_differ() {
    assert_ne!(random_suffix(), random_suffix());
}

#[test]
fn compose_joins_code_and_suffix_with_an_underscore() {
    assert_eq!(compose("U", "0123456789ABCDEFGHIJKL"), "U_0123456789ABCDEFGHIJKL");
    assert_eq!(compose("", "x"), "_x");
    assert_eq!(compose("a_b", ""), "a_b_");
}

#[test]
fn respond_uses_the_code_of_the_prefix() {
    let service = service();
    assert_eq!(
        service.respond(&request("org", "acme"), "abcdefghijklmnopqrstuv"),
        Ok(UuidResponse { uuid: "ORG_abcdefghijklmnopqrstuv".to_string() })
    );
    assert_eq!(
        service.respond(&request("xyz", "acme"), "abcdefghijklmnopqrstuv"),
        Err(IssueError::PrefixNotFound)
    );
}

#[test]
fn issue_returns_code_underscore_suffix() {
    let service = service();
    for _ in 0..20 {
        let response = service.issue(&request("usr", "alice")).unwrap();
        assert!(has_form(&response.uuid, "U"));
        let response = service.issue(&request("org", "acme")).unwrap();
        assert!(has_form(&response.uuid, "ORG"));
    }
}

#[test]
fn issue_refuses_an_unmapped_prefix() {
    let service = service();
    assert_eq!(service.issue(&request("xyz", "bob")), Err(IssueError::PrefixNotFound));
    assert_eq!(service.issue(&request("", "bob")), Err(IssueError::PrefixNotFound));
    assert_eq!(service.issue(&request("U", "bob")), Err(IssueError::PrefixNotFound));
    assert_eq!(IssueError::PrefixNotFound.message(), "Prefix mapping not found");
}

#[test]
fn issued_identifiers_differ() {
    let service = service();
    let first = service.issue(&request("usr", "alice")).unwrap();
    let second = service.issue(&request("usr", "alice")).unwrap();
    assert_ne!(first.uuid, second.uuid);
}

#[test]
fn new_service_has_an_empty_bus() {
    let service = service();
    assert_eq!(LOG_CHANNEL_CAPACITY, 100);
    assert_eq!(service.log_channel.capacity(), 100);
    assert!(!service.log_channel.is_subscribed(0));
    assert_eq!(service.prefix_mappings.get("usr"), Some(&"U".to_string()));
}

#[test]
fn refused_request_publishes_nothing() {
    let mut service = service();
    let session = service.watch().unwrap();
    assert_eq!(service.generate_uuid(request("xyz", "bob")), Err(IssueError::PrefixNotFound));
    assert_eq!(service.log_channel.pending_count(session.handle()), Some(0));
    assert_eq!(service.log_channel.try_recv(session.handle()), Err(TryRecvError::Empty));
}

#[test]
fn watcher_sees_request_then_response_of_each_issuance() {
    let mut service = service();
    let id = service.watch().unwrap().handle();
    let mut responses = Vec::new();
    for n in 0..5 {
        let prefix = if n % 2 == 0 { "usr" } else { "org" };
        let entity = format!("entity{}", n);
        responses.push(service.generate_uuid(request(prefix, &entity)).unwrap());
        assert_eq!(
            service.generate_uuid(request("nope", &entity)),
            Err(IssueError::PrefixNotFound)
        );
    }
    assert_eq!(service.log_channel.pending_count(id), Some(10));
    for n in 0..5 {
        let prefix = if n % 2 == 0 { "usr" } else { "org" };
        let entity = format!("entity{}", n);
        assert_eq!(
            service.log_channel.try_recv(id),
            Ok(LogMessage::Request(request(prefix, &entity)))
        );
        assert_eq!(
            service.log_channel.try_recv(id),
            Ok(LogMessage::Response(responses[n].clone()))
        );
    }
    assert_eq!(service.log_channel.try_recv(id), Err(TryRecvError::Empty));
}

#[test]
fn watcher_that_joins_later_sees_only_the_second_pair() {
    let mut service = service();
    service.generate_uuid(request("usr", "alice")).unwrap();
    let id = service.watch().unwrap().handle();
    assert_eq!(service.log_channel.try_recv(id), Err(TryRecvError::Empty));
    let second = service.generate_uuid(request("usr", "bob")).unwrap();
    assert_eq!(
        service.log_channel.try_recv(id),
        Ok(LogMessage::Request(request("usr", "bob")))
    );
    assert_eq!(service.log_channel.try_recv(id), Ok(LogMessage::Response(second)));
    assert_eq!(service.log_channel.try_recv(id), Err(TryRecvError::Empty));
}

#[test]
fn publish_hands_out_the_pair_in_order() {
    let mut service = service();
    let id = service.watch().unwrap().handle();
    let asked = request("usr", "alice");
    let answered = service.issue(&asked).unwrap();
    assert_eq!(service.log_channel.pending_count(id), Some(0));
    service.publish(asked.clone(), answered.clone());
    assert_eq!(service.log_channel.try_recv(id), Ok(LogMessage::Request(asked)));
    assert_eq!(service.log_channel.try_recv(id), Ok(LogMessage::Response(answered)));
    assert_eq!(service.log_channel.try_recv(id), Err(TryRecvError::Empty));
}

#[test]
fn slow_watcher_does_not_stop_issuance() {
    let mut service = service();
    let slow = service.watch().unwrap().handle();
    let quick = service.watch().unwrap().handle();
    for n in 0..50 {
        let response = service.generate_uuid(request("usr", &format!("e{}", n))).unwrap();
        assert!(has_form(&response.uuid, "U"));
        assert!(service.log_channel.try_recv(quick).is_ok());
        assert!(service.log_channel.try_recv(quick).is_ok());
    }
    assert_eq!(service.log_channel.pending_count(slow), Some(100));
    let response = service.generate_uuid(request("usr", "one more")).unwrap();
    assert!(has_form(&response.uuid, "U"));
    assert!(!service.log_channel.is_subscribed(slow));
    assert!(service.log_channel.is_subscribed(quick));
    assert_eq!(
        service.log_channel.try_recv(quick),
        Ok(LogMessage::Request(request("usr", "one more")))
    );
    assert_eq!(service.log_channel.try_recv(quick), Ok(LogMessage::Response(response)));
    for n in 0..10 {
        let response = service.generate_uuid(request("org", &format!("later{}", n))).unwrap();
        assert!(has_form(&response.uuid, "ORG"));
    }
    assert_eq!(service.generate_uuid(request("xyz", "bob")), Err(IssueError::PrefixNotFound));
}

#[test]
fn scenario_issue_reject_and_watch() {
    let mut service = UuidService::new(PrefixMappings::new("usr: U\n").unwrap());
    let alice = service.generate_uuid(request("usr", "alice")).unwrap();
    assert!(has_form(&alice.uuid, "U"));
    assert_eq!(alice.uuid.len(), 24);
    assert_eq!(service.generate_uuid(request("xyz", "bob")), Err(IssueError::PrefixNotFound));
    let id = service.watch().unwrap().handle();
    let carol = service.generate_uuid(request("usr", "carol")).unwrap();
    assert!(has_form(&carol.uuid, "U"));
    assert_eq!(
        service.log_channel.try_recv(id),
        Ok(LogMessage::Request(request("usr", "carol")))
    );
    match service.log_channel.try_recv(id) {
        Ok(LogMessage::Response(response)) => {
            assert!(has_form(&response.uuid, "U"));
            assert_eq!(response, carol);
        }
        other => panic!("expected a response, got {:?}", other),
    }
    assert_eq!(service.log_channel.try_recv(id), Err(TryRecvError::Empty));
}
