use apns_mock::connection::{after_frames, handle_bytes, CloseReason, ConnectionStep};
use apns_mock::servers::command_for;
use apns_mock::stateholder::get_state_command;
use apns_mock::frame::NotificationReadError;
use apns_mock::notifications::{Notification, NotificationReader};
use apns_mock::servers::{APNSServer, NotificationHttpServer, QueryReply, RequestMethod};
use apns_mock::stateholder::{state_of_response, StateHolder, StateHolderCommand, StateHolderResponse};
use std::sync::mpsc::channel;

fn frame_for(identifier: u32) -> Vec<u8> {
    let mut body = vec![1, 0, 1, 0xaa, 2, 0, 2, b'{', b'}', 3, 0, 4];
    body.extend_from_slice(&identifier.to_be_bytes());
    body.extend_from_slice(&[4, 0, 4, 0, 0, 0, 0, 5, 0, 1, 1]);
    let mut out = vec![2];
    out.extend_from_slice(&(body.len() as u32).to_be_bytes());
    out.extend_from_slice(&body);
    out
}

fn notification(identifier: u32) -> Notification {
    NotificationReader::new(frame_for(identifier)).read_notification().ok().unwrap()
}

fn ids(ns: &[Notification]) -> Vec<u32> {
    ns.iter().map(|n| n.identifier()).collect()
}

#[test]
fn appends_keep_their_order() {
    let (mut holder, _interface) = StateHolder::new();
    for id in [1, 2, 3] {
        holder.handle(StateHolderCommand::Append(notification(id)));
    }
    assert_eq!(ids(&holder.snapshot()), vec![1, 2, 3]);
}

#[test]
fn clear_empties_and_append_then_holds_one() {
    let (mut holder, _interface) = StateHolder::new();
    holder.handle(StateHolderCommand::Append(notification(1)));
    holder.handle(StateHolderCommand::Append(notification(2)));
    holder.handle(StateHolderCommand::Clear);
    assert!(holder.snapshot().is_empty());
    holder.handle(StateHolderCommand::Append(notification(9)));
    assert_eq!(ids(&holder.snapshot()), vec![9]);
}

#[test]
fn get_state_sends_a_copy_back() {
    let (mut holder, _interface) = StateHolder::new();
    holder.handle(StateHolderCommand::Append(notification(4)));
    let (tx, rx) = channel();
    holder.serve(StateHolderCommand::GetState(tx));
    holder.handle(StateHolderCommand::Append(notification(5)));
    let copy = state_of_response(rx.recv().ok());
    assert_eq!(ids(&copy), vec![4]);
    assert_eq!(ids(&holder.snapshot()), vec![4, 5]);
}

#[test]
fn only_get_state_is_answered() {
    let (mut holder, _interface) = StateHolder::new();
    assert!(holder.handle(StateHolderCommand::Append(notification(6))).is_none());
    let (tx, _rx) = channel();
    let reply = holder.handle(get_state_command(tx)).expect("GetState is answered");
    let StateHolderResponse::State(ns) = reply.response;
    assert_eq!(ids(&ns), vec![6]);
    assert!(holder.handle(StateHolderCommand::Clear).is_none());
}

#[test]
fn get_state_without_a_holder_is_empty() {
    let (holder, interface) = StateHolder::new();
    drop(holder);
    assert!(interface.get_state().is_empty());
    let query = NotificationHttpServer::new(interface, "127.0.0.1:8081".to_string());
    match query.handle_request(RequestMethod::Other) {
        QueryReply::State(ns) => assert!(ns.is_empty()),
        QueryReply::Cleared => panic!("a read is not a clear"),
    }
}

#[test]
fn each_method_sends_its_command() {
    let (tx, _rx) = channel();
    assert!(matches!(command_for(RequestMethod::Delete, tx), StateHolderCommand::Clear));
    let (tx, _rx) = channel();
    assert!(matches!(command_for(RequestMethod::Other, tx), StateHolderCommand::GetState(_)));
}

#[test]
fn missing_response_is_an_empty_list() {
    assert!(state_of_response(None).is_empty());
    let r = state_of_response(Some(StateHolderResponse::State(vec![notification(3)])));
    assert_eq!(ids(&r), vec![3]);
}

#[test]
fn interfaces_deliver_commands_to_the_holder() {
    let (mut holder, interface) = StateHolder::new();
    let other = interface.clone();
    interface.add_notification(notification(1));
    other.add_notification(notification(2));
    interface.add_notification(notification(3));
    other.clear();
    other.add_notification(notification(4));
    for _ in 0..5 {
        let command = holder.next_command().expect("a command is queued");
        holder.serve(command);
    }
    assert_eq!(ids(&holder.snapshot()), vec![4]);
}

#[test]
fn concurrent_connections_lose_and_duplicate_nothing() {
    let (mut holder, interface) = StateHolder::new();
    let connections: Vec<_> = (0..3).map(|_| interface.clone()).collect();
    for round in 0..4u32 {
        for (k, c) in connections.iter().enumerate() {
            c.add_notification(notification(round * 10 + k as u32));
        }
    }
    for _ in 0..12 {
        let command = holder.next_command().expect("a command is queued");
        holder.serve(command);
    }
    let mut got = ids(&holder.snapshot());
    got.sort();
    let mut want: Vec<u32> = (0..4u32).flat_map(|r| (0..3u32).map(move |k| r * 10 + k)).collect();
    want.sort();
    assert_eq!(got, want);
}

#[test]
fn connection_steps() {
    let eof = NotificationReadError::NotificationReadEndOfFile;
    assert_eq!(after_frames(eof, false), ConnectionStep::ReadMore);
    assert_eq!(after_frames(eof, true), ConnectionStep::Close(CloseReason::EndOfStream));
    let bad = NotificationReadError::NotificationReadUnknownItem(9);
    assert_eq!(after_frames(bad, false), ConnectionStep::Close(CloseReason::Failed(bad)));
}

#[test]
fn bytes_of_a_connection_reach_the_holder() {
    let mut reader = NotificationReader::new(vec![]);
    let mut bytes = frame_for(1);
    bytes.extend(frame_for(2));
    let (first, second) = bytes.split_at(30);
    let (ns, step) = handle_bytes(&mut reader, first, false);
    assert!(ns.is_empty());
    assert_eq!(step, ConnectionStep::ReadMore);
    let (ns, step) = handle_bytes(&mut reader, second, false);
    assert_eq!(ids(&ns), vec![1, 2]);
    assert_eq!(step, ConnectionStep::ReadMore);
    let (ns, step) = handle_bytes(&mut reader, &[], true);
    assert!(ns.is_empty());
    assert_eq!(step, ConnectionStep::Close(CloseReason::EndOfStream));
}

#[test]
fn malformed_item_closes_only_that_connection() {
    let (mut holder, _interface) = StateHolder::new();
    holder.handle(StateHolderCommand::Append(notification(1)));
    let mut reader = NotificationReader::new(vec![]);
    let mut bad = frame_for(3);
    bad.extend_from_slice(&[2, 0, 0, 0, 10, 9, 0, 1, 0]);
    let (ns, step) = handle_bytes(&mut reader, &bad, false);
    assert_eq!(ids(&ns), vec![3]);
    assert_eq!(
        step,
        ConnectionStep::Close(CloseReason::Failed(NotificationReadError::NotificationReadUnknownItem(9)))
    );
    for n in ns {
        holder.handle(StateHolderCommand::Append(n));
    }
    let mut other = NotificationReader::new(vec![]);
    let (ns, step) = handle_bytes(&mut other, &frame_for(2), false);
    assert_eq!(step, ConnectionStep::ReadMore);
    for n in ns {
        holder.handle(StateHolderCommand::Append(n));
    }
    assert_eq!(ids(&holder.snapshot()), vec![1, 3, 2]);
}

#[test]
fn servers_keep_their_configuration() {
    let (mut holder, interface) = StateHolder::new();
    let ingest = APNSServer::new(
        "127.0.0.1:9123".to_string(),
        interface.clone(),
        "server.crt".to_string(),
        "server.key".to_string(),
    );
    assert_eq!(ingest.address, "127.0.0.1:9123");
    assert_eq!(ingest.ssl_cert_path, "server.crt");
    assert_eq!(ingest.ssl_private_key_path, "server.key");
    let query = NotificationHttpServer::new(interface, "127.0.0.1:8081".to_string());
    assert_eq!(query.get_config(), "127.0.0.1:8081");
    holder.handle(StateHolderCommand::Append(notification(1)));
    assert!(matches!(query.handle_request(RequestMethod::Delete), QueryReply::Cleared));
    let command = holder.next_command().unwrap();
    holder.serve(command);
    assert!(holder.snapshot().is_empty());
}
