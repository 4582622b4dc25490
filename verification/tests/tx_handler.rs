use sui_hooks::tx_handler::{tx_socket_path, TxHandler};

fn with_clients(names: &[&'static str]) -> TxHandler<&'static str> {
    let mut handler = TxHandler::new("/tmp/test.sock");
    for name in names {
        handler.accepted(Ok::<&'static str, ()>(*name));
    }
    handler
}

/// Sends one message and returns what each write was handed. `fails` names the writes that fail.
fn send_to(
    handler: &mut TxHandler<&'static str>,
    effects: &[u8],
    events: &[u8],
    fails: &[(&str, usize)],
) -> Vec<(&'static str, Vec<u8>)> {
    let mut seen: Vec<(&'static str, Vec<u8>)> = Vec::new();
    let started =
        handler.send_tx_effects_and_events(Ok::<Vec<u8>, ()>(effects.to_vec()), Ok(events.to_vec()));
    assert_eq!(started, Ok(()));
    while let Some((client, bytes)) = handler.next_write() {
        let client = *client;
        let number = seen.iter().filter(|(name, _)| *name == client).count();
        seen.push((client, bytes.to_vec()));
        handler.written(!fails.contains(&(client, number)));
    }
    seen
}

fn served(writes: &[(&'static str, Vec<u8>)]) -> Vec<&'static str> {
    let mut names: Vec<&'static str> = Vec::new();
    for (name, _) in writes {
        if names.last() != Some(name) {
            names.push(*name);
        }
    }
    names
}

#[test]
fn every_client_gets_effects_then_events() {
    let mut handler = with_clients(&["a"]);
    assert_eq!(
        send_to(&mut handler, &[5, 6], &[7], &[]),
        vec![
            ("a", vec![0, 0, 0, 2]),
            ("a", vec![5, 6]),
            ("a", vec![0, 0, 0, 1]),
            ("a", vec![7]),
        ]
    );
}

#[test]
fn the_last_client_is_served_first_and_the_order_turns_around() {
    let mut handler = with_clients(&["a", "b", "c"]);
    assert_eq!(served(&send_to(&mut handler, &[1], &[2], &[])), vec!["c", "b", "a"]);
    assert_eq!(served(&send_to(&mut handler, &[1], &[2], &[])), vec!["a", "b", "c"]);
    assert_eq!(served(&send_to(&mut handler, &[1], &[2], &[])), vec!["c", "b", "a"]);
}

#[test]
fn a_client_that_fails_any_part_is_dropped() {
    let mut handler = with_clients(&["a", "b", "c", "d", "e"]);
    let fails = [("e", 0), ("d", 1), ("c", 2), ("b", 3)];
    let writes = send_to(&mut handler, &[1], &[2], &fails);
    assert_eq!(writes.len(), 1 + 2 + 3 + 4 + 4);
    assert_eq!(served(&send_to(&mut handler, &[1], &[2], &[])), vec!["a"]);
}

#[test]
fn without_clients_no_message_is_written() {
    let mut handler = with_clients(&[]);
    assert!(send_to(&mut handler, &[1], &[2], &[]).is_empty());
    handler.written(false);
    assert!(handler.next_write().is_none());
}

#[test]
fn effects_that_do_not_serialise_stop_the_message() {
    let mut handler = with_clients(&["a"]);
    assert_eq!(handler.send_tx_effects_and_events(Err("effects"), Err("events")), Err("effects"));
    assert_eq!(handler.send_tx_effects_and_events(Err("effects"), Ok(vec![1])), Err("effects"));
    assert!(handler.next_write().is_none());
    assert_eq!(served(&send_to(&mut handler, &[1], &[2], &[])), vec!["a"]);
}

#[test]
fn events_that_do_not_serialise_stop_the_message() {
    let mut handler = with_clients(&["a"]);
    assert_eq!(handler.send_tx_effects_and_events(Ok(vec![1]), Err("events")), Err("events"));
    assert!(handler.next_write().is_none());
    assert_eq!(served(&send_to(&mut handler, &[1], &[2], &[])), vec!["a"]);
}

#[test]
fn a_refused_client_is_not_served() {
    let mut handler = with_clients(&["a"]);
    handler.accepted(Err::<&'static str, &str>("refused"));
    assert_eq!(served(&send_to(&mut handler, &[1], &[2], &[])), vec!["a"]);
}

#[test]
fn a_client_reads_back_effects_and_events() {
    let mut handler = with_clients(&["a"]);
    let mut stream: Vec<u8> = Vec::new();
    for (effects, events) in [(vec![1u8, 2], vec![3u8; 260]), (vec![], vec![4u8])] {
        for (_, bytes) in send_to(&mut handler, &effects, &events, &[]) {
            stream.extend(bytes);
        }
    }
    let mut read: Vec<Vec<u8>> = Vec::new();
    let mut rest = &stream[..];
    while !rest.is_empty() {
        let len = u32::from_be_bytes([rest[0], rest[1], rest[2], rest[3]]) as usize;
        read.push(rest[4..4 + len].to_vec());
        rest = &rest[4 + len..];
    }
    assert_eq!(read, vec![vec![1, 2], vec![3; 260], vec![], vec![4]]);
}

#[test]
fn a_new_message_gives_up_the_clients_of_the_one_on_its_way() {
    let mut handler = with_clients(&["a", "b"]);
    let started = handler.send_tx_effects_and_events(Ok::<Vec<u8>, ()>(vec![1]), Ok(vec![2]));
    assert_eq!(started, Ok(()));
    handler.written(true);
    assert_eq!(served(&send_to(&mut handler, &[1], &[2], &[])), vec!["a"]);
}

#[test]
fn after_a_message_given_up_the_waiting_clients_are_served() {
    let mut handler = with_clients(&["a", "b", "c", "d"]);
    let started = handler.send_tx_effects_and_events(Ok::<Vec<u8>, ()>(vec![1]), Ok(vec![2]));
    assert_eq!(started, Ok(()));
    for _ in 0..5 {
        handler.written(true);
    }
    assert_eq!(served(&send_to(&mut handler, &[1], &[2], &[])), vec!["b", "a"]);
}

#[test]
fn a_client_that_comes_during_a_message_is_served_next() {
    let mut handler = with_clients(&["a", "b"]);
    let started = handler.send_tx_effects_and_events(Ok::<Vec<u8>, ()>(vec![1]), Ok(vec![2]));
    assert_eq!(started, Ok(()));
    handler.accepted(Ok::<&'static str, ()>("c"));
    let mut names: Vec<&'static str> = Vec::new();
    while let Some((client, _)) = handler.next_write() {
        if names.last() != Some(client) {
            names.push(*client);
        }
        handler.written(true);
    }
    assert_eq!(names, vec!["b", "c", "a"]);
}

#[test]
fn the_environment_may_name_the_tx_socket() {
    assert_eq!(tx_socket_path(None), "/tmp/sui_tx.sock");
    assert_eq!(tx_socket_path(Some("/run/tx".to_string())), "/run/tx");
    assert_eq!(tx_socket_path(Some(String::new())), "");
    assert_eq!(with_clients(&[]).path(), "/tmp/test.sock");
}
