use sui_hooks::cache_update_handler::{closes_socket, CacheUpdateHandler, SOCKET_PATH};

/// Sends one update and returns what each write was handed. `fails` names the writes that fail.
fn send(
    handler: &mut CacheUpdateHandler<&'static str>,
    payload: &[u8],
    fails: &[(&str, usize)],
) -> Vec<(&'static str, Vec<u8>)> {
    let mut seen: Vec<(&'static str, Vec<u8>)> = Vec::new();
    handler.notify_written(payload.to_vec());
    while let Some((client, bytes)) = handler.next_write() {
        let client = *client;
        let number = seen.iter().filter(|(name, _)| *name == client).count();
        seen.push((client, bytes.to_vec()));
        handler.written(!fails.contains(&(client, number)));
    }
    seen
}

fn with_clients(names: &[&'static str]) -> CacheUpdateHandler<&'static str> {
    let mut handler = CacheUpdateHandler::new();
    for name in names {
        handler.accepted(Ok::<&'static str, ()>(*name));
    }
    handler
}

fn order(writes: &[(&'static str, Vec<u8>)]) -> Vec<&'static str> {
    let mut names: Vec<&'static str> = Vec::new();
    for (name, _) in writes {
        if names.last() != Some(name) {
            names.push(*name);
        }
    }
    names
}

#[test]
fn every_client_gets_length_and_objects() {
    let mut handler = with_clients(&["a", "b"]);
    let writes = send(&mut handler, &[9, 8, 7], &[]);
    assert_eq!(
        writes,
        vec![
            ("a", vec![3, 0, 0, 0]),
            ("a", vec![9, 8, 7]),
            ("b", vec![3, 0, 0, 0]),
            ("b", vec![9, 8, 7]),
        ]
    );
}

#[test]
fn a_client_that_fails_is_removed_and_the_others_keep_their_order() {
    let mut handler = with_clients(&["a", "b", "c", "d"]);
    let writes = send(&mut handler, &[1], &[("b", 0), ("c", 1)]);
    assert_eq!(writes.len(), 2 + 1 + 2 + 2);
    assert_eq!(order(&writes), vec!["a", "b", "c", "d"]);
    assert_eq!(order(&send(&mut handler, &[1], &[])), vec!["a", "d"]);
}

#[test]
fn all_clients_may_fail() {
    let mut handler = with_clients(&["a", "b"]);
    assert_eq!(send(&mut handler, &[1], &[("a", 0), ("b", 0)]).len(), 2);
    assert!(send(&mut handler, &[1], &[]).is_empty());
}

#[test]
fn without_clients_nothing_is_written() {
    let mut handler = with_clients(&[]);
    assert!(send(&mut handler, &[1], &[]).is_empty());
    handler.written(true);
    assert!(handler.next_write().is_none());
}

#[test]
fn an_error_while_accepting_changes_nothing() {
    let mut handler = with_clients(&["a"]);
    handler.accepted(Err::<&'static str, &str>("refused"));
    assert_eq!(order(&send(&mut handler, &[1], &[])), vec!["a"]);
}

#[test]
fn a_client_reads_back_every_update() {
    let mut handler = with_clients(&["a"]);
    let updates: Vec<Vec<u8>> = vec![vec![], vec![1, 2, 3], vec![0; 300]];
    let mut stream: Vec<u8> = Vec::new();
    for update in &updates {
        for (_, bytes) in send(&mut handler, update, &[]) {
            stream.extend(bytes);
        }
    }
    let mut read: Vec<Vec<u8>> = Vec::new();
    let mut rest = &stream[..];
    while !rest.is_empty() {
        let len = u32::from_le_bytes([rest[0], rest[1], rest[2], rest[3]]) as usize;
        read.push(rest[4..4 + len].to_vec());
        rest = &rest[4 + len..];
    }
    assert_eq!(read, updates);
}

#[test]
fn a_new_update_gives_up_the_one_on_its_way() {
    let mut handler = with_clients(&["a", "b"]);
    handler.notify_written(vec![1]);
    handler.written(true);
    let writes = send(&mut handler, &[2], &[]);
    assert_eq!(writes[0], ("a", vec![1, 0, 0, 0]));
    assert_eq!(writes[1], ("a", vec![2]));
    assert_eq!(order(&writes), vec!["a", "b"]);
}

#[test]
fn a_client_that_comes_during_an_update_is_served_last() {
    let mut handler = with_clients(&["a", "b"]);
    handler.notify_written(vec![1]);
    handler.accepted(Ok::<&'static str, ()>("c"));
    let mut names: Vec<&'static str> = Vec::new();
    while let Some((client, _)) = handler.next_write() {
        names.push(*client);
        handler.written(true);
    }
    assert_eq!(names, vec!["a", "a", "b", "b", "c", "c"]);
}

#[test]
fn the_socket_path_is_fixed() {
    let handler: CacheUpdateHandler<u8> = CacheUpdateHandler::default();
    assert_eq!(handler.socket_path(), "/tmp/sui_cache_updates.sock");
    assert_eq!(SOCKET_PATH, "/tmp/sui_cache_updates.sock");
}

#[test]
fn only_the_last_handle_closes_the_socket() {
    assert!(closes_socket(1));
    assert!(!closes_socket(2));
    assert!(!closes_socket(0));
}
