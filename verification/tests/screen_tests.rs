use dune_engine::protocol::{MessageData, ProtocolError};
use dune_engine::screen::{apply_message, apply_messages, loading_update, process_inbound, Screen};

fn server_info(names: &[&str]) -> MessageData {
    MessageData::ServerInfo { players: names.iter().map(|s| s.to_string()).collect() }
}

#[test]
fn load_forces_loading_and_server_info_replaces_roster() {
    let mut screen = Screen::MainMenu;
    let mut roster: Vec<String> = Vec::new();
    apply_message(&mut screen, &mut roster, MessageData::Load);
    assert_eq!(screen, Screen::Loading);
    assert!(roster.is_empty());
    apply_message(&mut screen, &mut roster, server_info(&["A", "B"]));
    assert_eq!(screen, Screen::Loading);
    assert_eq!(roster, vec!["A".to_string(), "B".to_string()]);
}

#[test]
fn loaded_is_host_side_only_and_changes_nothing() {
    let mut screen = Screen::JoinedGame;
    let mut roster = vec!["X".to_string()];
    apply_message(&mut screen, &mut roster, MessageData::Loaded);
    assert_eq!(screen, Screen::JoinedGame);
    assert_eq!(roster, vec!["X".to_string()]);
}

#[test]
fn roster_replacement_is_verbatim_without_merge() {
    let mut screen = Screen::Server;
    let mut roster = vec!["Old1".to_string(), "Old2".to_string()];
    apply_message(&mut screen, &mut roster, server_info(&["New"]));
    assert_eq!(roster, vec!["New".to_string()]);
}

#[test]
fn messages_drain_in_fifo_order() {
    let mut screen = Screen::MainMenu;
    let mut roster: Vec<String> = Vec::new();
    apply_messages(
        &mut screen,
        &mut roster,
        vec![server_info(&["A"]), MessageData::Load, server_info(&["B", "C"])],
    );
    assert_eq!(screen, Screen::Loading);
    assert_eq!(roster, vec!["B".to_string(), "C".to_string()]);
}

#[test]
fn raw_payloads_decode_and_reduce_in_order() {
    let mut screen = Screen::MainMenu;
    let mut roster: Vec<String> = Vec::new();
    let wire = vec![
        MessageData::Load.into_bytes(),
        server_info(&["A", "B"]).into_bytes(),
    ];
    assert_eq!(process_inbound(&mut screen, &mut roster, &wire), Ok(()));
    assert_eq!(screen, Screen::Loading);
    assert_eq!(roster, vec!["A".to_string(), "B".to_string()]);
}

#[test]
fn a_corrupt_payload_stops_processing_where_it_stands() {
    let mut screen = Screen::MainMenu;
    let mut roster: Vec<String> = Vec::new();
    let mut corrupt = MessageData::Loaded.into_bytes();
    corrupt.push(0xFF);
    let wire = vec![MessageData::Load.into_bytes(), corrupt, server_info(&["X"]).into_bytes()];
    assert_eq!(
        process_inbound(&mut screen, &mut roster, &wire),
        Err(ProtocolError::InvalidMessage)
    );
    // The valid message before the corruption was applied; the one after
    // it was not.
    assert_eq!(screen, Screen::Loading);
    assert!(roster.is_empty());
}

#[test]
fn loading_completes_only_with_no_pending_assets() {
    let mut screen = Screen::Loading;
    loading_update(&mut screen, 3);
    assert_eq!(screen, Screen::Loading);
    loading_update(&mut screen, 0);
    assert_eq!(screen, Screen::HostingGame);

    let mut other = Screen::MainMenu;
    loading_update(&mut other, 0);
    assert_eq!(other, Screen::MainMenu);
}
