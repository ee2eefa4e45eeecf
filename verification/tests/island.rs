use forbidden_island::structs::cards::island::IslandCardState;

#[test]
fn test_sink_state() {
    let mut state = IslandCardState::Normal;
    state.step();
    assert_eq!(state, IslandCardState::Flooded);
    state.step();
    assert_eq!(state, IslandCardState::Sunk);
}

#[test]
fn test_sink_next() {
    assert_eq!(IslandCardState::Normal.next(), IslandCardState::Flooded);
    assert_eq!(IslandCardState::Flooded.next(), IslandCardState::Sunk);
}
