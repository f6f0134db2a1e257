use game_catalog::codec::{decode_state, encode_state};
use game_catalog::model::{GameKey, OverlayState, Platform, ThemeConfig};

fn b(s: &str) -> Vec<u8> {
    s.as_bytes().to_vec()
}

#[test]
fn default_state_encodes_to_the_documented_pretty_schema() {
    let encoded = encode_state(&OverlayState::default());
    let expected = "{\n  \"favorites\": [],\n  \"customGames\": [],\n  \"selectedDrives\": [],\n  \"theme\": {\"accent\":\"#5865F2\",\"bgFrom\":\"#121212\",\"bgTo\":\"#0a0a0a\",\"cardBg\":\"#1e1e1e\",\"textPrimary\":\"#f3f4f6\"}\n}";
    assert_eq!(String::from_utf8(encoded).unwrap(), expected);
}

#[test]
fn whitespace_between_tokens_is_tolerated() {
    let loaded = decode_state(b("{ \"favorites\":[\"Steam-620\"]}").as_slice());
    assert_eq!(loaded.favorites, vec![GameKey { platform: Platform::Steam, id: b("620") }]);

    let loaded = decode_state(b("{\n  \"favorites\" : [ \"GOG-1\" , \"Epic-2\" ] ,\n  \"selectedDrives\": [\"D:\\\\\"]\n}\n").as_slice());
    assert_eq!(loaded.favorites.len(), 2);
    assert_eq!(loaded.selected_drives, vec![b("D:\\")]);
    assert_eq!(loaded.theme, ThemeConfig::default());

    let loaded = decode_state(b("{\"favorites\":[]}\n").as_slice());
    assert_eq!(loaded, OverlayState::default());
}

#[test]
fn a_hand_pretty_printed_file_loads() {
    let text = "{\n  \"customGames\": [\n    {\n      \"id\": \"Custom-1\",\n      \"title\": \"Mine\"\n    }\n  ],\n  \"theme\": {\n    \"accent\": \"#ffffff\"\n  }\n}\n";
    let loaded = decode_state(text.as_bytes());
    assert_eq!(loaded.custom_games.len(), 1);
    assert_eq!(loaded.custom_games[0].id, b("Custom-1"));
    assert_eq!(loaded.custom_games[0].title, b("Mine"));
    assert_eq!(loaded.theme.accent, b("#ffffff"));
    assert_eq!(loaded.theme.bg_from, b("#121212"));
    assert!(loaded.favorites.is_empty());
}

#[test]
fn the_stored_file_is_whitespace_padded_yet_round_trips() {
    let mut state = OverlayState::default();
    state.toggle_favorite(Platform::Steam, b("620"));
    state.add_custom_game(b("Mine"), b("C:\\m.exe"), b(""), 3);
    let encoded = encode_state(&state);
    assert!(encoded.contains(&b'\n'));
    assert_eq!(decode_state(&encoded), state);
}

#[test]
fn save_then_load_round_trips_a_populated_state() {
    let mut state = OverlayState::default();
    state.toggle_favorite(Platform::Steam, b("620"));
    state.toggle_favorite(Platform::Custom, b("Custom-5"));
    state.add_custom_game(b("My \"quoted\" game"), b("C:\\games\\mine.exe"), b(""), 5);
    state.update_settings(
        ThemeConfig {
            accent: b("#abcdef"),
            bg_from: b("#000000"),
            bg_to: b("#101010"),
            card_bg: b("#202020"),
            text_primary: b("#fefefe"),
        },
        vec![b("D:\\"), b("E:\\")],
    );
    let loaded = decode_state(&encode_state(&state));
    assert_eq!(loaded, state);
}

#[test]
fn missing_fields_take_their_defaults() {
    let loaded = decode_state(b("{\"favorites\":[\"Steam-620\"]}").as_slice());
    assert_eq!(loaded.favorites, vec![GameKey { platform: Platform::Steam, id: b("620") }]);
    assert!(loaded.custom_games.is_empty());
    assert!(loaded.selected_drives.is_empty());
    assert_eq!(loaded.theme, ThemeConfig::default());

    let loaded = decode_state(b("{}").as_slice());
    assert_eq!(loaded, OverlayState::default());

    let loaded = decode_state(b("{\"theme\":{\"accent\":\"#ffffff\"}}").as_slice());
    assert_eq!(loaded.theme.accent, b("#ffffff"));
    assert_eq!(loaded.theme.bg_from, b("#121212"));
}

#[test]
fn custom_records_may_omit_fields() {
    let loaded = decode_state(b("{\"customGames\":[{\"id\":\"Custom-3\"}]}").as_slice());
    assert_eq!(loaded.custom_games.len(), 1);
    assert_eq!(loaded.custom_games[0].id, b("Custom-3"));
    assert_eq!(loaded.custom_games[0].platform, Platform::Custom);
    assert!(loaded.custom_games[0].title.is_empty());
}

#[test]
fn malformed_content_falls_back_to_defaults() {
    for text in [
        "",
        "not a catalog file",
        "{\"favorites\":[\"Steam-1\"]",
        "{\"favorites\":[\"Atari-1\"]}",
        "{\"favorites\":[]}trailing",
        "{\"unknownField\":[]}",
        "{\"theme\":{},\"favorites\":[]}",
    ] {
        assert_eq!(decode_state(text.as_bytes()), OverlayState::default(), "input: {text}");
    }
}

#[test]
fn duplicate_favorites_in_a_file_collapse() {
    let loaded = decode_state(b("{\"favorites\":[\"GOG-1\",\"GOG-1\",\"Epic-1\"]}").as_slice());
    assert_eq!(loaded.favorites.len(), 2);
    assert_eq!(loaded.favorites[0], GameKey { platform: Platform::Gog, id: b("1") });
    assert_eq!(loaded.favorites[1], GameKey { platform: Platform::Epic, id: b("1") });
}

#[test]
fn custom_entries_breaking_the_id_invariant_reject_the_file() {
    let dup = "{\"customGames\":[{\"id\":\"same\",\"title\":\"A\"},{\"id\":\"same\",\"title\":\"B\"}]}";
    assert_eq!(decode_state(dup.as_bytes()), OverlayState::default());
    let foreign = "{\"customGames\":[{\"id\":\"x\",\"platform\":\"Steam\"}]}";
    assert_eq!(decode_state(foreign.as_bytes()), OverlayState::default());
}

#[test]
fn escaped_bytes_survive_the_round_trip() {
    let mut state = OverlayState::default();
    state.add_custom_game(b("back\\slash \"and\" quote"), b("C:\\a\\b.exe"), b(""), 1);
    let encoded = encode_state(&state);
    let loaded = decode_state(&encoded);
    assert_eq!(loaded.custom_games[0].title, b("back\\slash \"and\" quote"));
}

#[test]
fn favorite_keys_keep_dashes_inside_identifiers() {
    let mut state = OverlayState::default();
    state.toggle_favorite(Platform::Custom, b("Custom-170-99"));
    let loaded = decode_state(&encode_state(&state));
    assert_eq!(
        loaded.favorites,
        vec![GameKey { platform: Platform::Custom, id: b("Custom-170-99") }],
    );
}
