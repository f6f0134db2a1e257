use game_catalog::codec::encode_state;
use game_catalog::model::{OverlayState, Platform, ThemeConfig};

fn b(s: &str) -> Vec<u8> {
    s.as_bytes().to_vec()
}

#[test]
fn default_theme_colors() {
    let theme = ThemeConfig::default();
    assert_eq!(theme.accent, b("#5865F2"));
    assert_eq!(theme.bg_from, b("#121212"));
    assert_eq!(theme.bg_to, b("#0a0a0a"));
    assert_eq!(theme.card_bg, b("#1e1e1e"));
    assert_eq!(theme.text_primary, b("#f3f4f6"));
}

#[test]
fn default_state_is_empty() {
    let state = OverlayState::default();
    assert!(state.favorites.is_empty());
    assert!(state.custom_games.is_empty());
    assert!(state.selected_drives.is_empty());
    assert_eq!(state.theme, ThemeConfig::default());
}

#[test]
fn toggle_favorite_flips_membership() {
    let mut state = OverlayState::default();
    assert!(state.toggle_favorite(Platform::Gog, b("1207664663")));
    assert_eq!(state.favorites.len(), 1);
    assert!(!state.toggle_favorite(Platform::Gog, b("1207664663")));
    assert!(state.favorites.is_empty());
}

#[test]
fn toggling_twice_restores_state_and_file() {
    let mut state = OverlayState::default();
    assert!(state.toggle_favorite(Platform::Steam, b("620")));
    let before = encode_state(&state);
    state.toggle_favorite(Platform::Epic, b("Fortnite"));
    state.toggle_favorite(Platform::Epic, b("Fortnite"));
    let after = encode_state(&state);
    assert_eq!(before, after);
}

#[test]
fn same_id_on_two_platforms_are_distinct_favorites() {
    let mut state = OverlayState::default();
    assert!(state.toggle_favorite(Platform::Steam, b("77")));
    assert!(state.toggle_favorite(Platform::Ubisoft, b("77")));
    assert_eq!(state.favorites.len(), 2);
}

#[test]
fn add_custom_game_builds_the_generated_id() {
    let mut state = OverlayState::default();
    assert!(state.add_custom_game(b("Doom"), b("C:\\doom.exe"), b("C:\\doom.png"), 1700000000));
    assert_eq!(state.custom_games.len(), 1);
    let game = &state.custom_games[0];
    assert_eq!(game.id, b("Custom-1700000000"));
    assert_eq!(game.title, b("Doom"));
    assert_eq!(game.platform, Platform::Custom);
    assert_eq!(game.exe_path, b("C:\\doom.exe"));
    assert_eq!(game.image_path, b("C:\\doom.png"));
    assert!(game.install_dir.is_empty());
    assert!(!game.is_favorite);
}

#[test]
fn colliding_custom_id_is_rejected() {
    let mut state = OverlayState::default();
    assert!(state.add_custom_game(b("One"), b("C:\\a.exe"), Vec::new(), 5));
    assert!(!state.add_custom_game(b("Two"), b("C:\\b.exe"), Vec::new(), 5));
    assert_eq!(state.custom_games.len(), 1);
    assert_eq!(state.custom_games[0].title, b("One"));
    assert!(state.add_custom_game(b("Two"), b("C:\\b.exe"), Vec::new(), 6));
    assert_eq!(state.custom_games.len(), 2);
}

#[test]
fn update_settings_replaces_wholesale_and_deduplicates_drives() {
    let mut state = OverlayState::default();
    let theme = ThemeConfig {
        accent: b("#ff0000"),
        bg_from: b("#000000"),
        bg_to: b("#111111"),
        card_bg: b("#222222"),
        text_primary: b("#ffffff"),
    };
    state.update_settings(theme, vec![b("D:\\"), b("C:\\"), b("D:\\")]);
    assert_eq!(state.selected_drives, vec![b("D:\\"), b("C:\\")]);
    assert_eq!(state.theme.accent, b("#ff0000"));
    state.update_settings(ThemeConfig::default(), Vec::new());
    assert!(state.selected_drives.is_empty());
    assert_eq!(state.theme, ThemeConfig::default());
}

#[test]
fn snapshot_equals_the_state() {
    let mut state = OverlayState::default();
    state.toggle_favorite(Platform::Ea, b("{ea-key}"));
    state.add_custom_game(b("Mine"), b("C:\\m.exe"), Vec::new(), 9);
    state.update_settings(ThemeConfig::default(), vec![b("D:\\")]);
    let copy = state.snapshot();
    assert_eq!(copy, state);
}
