use game_catalog::catalog::build_catalog;
use game_catalog::model::{GameRecord, OverlayState, Platform};

fn b(s: &str) -> Vec<u8> {
    s.as_bytes().to_vec()
}

fn rec(platform: Platform, id: &str, title: &str, install_dir: &str) -> GameRecord {
    GameRecord {
        id: b(id),
        title: b(title),
        platform,
        image_path: Vec::new(),
        exe_path: Vec::new(),
        install_dir: b(install_dir),
        is_favorite: false,
    }
}

fn titles(catalog: &[GameRecord]) -> Vec<String> {
    catalog.iter().map(|g| String::from_utf8(g.title.clone()).unwrap()).collect()
}

#[test]
fn scan_is_idempotent() {
    let mut state = OverlayState::default();
    assert!(state.add_custom_game(b("Mine"), b("C:\\mine.exe"), Vec::new(), 7));
    state.toggle_favorite(Platform::Steam, b("620"));
    let scanned = || {
        vec![
            rec(Platform::Steam, "620", "Portal 2", "D:\\SteamLibrary"),
            rec(Platform::Gog, "1", "Witcher", "C:\\GOG\\Witcher"),
        ]
    };
    let first = build_catalog(scanned(), &state);
    let second = build_catalog(scanned(), &state);
    assert_eq!(first, second);
}

#[test]
fn duplicate_keys_collapse_to_first() {
    let state = OverlayState::default();
    let scanned = vec![
        rec(Platform::Steam, "620", "First Seen", "C:\\A"),
        rec(Platform::Steam, "620", "Second Seen", "C:\\B"),
        rec(Platform::Epic, "620", "Other Platform", "C:\\C"),
    ];
    let catalog = build_catalog(scanned, &state);
    assert_eq!(catalog.len(), 2);
    let steam: Vec<&GameRecord> =
        catalog.iter().filter(|g| g.platform == Platform::Steam).collect();
    assert_eq!(steam.len(), 1);
    assert_eq!(steam[0].title, b("First Seen"));
    assert_eq!(steam[0].install_dir, b("C:\\A"));
}

#[test]
fn drive_filter_keeps_matching_and_unknown_locations() {
    let game = || rec(Platform::Steam, "1", "X", "D:\\Games\\X");
    let homeless = || rec(Platform::Gog, "2", "Y", "");

    let mut state = OverlayState::default();
    let catalog = build_catalog(vec![game(), homeless()], &state);
    assert_eq!(catalog.len(), 2);

    state.update_settings(Default::default(), vec![b("D:\\")]);
    let catalog = build_catalog(vec![game(), homeless()], &state);
    assert_eq!(catalog.len(), 2);

    state.update_settings(Default::default(), vec![b("C:\\")]);
    let catalog = build_catalog(vec![game(), homeless()], &state);
    assert_eq!(catalog.len(), 1);
    assert_eq!(catalog[0].title, b("Y"));
}

#[test]
fn drive_filter_ignores_case_and_separator_style() {
    let game = rec(Platform::Ubisoft, "77", "AC", "d:/Games/AC");
    let mut state = OverlayState::default();
    state.update_settings(Default::default(), vec![b("D:\\")]);
    let catalog = build_catalog(vec![game], &state);
    assert_eq!(catalog.len(), 1);
}

#[test]
fn custom_games_bypass_the_drive_filter() {
    let mut state = OverlayState::default();
    assert!(state.add_custom_game(b("Emu"), b("C:\\emu.exe"), Vec::new(), 99));
    state.update_settings(Default::default(), vec![b("Z:\\nowhere")]);
    let catalog = build_catalog(vec![rec(Platform::Steam, "1", "Gone", "C:\\Steam")], &state);
    assert_eq!(catalog.len(), 1);
    assert_eq!(catalog[0].platform, Platform::Custom);
    assert_eq!(catalog[0].title, b("Emu"));
}

#[test]
fn sorting_is_case_insensitive_and_stable() {
    let state = OverlayState::default();
    let catalog = build_catalog(
        vec![
            rec(Platform::Steam, "1", "zeta", ""),
            rec(Platform::Steam, "2", "Alpha", ""),
            rec(Platform::Steam, "3", "beta", ""),
        ],
        &state,
    );
    assert_eq!(titles(&catalog), vec!["Alpha", "beta", "zeta"]);

    let catalog = build_catalog(
        vec![
            rec(Platform::Steam, "3", "beta", ""),
            rec(Platform::Steam, "1", "zeta", ""),
            rec(Platform::Steam, "2", "Alpha", ""),
        ],
        &state,
    );
    assert_eq!(titles(&catalog), vec!["Alpha", "beta", "zeta"]);
}

#[test]
fn equal_titles_keep_discovery_order() {
    let state = OverlayState::default();
    let catalog = build_catalog(
        vec![
            rec(Platform::Steam, "1", "Same", "C:\\first"),
            rec(Platform::Epic, "2", "same", "C:\\second"),
        ],
        &state,
    );
    assert_eq!(catalog.len(), 2);
    assert_eq!(catalog[0].install_dir, b("C:\\first"));
    assert_eq!(catalog[1].install_dir, b("C:\\second"));
}

#[test]
fn favorites_are_marked_afresh_on_every_build() {
    let mut state = OverlayState::default();
    assert!(state.toggle_favorite(Platform::Steam, b("620")));
    let catalog = build_catalog(vec![rec(Platform::Steam, "620", "Portal 2", "")], &state);
    assert!(catalog[0].is_favorite);
    assert!(!state.toggle_favorite(Platform::Steam, b("620")));
    let catalog = build_catalog(vec![rec(Platform::Steam, "620", "Portal 2", "")], &state);
    assert!(!catalog[0].is_favorite);
}

#[test]
fn empty_scan_and_state_yield_empty_catalog() {
    let state = OverlayState::default();
    let catalog = build_catalog(Vec::new(), &state);
    assert!(catalog.is_empty());
}
