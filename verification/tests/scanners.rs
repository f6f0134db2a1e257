use game_catalog::manifest::epic_game_from_manifest;
use game_catalog::model::Platform;
use game_catalog::scan::{ea_game, epic_record, gog_game, launch_action, launcher_page_uri,
    pick_cover, pick_ea_exe, steam_app_id, steam_cover_path, steam_game_record, steam_title,
    ubi_game, LaunchAction};

fn b(s: &str) -> Vec<u8> {
    s.as_bytes().to_vec()
}

#[test]
fn steam_manifest_names_parse_to_app_ids() {
    assert_eq!(steam_app_id(b"appmanifest_620.acf"), Some(b("620")));
    assert_eq!(steam_app_id(b"appmanifest_.acf"), Some(b("")));
    assert_eq!(steam_app_id(b"appmanifest_620.vdf"), None);
    assert_eq!(steam_app_id(b"620.acf"), None);
    assert_eq!(steam_app_id(b"notes.txt"), None);
}

#[test]
fn steam_title_takes_the_first_name_value() {
    let manifest = "\"AppState\"\n{\n\t\"appid\"\t\t\"620\"\n\t\"name\"\t\t\"Portal 2\"\n\t\"name\"\t\t\"Wrong\"\n}\n";
    assert_eq!(steam_title(manifest.as_bytes()), b("Portal 2"));
}

#[test]
fn steam_title_tolerates_carriage_returns() {
    let manifest = "\"AppState\"\r\n{\r\n\t\"name\"\t\"Half-Life\"\r\n}\r\n";
    assert_eq!(steam_title(manifest.as_bytes()), b("Half-Life"));
}

#[test]
fn steam_title_falls_back_on_malformed_manifests() {
    assert_eq!(steam_title(b"no name here"), b("Jeu Steam"));
    assert_eq!(steam_title(b""), b("Jeu Steam"));
    assert_eq!(steam_title(b"x \"name\" y"), b("Jeu Steam"));
}

#[test]
fn steam_cover_path_formula() {
    assert_eq!(
        steam_cover_path(b"C:\\Steam", b"620"),
        b("C:\\Steam\\appcache\\librarycache\\620_library_600x900.jpg"),
    );
}

#[test]
fn steam_record_fields() {
    let manifest = "\t\"name\"\t\"Dota 2\"\n";
    let game = steam_game_record(b("570"), manifest.as_bytes(), b("img.jpg"), b("D:\\Lib"));
    assert_eq!(game.id, b("570"));
    assert_eq!(game.title, b("Dota 2"));
    assert_eq!(game.platform, Platform::Steam);
    assert_eq!(game.image_path, b("img.jpg"));
    assert!(game.exe_path.is_empty());
    assert_eq!(game.install_dir, b("D:\\Lib"));
}

#[test]
fn gog_requires_name_and_existing_directory() {
    let game = gog_game(b("1"), b("Witcher"), b("C:\\GOG\\Witcher"), b"witcher.exe", true, b(""))
        .unwrap();
    assert_eq!(game.exe_path, b("C:\\GOG\\Witcher\\witcher.exe"));
    assert_eq!(game.platform, Platform::Gog);
    assert!(gog_game(b("1"), b(""), b("C:\\GOG\\W"), b"w.exe", true, b("")).is_none());
    assert!(gog_game(b("1"), b("W"), b(""), b"w.exe", true, b("")).is_none());
    assert!(gog_game(b("1"), b("W"), b("C:\\GOG\\W"), b"w.exe", false, b("")).is_none());
}

#[test]
fn epic_excludes_the_internal_tool_and_unnamed_entries() {
    let game = epic_record(b("Sugar"), b("Rocket League"), b("C:\\Epic\\RL"), b("")).unwrap();
    assert_eq!(game.id, b("Sugar"));
    assert_eq!(game.platform, Platform::Epic);
    assert!(epic_record(b("HelloNeighborModKit"), b("Mod Kit"), b("C:\\x"), b("")).is_none());
    assert!(epic_record(b("Sugar"), b(""), b("C:\\x"), b("")).is_none());
}

#[test]
fn epic_manifest_json_parses_through() {
    let manifest =
        "{\"FormatVersion\":0,\"AppName\":\"Sugar\",\"DisplayName\":\"Rocket League\",\"InstallLocation\":\"C:\\\\Epic\\\\RL\"}";
    let game = epic_game_from_manifest(manifest.as_bytes(), b("cover.png")).unwrap();
    assert_eq!(game.id, b("Sugar"));
    assert_eq!(game.title, b("Rocket League"));
    assert_eq!(game.install_dir, b("C:\\Epic\\RL"));
    assert_eq!(game.image_path, b("cover.png"));
    assert!(epic_game_from_manifest(b"not json", b("")).is_none());
    assert!(epic_game_from_manifest(b"{\"AppName\":\"X\"}", b("")).is_none());
}

#[test]
fn ea_requires_publisher_match_and_existing_location() {
    let game = ea_game(b("{key}"), b"Electronic Arts Inc.", b("FIFA"), b("C:\\EA\\FIFA"), true,
        b("")).unwrap();
    assert_eq!(game.platform, Platform::Ea);
    assert_eq!(game.exe_path, b("C:\\EA\\FIFA"));
    assert!(ea_game(b("k"), b"EA", b("FIFA"), b("C:\\EA\\FIFA"), true, b("")).is_some());
    assert!(ea_game(b("k"), b"EAX", b("FIFA"), b("C:\\EA\\FIFA"), true, b("")).is_none());
    assert!(ea_game(b("k"), b"Valve", b("FIFA"), b("C:\\EA\\FIFA"), true, b("")).is_none());
    assert!(ea_game(b("k"), b"EA", b(""), b("C:\\EA\\FIFA"), true, b("")).is_none());
    assert!(ea_game(b("k"), b"EA", b("FIFA"), b("C:\\EA\\FIFA"), false, b("")).is_none());
}

#[test]
fn ubisoft_titles_come_from_the_final_path_segment() {
    let game = ubi_game(b("77"), b("C:\\Ubisoft\\Games\\Assassins Creed\\"), true, b("")).unwrap();
    assert_eq!(game.title, b("Assassins Creed"));
    assert_eq!(game.platform, Platform::Ubisoft);
    assert!(ubi_game(b("77"), b("C:\\U\\X"), false, b("")).is_none());
}

#[test]
fn cover_scavenging_matches_keyword_and_extension() {
    let names = vec![b("readme.txt"), b("Setup.exe"), b("Boxart_Front.PNG"), b("cover.jpg")];
    assert_eq!(pick_cover(&names), Some(2));
    let none = vec![b("cover.txt"), b("art.png"), b("logo"), b(".jpg")];
    assert_eq!(pick_cover(&none), None);
    let empty: Vec<Vec<u8>> = Vec::new();
    assert_eq!(pick_cover(&empty), None);
}

#[test]
fn ea_exe_pick_skips_maintenance_tools() {
    let paths = vec![
        b("C:\\EA\\F\\EACleanup.exe"),
        b("C:\\EA\\F\\Touchup.exe"),
        b("C:\\EA\\F\\fifa.exe"),
        b("C:\\EA\\F\\other.exe"),
    ];
    assert_eq!(pick_ea_exe(&paths), Some(2));
    let none = vec![b("C:\\EA\\F\\readme.txt"), b("C:\\EA\\F\\Cleanup.exe")];
    assert_eq!(pick_ea_exe(&none), None);
}

#[test]
fn launch_targets_per_platform() {
    assert_eq!(
        launch_action(Platform::Steam, b"620", b""),
        LaunchAction::Open(b("steam://run/620")),
    );
    assert_eq!(
        launch_action(Platform::Epic, b"Sugar", b""),
        LaunchAction::Open(b("com.epicgames.launcher://apps/Sugar?action=launch&silent=true")),
    );
    assert_eq!(
        launch_action(Platform::Ubisoft, b"77", b""),
        LaunchAction::Open(b("uplay://launch/77/0")),
    );
    assert_eq!(
        launch_action(Platform::Gog, b"123", b""),
        LaunchAction::Open(b("goggalaxy://openGameView/123")),
    );
    assert_eq!(
        launch_action(Platform::Ea, b"k", b"C:\\EA\\FIFA"),
        LaunchAction::ScanEaDir(b("C:\\EA\\FIFA")),
    );
    assert_eq!(
        launch_action(Platform::Custom, b"id", b"C:\\mine.exe"),
        LaunchAction::Open(b("C:\\mine.exe")),
    );
}

#[test]
fn launcher_pages_per_platform() {
    assert_eq!(launcher_page_uri(Platform::Steam, b"620"), b("steam://nav/games/details/620"));
    assert_eq!(launcher_page_uri(Platform::Gog, b"123"), b("goggalaxy://openGameView/123"));
    assert_eq!(launcher_page_uri(Platform::Epic, b"x"), b("com.epicgames.launcher://library"));
    assert_eq!(launcher_page_uri(Platform::Ubisoft, b"x"), b("uplay://"));
    assert_eq!(launcher_page_uri(Platform::Ea, b"x"), b("origin2://library"));
    assert_eq!(launcher_page_uri(Platform::Custom, b"C:\\mine.exe"), b("C:\\mine.exe"));
}
