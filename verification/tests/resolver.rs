use game_catalog::resolver::{library_folder_candidates, merge_library_folders};
use game_catalog::text::u64_to_dec;

fn b(s: &str) -> Vec<u8> {
    s.as_bytes().to_vec()
}

#[test]
fn descriptor_paths_are_extracted_and_unescaped() {
    let vdf = "\"libraryfolders\"\n{\n\t\"0\"\n\t{\n\t\t\"path\"\t\t\"C:\\\\Program Files (x86)\\\\Steam\"\n\t}\n\t\"1\"\n\t{\n\t\t\"path\"\t\t\"D:\\\\SteamLibrary\"\n\t}\n}\n";
    let candidates = library_folder_candidates(vdf.as_bytes());
    assert_eq!(candidates, vec![b("C:\\Program Files (x86)\\Steam"), b("D:\\SteamLibrary")]);
}

#[test]
fn malformed_descriptor_lines_are_skipped() {
    let vdf = "\"path\" unquoted\n\"path\"\"nospace\"\n\"path\" \"\"\n\"path\" \"D:\\\\Lib\"";
    let candidates = library_folder_candidates(vdf.as_bytes());
    assert_eq!(candidates, vec![b("D:\\Lib")]);
}

#[test]
fn empty_descriptor_yields_no_candidates() {
    assert!(library_folder_candidates(b"").is_empty());
    assert!(library_folder_candidates(b"\"library\" {}").is_empty());
}

#[test]
fn merge_keeps_the_root_first_and_deduplicates_case_insensitively() {
    let folders = merge_library_folders(
        b("C:\\Steam"),
        vec![
            (b("c:\\steam"), true),
            (b("D:\\SteamLibrary"), true),
            (b("E:\\Missing"), false),
            (b("d:\\steamlibrary"), true),
        ],
    );
    assert_eq!(folders, vec![b("C:\\Steam"), b("D:\\SteamLibrary")]);
}

#[test]
fn missing_descriptor_leaves_only_the_root() {
    let folders = merge_library_folders(b("C:\\Steam"), Vec::new());
    assert_eq!(folders, vec![b("C:\\Steam")]);
}

#[test]
fn decimal_rendering_is_exact() {
    assert_eq!(u64_to_dec(0), b("0"));
    assert_eq!(u64_to_dec(7), b("7"));
    assert_eq!(u64_to_dec(1700000000), b("1700000000"));
    assert_eq!(u64_to_dec(u64::MAX), b("18446744073709551615"));
}
