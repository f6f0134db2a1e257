//! Reading Epic launcher manifests: each manifest file is a JSON document
//! from which three string fields decide the record. The JSON reading goes
//! through serde_json behind trusted wrappers whose results are named —
//! both depend on the manifest bytes alone — and the decision itself is the
//! verified `crate::scan::epic_record`, so the returned record is pinned to
//! the named content of the manifest.

use vstd::prelude::*;

use crate::model::GameRecord;

verus! {

/// Whether the bytes parse as one JSON document, as serde_json reads them.
pub uninterp spec fn json_parses(content: Seq<u8>) -> bool;

/// The string field of the JSON document `content` under `key`, as bytes;
/// the empty string when the document does not parse, the key is absent, or
/// the value is no string.
pub uninterp spec fn manifest_str_field(content: Seq<u8>, key: Seq<char>) -> Seq<u8>;

/// Relies on serde_json::from_slice: whether the bytes are one JSON
/// document.
#[verifier::external_body]
fn is_json(content: &[u8]) -> (r: bool)
    ensures
        r == json_parses(content@),
{
    serde_json::from_slice::<serde_json::Value>(content).is_ok()
}

/// Relies on serde_json::from_slice, Value::get and Value::as_str: the
/// string field of the document under `key`, as bytes; the empty string
/// when the content does not parse, the key is absent, or the value is no
/// string. The result depends on the content and the key alone.
#[verifier::external_body]
fn manifest_field(content: &[u8], key: &str) -> (r: Vec<u8>)
    ensures
        r@ == manifest_str_field(content@, key@),
{
    match serde_json::from_slice::<serde_json::Value>(content) {
        Ok(doc) => match doc.get(key).and_then(|v| v.as_str()) {
            Some(s) => s.as_bytes().to_vec(),
            None => Vec::new(),
        },
        Err(_) => Vec::new(),
    }
}

/// The record an Epic manifest yields. A record comes back exactly when the
/// content parses as JSON, its named DisplayName field is non-empty, and its
/// named AppName field is not the excluded internal tool; the record then
/// carries the named fields: AppName as the identifier, DisplayName as the
/// title, InstallLocation as the install directory, with the caller's image,
/// no executable, and no stored favorite flag.
pub fn epic_game_from_manifest(content: &[u8], image_path: Vec<u8>) -> (r: Option<GameRecord>)
    ensures
        ({
            let app = manifest_str_field(content@, "AppName"@);
            let display = manifest_str_field(content@, "DisplayName"@);
            let location = manifest_str_field(content@, "InstallLocation"@);
            let accepted = json_parses(content@) && display.len() > 0 && app
                != crate::lit::spec_epic_excluded_app();
            match r {
                Some(g) => accepted && g@.id == app && g@.title == display && g@.platform
                    == crate::model::Platform::Epic && g@.image_path == image_path@ && g@.exe_path
                    == Seq::<u8>::empty() && g@.install_dir == location && g@.is_favorite
                    == false,
                None => !accepted,
            }
        }),
{
    if !is_json(content) {
        return None;
    }
    let app_name = manifest_field(content, "AppName");
    let display_name = manifest_field(content, "DisplayName");
    let install_location = manifest_field(content, "InstallLocation");
    crate::scan::epic_record(app_name, display_name, install_location, image_path)
}

} // verus!
