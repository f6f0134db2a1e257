//! The platform scanners' decision logic: which discovered source entries
//! become game records, and with which fields. Reading registries, manifest
//! directories and files is the caller's side; every rule about their
//! content is here, verified.

use vstd::prelude::*;

use crate::lit;
use crate::model::{GameRecord, Platform};
use crate::text::{append_bytes, bytes_eq, contains_bytes, ends_with_bytes, ext_of, fold_case,
    has_sub, is_prefix, is_suffix, join_path, last_segment, last_segment_exec, spec_join_path,
    split_ext, starts_with_bytes, stem_of, to_folded};

verus! {

// ----- Steam -----

/// The app identifier a Steam manifest file name carries: what stands
/// between the fixed prefix and suffix.
pub open spec fn spec_steam_app_id(f: Seq<u8>) -> Option<Seq<u8>> {
    if f.len() >= lit::spec_appmanifest_prefix().len() + lit::spec_acf_suffix().len()
        && is_prefix(lit::spec_appmanifest_prefix(), f) && is_suffix(lit::spec_acf_suffix(), f) {
        Some(f.subrange(
            lit::spec_appmanifest_prefix().len() as int,
            f.len() - lit::spec_acf_suffix().len(),
        ))
    } else {
        None
    }
}

/// Extracts the app identifier from a Steam manifest file name, if the name
/// fits the fixed pattern.
pub fn steam_app_id(filename: &[u8]) -> (r: Option<Vec<u8>>)
    ensures
        match r {
            Some(id) => spec_steam_app_id(filename@) == Some(id@),
            None => spec_steam_app_id(filename@) is None,
        },
{
    let prefix = lit::appmanifest_prefix();
    let suffix = lit::acf_suffix();
    if filename.len() < prefix.len() + suffix.len() {
        return None;
    }
    if !starts_with_bytes(filename, prefix.as_slice()) {
        return None;
    }
    if !ends_with_bytes(filename, suffix.as_slice()) {
        return None;
    }
    let id = vstd::slice::slice_to_vec(
        vstd::slice::slice_subrange(filename, prefix.len(), filename.len() - suffix.len()),
    );
    Some(id)
}

// ----- Steam manifest title -----

/// The first position of `b` in `s`, or the length if `b` is absent.
pub open spec fn token_end(s: Seq<u8>, b: u8) -> int
    decreases s.len(),
{
    if s.len() == 0 {
        0
    } else if s[0] == b {
        0
    } else {
        1 + token_end(s.drop_first(), b)
    }
}

/// Position and content facts about `token_end`.
pub proof fn lemma_token_end(s: Seq<u8>, b: u8)
    ensures
        0 <= token_end(s, b) <= s.len(),
        token_end(s, b) < s.len() ==> s[token_end(s, b)] == b,
        forall|t: int| 0 <= t < token_end(s, b) ==> s[t] != b,
    decreases s.len(),
{
    if s.len() > 0 && s[0] != b {
        lemma_token_end(s.drop_first(), b);
        assert forall|t: int| 0 <= t < token_end(s, b) implies s[t] != b by {
            if t > 0 {
                assert(s.drop_first()[t - 1] != b);
            }
        }
    }
}

/// A line without its trailing carriage return.
pub open spec fn trim_cr(l: Seq<u8>) -> Seq<u8> {
    if l.len() > 0 && l.last() == 13 {
        l.drop_last()
    } else {
        l
    }
}

/// The first line of the manifest that mentions the quoted name token.
pub open spec fn spec_first_name_line(s: Seq<u8>) -> Option<Seq<u8>>
    decreases s.len(),
    via spec_first_name_line_dec
{
    if s.len() == 0 {
        None
    } else {
        let k = token_end(s, 10);
        let l = trim_cr(s.take(k));
        if has_sub(l, lit::spec_name_token()) {
            Some(l)
        } else if k == s.len() {
            None
        } else {
            spec_first_name_line(s.skip(k + 1))
        }
    }
}

#[via_fn]
proof fn spec_first_name_line_dec(s: Seq<u8>) {
    lemma_token_end(s, 10);
}

/// The part at position `n` when `s` is cut at every double quote.
pub open spec fn spec_quote_part(s: Seq<u8>, n: int) -> Option<Seq<u8>>
    decreases s.len(), n,
    via spec_quote_part_dec
{
    let k = token_end(s, 34);
    if n == 0 {
        Some(s.take(k))
    } else if k == s.len() {
        None
    } else {
        spec_quote_part(s.skip(k + 1), n - 1)
    }
}

#[via_fn]
proof fn spec_quote_part_dec(s: Seq<u8>, n: int) {
    lemma_token_end(s, 34);
}

/// The title a Steam manifest yields: the value token of the first name
/// line (the fourth quote-cut part), or the fixed placeholder when the
/// manifest is malformed.
pub open spec fn spec_steam_title(content: Seq<u8>) -> Seq<u8> {
    match spec_first_name_line(content) {
        None => lit::spec_steam_fallback_title(),
        Some(l) => match spec_quote_part(l, 3) {
            Some(t) => t,
            None => lit::spec_steam_fallback_title(),
        },
    }
}

/// The first position of `b` in `s`, or the length if `b` is absent.
fn token_end_exec(s: &[u8], b: u8) -> (k: usize)
    ensures
        k as int == token_end(s@, b),
{
    let mut i: usize = 0;
    while i < s.len()
        invariant
            i <= s@.len(),
            forall|t: int| 0 <= t < i ==> s@[t] != b,
        decreases s@.len() - i,
    {
        if s[i] == b {
            proof {
                lemma_token_end(s@, b);
                assert forall|t: int| 0 <= t < token_end(s@, b) implies s@[t] != b by {}
                if token_end(s@, b) < i as int {
                    assert(s@[token_end(s@, b)] == b);
                }
            }
            return i;
        }
        i = i + 1;
    }
    proof {
        lemma_token_end(s@, b);
        if token_end(s@, b) < s@.len() {
            assert(s@[token_end(s@, b)] == b);
        }
    }
    s.len()
}

/// The part at position `n` when `s` is cut at every double quote.
fn quote_part(s: &[u8], n: usize) -> (r: Option<Vec<u8>>)
    ensures
        match r {
            Some(p) => spec_quote_part(s@, n as int) == Some(p@),
            None => spec_quote_part(s@, n as int) is None,
        },
    decreases n,
{
    let k = token_end_exec(s, 34);
    proof {
        lemma_token_end(s@, 34);
    }
    if n == 0 {
        let p = vstd::slice::slice_to_vec(vstd::slice::slice_subrange(s, 0, k));
        proof {
            assert(p@ =~= s@.take(k as int));
        }
        Some(p)
    } else if k == s.len() {
        None
    } else {
        quote_part(vstd::slice::slice_subrange(s, k + 1, s.len()), n - 1)
    }
}

/// The title a Steam manifest yields; the fixed placeholder on a malformed
/// manifest.
pub fn steam_title(content: &[u8]) -> (r: Vec<u8>)
    ensures
        r@ == spec_steam_title(content@),
{
    let token = lit::name_token();
    let mut rest: &[u8] = content;
    loop
        invariant
            token@ == lit::spec_name_token(),
            spec_first_name_line(content@) == spec_first_name_line(rest@),
        decreases rest@.len(),
    {
        if rest.len() == 0 {
            return lit::steam_fallback_title();
        }
        let k = token_end_exec(rest, 10);
        proof {
            lemma_token_end(rest@, 10);
        }
        let rawline = vstd::slice::slice_subrange(rest, 0, k);
        let line = if rawline.len() > 0 && rawline[rawline.len() - 1] == 13 {
            vstd::slice::slice_subrange(rawline, 0, rawline.len() - 1)
        } else {
            rawline
        };
        proof {
            assert(rawline@ == rest@.take(k as int));
            assert(line@ =~= trim_cr(rest@.take(k as int)));
        }
        if contains_bytes(line, token.as_slice()) {
            match quote_part(line, 3) {
                Some(t) => {
                    return t;
                },
                None => {
                    return lit::steam_fallback_title();
                },
            }
        }
        if k == rest.len() {
            return lit::steam_fallback_title();
        }
        rest = vstd::slice::slice_subrange(rest, k + 1, rest.len());
    }
}

/// The path under the Steam root where the cached cover of app `id` lives.
pub open spec fn spec_steam_cover_path(root: Seq<u8>, id: Seq<u8>) -> Seq<u8> {
    root + lit::spec_librarycache_mid() + id + lit::spec_cover_suffix()
}

/// Builds the cached-cover path of a Steam app under its root.
pub fn steam_cover_path(root: &[u8], id: &[u8]) -> (r: Vec<u8>)
    ensures
        r@ == spec_steam_cover_path(root@, id@),
{
    let mut out: Vec<u8> = Vec::new();
    append_bytes(&mut out, root);
    let mid = lit::librarycache_mid();
    append_bytes(&mut out, mid.as_slice());
    append_bytes(&mut out, id);
    let suffix = lit::cover_suffix();
    append_bytes(&mut out, suffix.as_slice());
    proof {
        assert(out@ =~= spec_steam_cover_path(root@, id@));
    }
    out
}

/// Assembles a Steam record: the title comes from the manifest content, the
/// cover path is the caller's (empty when the cached cover is absent), the
/// install directory is the owning library root.
pub fn steam_game_record(
    id: Vec<u8>,
    manifest: &[u8],
    image_path: Vec<u8>,
    install_dir: Vec<u8>,
) -> (g: GameRecord)
    ensures
        g@.id == id@,
        g@.title == spec_steam_title(manifest@),
        g@.platform == Platform::Steam,
        g@.image_path == image_path@,
        g@.exe_path == Seq::<u8>::empty(),
        g@.install_dir == install_dir@,
        g@.is_favorite == false,
{
    let title = steam_title(manifest);
    GameRecord {
        id,
        title,
        platform: Platform::Steam,
        image_path,
        exe_path: Vec::new(),
        install_dir,
        is_favorite: false,
    }
}

// ----- GOG -----

/// A GOG registry entry becomes a record exactly when it names a game, an
/// install directory, and that directory exists; the executable is the
/// relative value joined onto the install directory.
pub fn gog_game(
    id: Vec<u8>,
    title: Vec<u8>,
    install_dir: Vec<u8>,
    exe_rel: &[u8],
    dir_exists: bool,
    image_path: Vec<u8>,
) -> (r: Option<GameRecord>)
    ensures
        match r {
            Some(g) => title@.len() > 0 && install_dir@.len() > 0 && dir_exists && g@.id == id@
                && g@.title == title@ && g@.platform == Platform::Gog && g@.image_path
                == image_path@ && g@.exe_path == spec_join_path(install_dir@, exe_rel@)
                && g@.install_dir == install_dir@ && g@.is_favorite == false,
            None => !(title@.len() > 0 && install_dir@.len() > 0 && dir_exists),
        },
{
    if title.len() == 0 || install_dir.len() == 0 || !dir_exists {
        return None;
    }
    let exe_path = join_path(install_dir.as_slice(), exe_rel);
    Some(
        GameRecord {
            id,
            title,
            platform: Platform::Gog,
            image_path,
            exe_path,
            install_dir,
            is_favorite: false,
        },
    )
}

// ----- Epic -----

/// An Epic manifest's fields become a record exactly when the display name
/// is non-empty and the entry is not the one excluded internal tool.
pub fn epic_record(
    app_name: Vec<u8>,
    display_name: Vec<u8>,
    install_location: Vec<u8>,
    image_path: Vec<u8>,
) -> (r: Option<GameRecord>)
    ensures
        match r {
            Some(g) => display_name@.len() > 0 && app_name@ != lit::spec_epic_excluded_app()
                && g@.id == app_name@ && g@.title == display_name@ && g@.platform == Platform::Epic
                && g@.image_path == image_path@ && g@.exe_path == Seq::<u8>::empty()
                && g@.install_dir == install_location@ && g@.is_favorite == false,
            None => !(display_name@.len() > 0 && app_name@ != lit::spec_epic_excluded_app()),
        },
{
    if display_name.len() == 0 {
        return None;
    }
    let excluded = lit::epic_excluded_app();
    if bytes_eq(app_name.as_slice(), excluded.as_slice()) {
        return None;
    }
    Some(
        GameRecord {
            id: app_name,
            title: display_name,
            platform: Platform::Epic,
            image_path,
            exe_path: Vec::new(),
            install_dir: install_location,
            is_favorite: false,
        },
    )
}

// ----- EA -----

/// The publisher field marks an EA title: it mentions the full publisher
/// name, or is exactly the short one.
pub open spec fn is_ea_publisher(publisher: Seq<u8>) -> bool {
    has_sub(publisher, lit::spec_electronic_arts()) || publisher == lit::spec_ea_publisher()
}

/// An uninstall-registry entry becomes an EA record exactly when its
/// publisher marks it as EA and it names an existing install location; the
/// executable field carries the install directory, resolved at launch time.
pub fn ea_game(
    subkey: Vec<u8>,
    publisher: &[u8],
    title: Vec<u8>,
    install_location: Vec<u8>,
    dir_exists: bool,
    image_path: Vec<u8>,
) -> (r: Option<GameRecord>)
    ensures
        match r {
            Some(g) => is_ea_publisher(publisher@) && title@.len() > 0 && install_location@.len()
                > 0 && dir_exists && g@.id == subkey@ && g@.title == title@ && g@.platform
                == Platform::Ea && g@.image_path == image_path@ && g@.exe_path
                == install_location@ && g@.install_dir == install_location@ && g@.is_favorite
                == false,
            None => !(is_ea_publisher(publisher@) && title@.len() > 0 && install_location@.len()
                > 0 && dir_exists),
        },
{
    let full = lit::electronic_arts();
    let short = lit::ea_publisher();
    let ea = contains_bytes(publisher, full.as_slice()) || bytes_eq(publisher, short.as_slice());
    if !ea || title.len() == 0 || install_location.len() == 0 || !dir_exists {
        return None;
    }
    let exe_path = vstd::slice::slice_to_vec(install_location.as_slice());
    Some(
        GameRecord {
            id: subkey,
            title,
            platform: Platform::Ea,
            image_path,
            exe_path,
            install_dir: install_location,
            is_favorite: false,
        },
    )
}

// ----- Ubisoft -----

/// A Ubisoft installs entry becomes a record exactly when its install
/// directory exists; the title is the final path segment.
pub fn ubi_game(subkey: Vec<u8>, install_dir: Vec<u8>, dir_exists: bool, image_path: Vec<u8>) -> (r:
    Option<GameRecord>)
    ensures
        match r {
            Some(g) => dir_exists && g@.id == subkey@ && g@.title == last_segment(install_dir@)
                && g@.platform == Platform::Ubisoft && g@.image_path == image_path@ && g@.exe_path
                == Seq::<u8>::empty() && g@.install_dir == install_dir@ && g@.is_favorite
                == false,
            None => !dir_exists,
        },
{
    if !dir_exists {
        return None;
    }
    let title = last_segment_exec(install_dir.as_slice());
    Some(
        GameRecord {
            id: subkey,
            title,
            platform: Platform::Ubisoft,
            image_path,
            exe_path: Vec::new(),
            install_dir,
            is_favorite: false,
        },
    )
}

// ----- Cover-image scavenging -----

/// A file name looks like a cover image: its stem mentions one of the fixed
/// cover keywords (case-insensitively) and its extension is one of the fixed
/// image extensions.
pub open spec fn is_cover_name(name: Seq<u8>) -> bool {
    match ext_of(name) {
        None => false,
        Some(e) => {
            let ef = fold_case(e);
            let sf = fold_case(stem_of(name));
            (ef == fold_case(lit::spec_ext_jpg()) || ef == fold_case(lit::spec_ext_png()) || ef
                == fold_case(lit::spec_ext_jpeg()) || ef == fold_case(lit::spec_ext_webp())) && (
            has_sub(sf, lit::spec_kw_cover()) || has_sub(sf, lit::spec_kw_banner()) || has_sub(
                sf,
                lit::spec_kw_poster(),
            ) || has_sub(sf, lit::spec_kw_splash()) || has_sub(sf, lit::spec_kw_header())
                || has_sub(sf, lit::spec_kw_logo()) || has_sub(sf, lit::spec_kw_background())
                || has_sub(sf, lit::spec_kw_boxart()))
        },
    }
}

/// Whether one file name looks like a cover image.
pub fn is_cover_name_exec(name: &[u8]) -> (r: bool)
    ensures
        r == is_cover_name(name@),
{
    let (stem, ext) = split_ext(name);
    match ext {
        None => false,
        Some(e) => {
            let ef = to_folded(e.as_slice());
            let sf = to_folded(stem.as_slice());
            let ext_ok = bytes_eq(ef.as_slice(), lit::ext_jpg().as_slice()) || bytes_eq(
                ef.as_slice(),
                lit::ext_png().as_slice(),
            ) || bytes_eq(ef.as_slice(), lit::ext_jpeg().as_slice()) || bytes_eq(
                ef.as_slice(),
                lit::ext_webp().as_slice(),
            );
            proof {
                assert(fold_case(lit::spec_ext_jpg()) =~= lit::spec_ext_jpg());
                assert(fold_case(lit::spec_ext_png()) =~= lit::spec_ext_png());
                assert(fold_case(lit::spec_ext_jpeg()) =~= lit::spec_ext_jpeg());
                assert(fold_case(lit::spec_ext_webp()) =~= lit::spec_ext_webp());
            }
            if !ext_ok {
                return false;
            }
            contains_bytes(sf.as_slice(), lit::kw_cover().as_slice()) || contains_bytes(
                sf.as_slice(),
                lit::kw_banner().as_slice(),
            ) || contains_bytes(sf.as_slice(), lit::kw_poster().as_slice()) || contains_bytes(
                sf.as_slice(),
                lit::kw_splash().as_slice(),
            ) || contains_bytes(sf.as_slice(), lit::kw_header().as_slice()) || contains_bytes(
                sf.as_slice(),
                lit::kw_logo().as_slice(),
            ) || contains_bytes(sf.as_slice(), lit::kw_background().as_slice()) || contains_bytes(
                sf.as_slice(),
                lit::kw_boxart().as_slice(),
            )
        },
    }
}

/// The first file of the directory listing that looks like a cover image;
/// first match in the caller's enumeration order, a best-effort heuristic.
pub fn pick_cover(names: &Vec<Vec<u8>>) -> (r: Option<usize>)
    ensures
        match r {
            Some(i) => i < names@.len() && is_cover_name(names@[i as int]@) && forall|t: int|
                0 <= t < i ==> !is_cover_name(#[trigger] names@[t]@),
            None => forall|t: int| 0 <= t < names@.len() ==> !is_cover_name(#[trigger] names@[t]@),
        },
{
    let mut i: usize = 0;
    while i < names.len()
        invariant
            i <= names@.len(),
            forall|t: int| 0 <= t < i ==> !is_cover_name(#[trigger] names@[t]@),
        decreases names@.len() - i,
    {
        if is_cover_name_exec(names[i].as_slice()) {
            return Some(i);
        }
        i = i + 1;
    }
    None
}

// ----- Launching -----

/// A launchable executable for an EA install: ends in the executable
/// extension and is no cleanup or touchup tool.
pub open spec fn is_ea_launch_exe(path: Seq<u8>) -> bool {
    ext_of(last_segment(path)) == Some(lit::spec_ext_exe()) && !has_sub(
        path,
        lit::spec_ea_skip_cleanup(),
    ) && !has_sub(path, lit::spec_ea_skip_touchup())
}

/// Whether one path is a launchable EA executable.
pub fn is_ea_launch_exe_exec(path: &[u8]) -> (r: bool)
    ensures
        r == is_ea_launch_exe(path@),
{
    let seg = last_segment_exec(path);
    let (_stem, ext) = split_ext(seg.as_slice());
    let ext_ok = match ext {
        Some(e) => bytes_eq(e.as_slice(), lit::ext_exe().as_slice()),
        None => false,
    };
    if !ext_ok {
        return false;
    }
    !contains_bytes(path, lit::ea_skip_cleanup().as_slice()) && !contains_bytes(
        path,
        lit::ea_skip_touchup().as_slice(),
    )
}

/// The first launchable EA executable of a directory listing of full paths.
pub fn pick_ea_exe(paths: &Vec<Vec<u8>>) -> (r: Option<usize>)
    ensures
        match r {
            Some(i) => i < paths@.len() && is_ea_launch_exe(paths@[i as int]@) && forall|t: int|
                0 <= t < i ==> !is_ea_launch_exe(#[trigger] paths@[t]@),
            None => forall|t: int|
                0 <= t < paths@.len() ==> !is_ea_launch_exe(#[trigger] paths@[t]@),
        },
{
    let mut i: usize = 0;
    while i < paths.len()
        invariant
            i <= paths@.len(),
            forall|t: int| 0 <= t < i ==> !is_ea_launch_exe(#[trigger] paths@[t]@),
        decreases paths@.len() - i,
    {
        if is_ea_launch_exe_exec(paths[i].as_slice()) {
            return Some(i);
        }
        i = i + 1;
    }
    None
}

/// What launching a game asks of the host: open a target (a URI or a path)
/// through the shell, or scan an EA install directory for its executable
/// first.
#[derive(PartialEq, Eq, Debug)]
pub enum LaunchAction {
    /// Open this target through the host shell, fire-and-forget.
    Open(Vec<u8>),
    /// List this directory, launch the first entry that satisfies
    /// `is_ea_launch_exe`, and fall back to opening the directory itself.
    ScanEaDir(Vec<u8>),
}

/// The launch dispatch: a platform URI around the identifier, the raw path
/// for custom games, and a directory scan for EA.
pub fn launch_action(platform: Platform, id: &[u8], exe_path: &[u8]) -> (r: LaunchAction)
    ensures
        match platform {
            Platform::Steam => (r matches LaunchAction::Open(u) && u@ == lit::spec_uri_steam_run()
                + id@),
            Platform::Epic => (r matches LaunchAction::Open(u) && u@ == lit::spec_uri_epic_run_pre()
                + id@ + lit::spec_uri_epic_run_post()),
            Platform::Ubisoft => (r matches LaunchAction::Open(u) && u@
                == lit::spec_uri_ubi_run_pre() + id@ + lit::spec_uri_ubi_run_post()),
            Platform::Gog => (r matches LaunchAction::Open(u) && u@ == lit::spec_uri_gog_view()
                + id@),
            Platform::Ea => (r matches LaunchAction::ScanEaDir(d) && d@ == exe_path@),
            Platform::Custom => (r matches LaunchAction::Open(u) && u@ == exe_path@),
        },
{
    match platform {
        Platform::Steam => {
            let mut u = lit::uri_steam_run();
            append_bytes(&mut u, id);
            LaunchAction::Open(u)
        },
        Platform::Epic => {
            let mut u = lit::uri_epic_run_pre();
            append_bytes(&mut u, id);
            let post = lit::uri_epic_run_post();
            append_bytes(&mut u, post.as_slice());
            LaunchAction::Open(u)
        },
        Platform::Ubisoft => {
            let mut u = lit::uri_ubi_run_pre();
            append_bytes(&mut u, id);
            let post = lit::uri_ubi_run_post();
            append_bytes(&mut u, post.as_slice());
            LaunchAction::Open(u)
        },
        Platform::Gog => {
            let mut u = lit::uri_gog_view();
            append_bytes(&mut u, id);
            LaunchAction::Open(u)
        },
        Platform::Ea => LaunchAction::ScanEaDir(vstd::slice::slice_to_vec(exe_path)),
        Platform::Custom => LaunchAction::Open(vstd::slice::slice_to_vec(exe_path)),
    }
}

/// The launcher-page target of a platform: a details URI around the
/// identifier for Steam and GOG, a fixed library URI for Epic, Ubisoft and
/// EA, and the stored target itself for custom games.
pub fn launcher_page_uri(platform: Platform, id: &[u8]) -> (r: Vec<u8>)
    ensures
        match platform {
            Platform::Steam => r@ == lit::spec_uri_steam_page() + id@,
            Platform::Gog => r@ == lit::spec_uri_gog_view() + id@,
            Platform::Epic => r@ == lit::spec_uri_epic_page(),
            Platform::Ubisoft => r@ == lit::spec_uri_ubi_page(),
            Platform::Ea => r@ == lit::spec_uri_ea_page(),
            Platform::Custom => r@ == id@,
        },
{
    match platform {
        Platform::Steam => {
            let mut u = lit::uri_steam_page();
            append_bytes(&mut u, id);
            u
        },
        Platform::Gog => {
            let mut u = lit::uri_gog_view();
            append_bytes(&mut u, id);
            u
        },
        Platform::Epic => lit::uri_epic_page(),
        Platform::Ubisoft => lit::uri_ubi_page(),
        Platform::Ea => lit::uri_ea_page(),
        Platform::Custom => vstd::slice::slice_to_vec(id),
    }
}

} // verus!
