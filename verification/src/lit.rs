//! The fixed byte strings of the engine: manifest tokens, platform names,
//! launch URIs, persistence keys and theme defaults. Each literal comes as
//! a spec sequence and an executable constructor proved against it.

use vstd::prelude::*;

verus! {

/// `appmanifest_`
pub open spec fn spec_appmanifest_prefix() -> Seq<u8> {
    seq![97u8, 112u8, 112u8, 109u8, 97u8, 110u8, 105u8, 102u8, 101u8, 115u8, 116u8, 95u8]
}

/// `appmanifest_`
pub fn appmanifest_prefix() -> (r: Vec<u8>)
    ensures
        r@ == spec_appmanifest_prefix(),
{
    let v: Vec<u8> = vec![97u8, 112u8, 112u8, 109u8, 97u8, 110u8, 105u8, 102u8, 101u8, 115u8, 116u8, 95u8];
    proof {
        assert(v@ =~= spec_appmanifest_prefix());
    }
    v
}

/// `.acf`
pub open spec fn spec_acf_suffix() -> Seq<u8> {
    seq![46u8, 97u8, 99u8, 102u8]
}

/// `.acf`
pub fn acf_suffix() -> (r: Vec<u8>)
    ensures
        r@ == spec_acf_suffix(),
{
    let v: Vec<u8> = vec![46u8, 97u8, 99u8, 102u8];
    proof {
        assert(v@ =~= spec_acf_suffix());
    }
    v
}

/// `Jeu Steam`
pub open spec fn spec_steam_fallback_title() -> Seq<u8> {
    seq![74u8, 101u8, 117u8, 32u8, 83u8, 116u8, 101u8, 97u8, 109u8]
}

/// `Jeu Steam`
pub fn steam_fallback_title() -> (r: Vec<u8>)
    ensures
        r@ == spec_steam_fallback_title(),
{
    let v: Vec<u8> = vec![74u8, 101u8, 117u8, 32u8, 83u8, 116u8, 101u8, 97u8, 109u8];
    proof {
        assert(v@ =~= spec_steam_fallback_title());
    }
    v
}

/// `"name"`
pub open spec fn spec_name_token() -> Seq<u8> {
    seq![34u8, 110u8, 97u8, 109u8, 101u8, 34u8]
}

/// `"name"`
pub fn name_token() -> (r: Vec<u8>)
    ensures
        r@ == spec_name_token(),
{
    let v: Vec<u8> = vec![34u8, 110u8, 97u8, 109u8, 101u8, 34u8];
    proof {
        assert(v@ =~= spec_name_token());
    }
    v
}

/// `"path"`
pub open spec fn spec_path_token() -> Seq<u8> {
    seq![34u8, 112u8, 97u8, 116u8, 104u8, 34u8]
}

/// `"path"`
pub fn path_token() -> (r: Vec<u8>)
    ensures
        r@ == spec_path_token(),
{
    let v: Vec<u8> = vec![34u8, 112u8, 97u8, 116u8, 104u8, 34u8];
    proof {
        assert(v@ =~= spec_path_token());
    }
    v
}

/// `\\appcache\\librarycache\\`
pub open spec fn spec_librarycache_mid() -> Seq<u8> {
    seq![92u8, 97u8, 112u8, 112u8, 99u8, 97u8, 99u8, 104u8, 101u8, 92u8, 108u8, 105u8, 98u8, 114u8, 97u8, 114u8, 121u8, 99u8, 97u8, 99u8, 104u8, 101u8, 92u8]
}

/// `\\appcache\\librarycache\\`
pub fn librarycache_mid() -> (r: Vec<u8>)
    ensures
        r@ == spec_librarycache_mid(),
{
    let v: Vec<u8> = vec![92u8, 97u8, 112u8, 112u8, 99u8, 97u8, 99u8, 104u8, 101u8, 92u8, 108u8, 105u8, 98u8, 114u8, 97u8, 114u8, 121u8, 99u8, 97u8, 99u8, 104u8, 101u8, 92u8];
    proof {
        assert(v@ =~= spec_librarycache_mid());
    }
    v
}

/// `_library_600x900.jpg`
pub open spec fn spec_cover_suffix() -> Seq<u8> {
    seq![95u8, 108u8, 105u8, 98u8, 114u8, 97u8, 114u8, 121u8, 95u8, 54u8, 48u8, 48u8, 120u8, 57u8, 48u8, 48u8, 46u8, 106u8, 112u8, 103u8]
}

/// `_library_600x900.jpg`
pub fn cover_suffix() -> (r: Vec<u8>)
    ensures
        r@ == spec_cover_suffix(),
{
    let v: Vec<u8> = vec![95u8, 108u8, 105u8, 98u8, 114u8, 97u8, 114u8, 121u8, 95u8, 54u8, 48u8, 48u8, 120u8, 57u8, 48u8, 48u8, 46u8, 106u8, 112u8, 103u8];
    proof {
        assert(v@ =~= spec_cover_suffix());
    }
    v
}

/// `Electronic Arts`
pub open spec fn spec_electronic_arts() -> Seq<u8> {
    seq![69u8, 108u8, 101u8, 99u8, 116u8, 114u8, 111u8, 110u8, 105u8, 99u8, 32u8, 65u8, 114u8, 116u8, 115u8]
}

/// `Electronic Arts`
pub fn electronic_arts() -> (r: Vec<u8>)
    ensures
        r@ == spec_electronic_arts(),
{
    let v: Vec<u8> = vec![69u8, 108u8, 101u8, 99u8, 116u8, 114u8, 111u8, 110u8, 105u8, 99u8, 32u8, 65u8, 114u8, 116u8, 115u8];
    proof {
        assert(v@ =~= spec_electronic_arts());
    }
    v
}

/// `EA`
pub open spec fn spec_ea_publisher() -> Seq<u8> {
    seq![69u8, 65u8]
}

/// `EA`
pub fn ea_publisher() -> (r: Vec<u8>)
    ensures
        r@ == spec_ea_publisher(),
{
    let v: Vec<u8> = vec![69u8, 65u8];
    proof {
        assert(v@ =~= spec_ea_publisher());
    }
    v
}

/// `HelloNeighborModKit`
pub open spec fn spec_epic_excluded_app() -> Seq<u8> {
    seq![72u8, 101u8, 108u8, 108u8, 111u8, 78u8, 101u8, 105u8, 103u8, 104u8, 98u8, 111u8, 114u8, 77u8, 111u8, 100u8, 75u8, 105u8, 116u8]
}

/// `HelloNeighborModKit`
pub fn epic_excluded_app() -> (r: Vec<u8>)
    ensures
        r@ == spec_epic_excluded_app(),
{
    let v: Vec<u8> = vec![72u8, 101u8, 108u8, 108u8, 111u8, 78u8, 101u8, 105u8, 103u8, 104u8, 98u8, 111u8, 114u8, 77u8, 111u8, 100u8, 75u8, 105u8, 116u8];
    proof {
        assert(v@ =~= spec_epic_excluded_app());
    }
    v
}

/// `cover`
pub open spec fn spec_kw_cover() -> Seq<u8> {
    seq![99u8, 111u8, 118u8, 101u8, 114u8]
}

/// `cover`
pub fn kw_cover() -> (r: Vec<u8>)
    ensures
        r@ == spec_kw_cover(),
{
    let v: Vec<u8> = vec![99u8, 111u8, 118u8, 101u8, 114u8];
    proof {
        assert(v@ =~= spec_kw_cover());
    }
    v
}

/// `banner`
pub open spec fn spec_kw_banner() -> Seq<u8> {
    seq![98u8, 97u8, 110u8, 110u8, 101u8, 114u8]
}

/// `banner`
pub fn kw_banner() -> (r: Vec<u8>)
    ensures
        r@ == spec_kw_banner(),
{
    let v: Vec<u8> = vec![98u8, 97u8, 110u8, 110u8, 101u8, 114u8];
    proof {
        assert(v@ =~= spec_kw_banner());
    }
    v
}

/// `poster`
pub open spec fn spec_kw_poster() -> Seq<u8> {
    seq![112u8, 111u8, 115u8, 116u8, 101u8, 114u8]
}

/// `poster`
pub fn kw_poster() -> (r: Vec<u8>)
    ensures
        r@ == spec_kw_poster(),
{
    let v: Vec<u8> = vec![112u8, 111u8, 115u8, 116u8, 101u8, 114u8];
    proof {
        assert(v@ =~= spec_kw_poster());
    }
    v
}

/// `splash`
pub open spec fn spec_kw_splash() -> Seq<u8> {
    seq![115u8, 112u8, 108u8, 97u8, 115u8, 104u8]
}

/// `splash`
pub fn kw_splash() -> (r: Vec<u8>)
    ensures
        r@ == spec_kw_splash(),
{
    let v: Vec<u8> = vec![115u8, 112u8, 108u8, 97u8, 115u8, 104u8];
    proof {
        assert(v@ =~= spec_kw_splash());
    }
    v
}

/// `header`
pub open spec fn spec_kw_header() -> Seq<u8> {
    seq![104u8, 101u8, 97u8, 100u8, 101u8, 114u8]
}

/// `header`
pub fn kw_header() -> (r: Vec<u8>)
    ensures
        r@ == spec_kw_header(),
{
    let v: Vec<u8> = vec![104u8, 101u8, 97u8, 100u8, 101u8, 114u8];
    proof {
        assert(v@ =~= spec_kw_header());
    }
    v
}

/// `logo`
pub open spec fn spec_kw_logo() -> Seq<u8> {
    seq![108u8, 111u8, 103u8, 111u8]
}

/// `logo`
pub fn kw_logo() -> (r: Vec<u8>)
    ensures
        r@ == spec_kw_logo(),
{
    let v: Vec<u8> = vec![108u8, 111u8, 103u8, 111u8];
    proof {
        assert(v@ =~= spec_kw_logo());
    }
    v
}

/// `background`
pub open spec fn spec_kw_background() -> Seq<u8> {
    seq![98u8, 97u8, 99u8, 107u8, 103u8, 114u8, 111u8, 117u8, 110u8, 100u8]
}

/// `background`
pub fn kw_background() -> (r: Vec<u8>)
    ensures
        r@ == spec_kw_background(),
{
    let v: Vec<u8> = vec![98u8, 97u8, 99u8, 107u8, 103u8, 114u8, 111u8, 117u8, 110u8, 100u8];
    proof {
        assert(v@ =~= spec_kw_background());
    }
    v
}

/// `boxart`
pub open spec fn spec_kw_boxart() -> Seq<u8> {
    seq![98u8, 111u8, 120u8, 97u8, 114u8, 116u8]
}

/// `boxart`
pub fn kw_boxart() -> (r: Vec<u8>)
    ensures
        r@ == spec_kw_boxart(),
{
    let v: Vec<u8> = vec![98u8, 111u8, 120u8, 97u8, 114u8, 116u8];
    proof {
        assert(v@ =~= spec_kw_boxart());
    }
    v
}

/// `jpg`
pub open spec fn spec_ext_jpg() -> Seq<u8> {
    seq![106u8, 112u8, 103u8]
}

/// `jpg`
pub fn ext_jpg() -> (r: Vec<u8>)
    ensures
        r@ == spec_ext_jpg(),
{
    let v: Vec<u8> = vec![106u8, 112u8, 103u8];
    proof {
        assert(v@ =~= spec_ext_jpg());
    }
    v
}

/// `png`
pub open spec fn spec_ext_png() -> Seq<u8> {
    seq![112u8, 110u8, 103u8]
}

/// `png`
pub fn ext_png() -> (r: Vec<u8>)
    ensures
        r@ == spec_ext_png(),
{
    let v: Vec<u8> = vec![112u8, 110u8, 103u8];
    proof {
        assert(v@ =~= spec_ext_png());
    }
    v
}

/// `jpeg`
pub open spec fn spec_ext_jpeg() -> Seq<u8> {
    seq![106u8, 112u8, 101u8, 103u8]
}

/// `jpeg`
pub fn ext_jpeg() -> (r: Vec<u8>)
    ensures
        r@ == spec_ext_jpeg(),
{
    let v: Vec<u8> = vec![106u8, 112u8, 101u8, 103u8];
    proof {
        assert(v@ =~= spec_ext_jpeg());
    }
    v
}

/// `webp`
pub open spec fn spec_ext_webp() -> Seq<u8> {
    seq![119u8, 101u8, 98u8, 112u8]
}

/// `webp`
pub fn ext_webp() -> (r: Vec<u8>)
    ensures
        r@ == spec_ext_webp(),
{
    let v: Vec<u8> = vec![119u8, 101u8, 98u8, 112u8];
    proof {
        assert(v@ =~= spec_ext_webp());
    }
    v
}

/// `exe`
pub open spec fn spec_ext_exe() -> Seq<u8> {
    seq![101u8, 120u8, 101u8]
}

/// `exe`
pub fn ext_exe() -> (r: Vec<u8>)
    ensures
        r@ == spec_ext_exe(),
{
    let v: Vec<u8> = vec![101u8, 120u8, 101u8];
    proof {
        assert(v@ =~= spec_ext_exe());
    }
    v
}

/// `Cleanup`
pub open spec fn spec_ea_skip_cleanup() -> Seq<u8> {
    seq![67u8, 108u8, 101u8, 97u8, 110u8, 117u8, 112u8]
}

/// `Cleanup`
pub fn ea_skip_cleanup() -> (r: Vec<u8>)
    ensures
        r@ == spec_ea_skip_cleanup(),
{
    let v: Vec<u8> = vec![67u8, 108u8, 101u8, 97u8, 110u8, 117u8, 112u8];
    proof {
        assert(v@ =~= spec_ea_skip_cleanup());
    }
    v
}

/// `Touchup`
pub open spec fn spec_ea_skip_touchup() -> Seq<u8> {
    seq![84u8, 111u8, 117u8, 99u8, 104u8, 117u8, 112u8]
}

/// `Touchup`
pub fn ea_skip_touchup() -> (r: Vec<u8>)
    ensures
        r@ == spec_ea_skip_touchup(),
{
    let v: Vec<u8> = vec![84u8, 111u8, 117u8, 99u8, 104u8, 117u8, 112u8];
    proof {
        assert(v@ =~= spec_ea_skip_touchup());
    }
    v
}

/// `steam://run/`
pub open spec fn spec_uri_steam_run() -> Seq<u8> {
    seq![115u8, 116u8, 101u8, 97u8, 109u8, 58u8, 47u8, 47u8, 114u8, 117u8, 110u8, 47u8]
}

/// `steam://run/`
pub fn uri_steam_run() -> (r: Vec<u8>)
    ensures
        r@ == spec_uri_steam_run(),
{
    let v: Vec<u8> = vec![115u8, 116u8, 101u8, 97u8, 109u8, 58u8, 47u8, 47u8, 114u8, 117u8, 110u8, 47u8];
    proof {
        assert(v@ =~= spec_uri_steam_run());
    }
    v
}

/// `com.epicgames.launcher://apps/`
pub open spec fn spec_uri_epic_run_pre() -> Seq<u8> {
    seq![99u8, 111u8, 109u8, 46u8, 101u8, 112u8, 105u8, 99u8, 103u8, 97u8, 109u8, 101u8, 115u8, 46u8, 108u8, 97u8, 117u8, 110u8, 99u8, 104u8, 101u8, 114u8, 58u8, 47u8, 47u8, 97u8, 112u8, 112u8, 115u8, 47u8]
}

/// `com.epicgames.launcher://apps/`
pub fn uri_epic_run_pre() -> (r: Vec<u8>)
    ensures
        r@ == spec_uri_epic_run_pre(),
{
    let v: Vec<u8> = vec![99u8, 111u8, 109u8, 46u8, 101u8, 112u8, 105u8, 99u8, 103u8, 97u8, 109u8, 101u8, 115u8, 46u8, 108u8, 97u8, 117u8, 110u8, 99u8, 104u8, 101u8, 114u8, 58u8, 47u8, 47u8, 97u8, 112u8, 112u8, 115u8, 47u8];
    proof {
        assert(v@ =~= spec_uri_epic_run_pre());
    }
    v
}

/// `?action=launch&silent=true`
pub open spec fn spec_uri_epic_run_post() -> Seq<u8> {
    seq![63u8, 97u8, 99u8, 116u8, 105u8, 111u8, 110u8, 61u8, 108u8, 97u8, 117u8, 110u8, 99u8, 104u8, 38u8, 115u8, 105u8, 108u8, 101u8, 110u8, 116u8, 61u8, 116u8, 114u8, 117u8, 101u8]
}

/// `?action=launch&silent=true`
pub fn uri_epic_run_post() -> (r: Vec<u8>)
    ensures
        r@ == spec_uri_epic_run_post(),
{
    let v: Vec<u8> = vec![63u8, 97u8, 99u8, 116u8, 105u8, 111u8, 110u8, 61u8, 108u8, 97u8, 117u8, 110u8, 99u8, 104u8, 38u8, 115u8, 105u8, 108u8, 101u8, 110u8, 116u8, 61u8, 116u8, 114u8, 117u8, 101u8];
    proof {
        assert(v@ =~= spec_uri_epic_run_post());
    }
    v
}

/// `uplay://launch/`
pub open spec fn spec_uri_ubi_run_pre() -> Seq<u8> {
    seq![117u8, 112u8, 108u8, 97u8, 121u8, 58u8, 47u8, 47u8, 108u8, 97u8, 117u8, 110u8, 99u8, 104u8, 47u8]
}

/// `uplay://launch/`
pub fn uri_ubi_run_pre() -> (r: Vec<u8>)
    ensures
        r@ == spec_uri_ubi_run_pre(),
{
    let v: Vec<u8> = vec![117u8, 112u8, 108u8, 97u8, 121u8, 58u8, 47u8, 47u8, 108u8, 97u8, 117u8, 110u8, 99u8, 104u8, 47u8];
    proof {
        assert(v@ =~= spec_uri_ubi_run_pre());
    }
    v
}

/// `/0`
pub open spec fn spec_uri_ubi_run_post() -> Seq<u8> {
    seq![47u8, 48u8]
}

/// `/0`
pub fn uri_ubi_run_post() -> (r: Vec<u8>)
    ensures
        r@ == spec_uri_ubi_run_post(),
{
    let v: Vec<u8> = vec![47u8, 48u8];
    proof {
        assert(v@ =~= spec_uri_ubi_run_post());
    }
    v
}

/// `goggalaxy://openGameView/`
pub open spec fn spec_uri_gog_view() -> Seq<u8> {
    seq![103u8, 111u8, 103u8, 103u8, 97u8, 108u8, 97u8, 120u8, 121u8, 58u8, 47u8, 47u8, 111u8, 112u8, 101u8, 110u8, 71u8, 97u8, 109u8, 101u8, 86u8, 105u8, 101u8, 119u8, 47u8]
}

/// `goggalaxy://openGameView/`
pub fn uri_gog_view() -> (r: Vec<u8>)
    ensures
        r@ == spec_uri_gog_view(),
{
    let v: Vec<u8> = vec![103u8, 111u8, 103u8, 103u8, 97u8, 108u8, 97u8, 120u8, 121u8, 58u8, 47u8, 47u8, 111u8, 112u8, 101u8, 110u8, 71u8, 97u8, 109u8, 101u8, 86u8, 105u8, 101u8, 119u8, 47u8];
    proof {
        assert(v@ =~= spec_uri_gog_view());
    }
    v
}

/// `steam://nav/games/details/`
pub open spec fn spec_uri_steam_page() -> Seq<u8> {
    seq![115u8, 116u8, 101u8, 97u8, 109u8, 58u8, 47u8, 47u8, 110u8, 97u8, 118u8, 47u8, 103u8, 97u8, 109u8, 101u8, 115u8, 47u8, 100u8, 101u8, 116u8, 97u8, 105u8, 108u8, 115u8, 47u8]
}

/// `steam://nav/games/details/`
pub fn uri_steam_page() -> (r: Vec<u8>)
    ensures
        r@ == spec_uri_steam_page(),
{
    let v: Vec<u8> = vec![115u8, 116u8, 101u8, 97u8, 109u8, 58u8, 47u8, 47u8, 110u8, 97u8, 118u8, 47u8, 103u8, 97u8, 109u8, 101u8, 115u8, 47u8, 100u8, 101u8, 116u8, 97u8, 105u8, 108u8, 115u8, 47u8];
    proof {
        assert(v@ =~= spec_uri_steam_page());
    }
    v
}

/// `com.epicgames.launcher://library`
pub open spec fn spec_uri_epic_page() -> Seq<u8> {
    seq![99u8, 111u8, 109u8, 46u8, 101u8, 112u8, 105u8, 99u8, 103u8, 97u8, 109u8, 101u8, 115u8, 46u8, 108u8, 97u8, 117u8, 110u8, 99u8, 104u8, 101u8, 114u8, 58u8, 47u8, 47u8, 108u8, 105u8, 98u8, 114u8, 97u8, 114u8, 121u8]
}

/// `com.epicgames.launcher://library`
pub fn uri_epic_page() -> (r: Vec<u8>)
    ensures
        r@ == spec_uri_epic_page(),
{
    let v: Vec<u8> = vec![99u8, 111u8, 109u8, 46u8, 101u8, 112u8, 105u8, 99u8, 103u8, 97u8, 109u8, 101u8, 115u8, 46u8, 108u8, 97u8, 117u8, 110u8, 99u8, 104u8, 101u8, 114u8, 58u8, 47u8, 47u8, 108u8, 105u8, 98u8, 114u8, 97u8, 114u8, 121u8];
    proof {
        assert(v@ =~= spec_uri_epic_page());
    }
    v
}

/// `uplay://`
pub open spec fn spec_uri_ubi_page() -> Seq<u8> {
    seq![117u8, 112u8, 108u8, 97u8, 121u8, 58u8, 47u8, 47u8]
}

/// `uplay://`
pub fn uri_ubi_page() -> (r: Vec<u8>)
    ensures
        r@ == spec_uri_ubi_page(),
{
    let v: Vec<u8> = vec![117u8, 112u8, 108u8, 97u8, 121u8, 58u8, 47u8, 47u8];
    proof {
        assert(v@ =~= spec_uri_ubi_page());
    }
    v
}

/// `origin2://library`
pub open spec fn spec_uri_ea_page() -> Seq<u8> {
    seq![111u8, 114u8, 105u8, 103u8, 105u8, 110u8, 50u8, 58u8, 47u8, 47u8, 108u8, 105u8, 98u8, 114u8, 97u8, 114u8, 121u8]
}

/// `origin2://library`
pub fn uri_ea_page() -> (r: Vec<u8>)
    ensures
        r@ == spec_uri_ea_page(),
{
    let v: Vec<u8> = vec![111u8, 114u8, 105u8, 103u8, 105u8, 110u8, 50u8, 58u8, 47u8, 47u8, 108u8, 105u8, 98u8, 114u8, 97u8, 114u8, 121u8];
    proof {
        assert(v@ =~= spec_uri_ea_page());
    }
    v
}

/// `Custom-`
pub open spec fn spec_custom_id_prefix() -> Seq<u8> {
    seq![67u8, 117u8, 115u8, 116u8, 111u8, 109u8, 45u8]
}

/// `Custom-`
pub fn custom_id_prefix() -> (r: Vec<u8>)
    ensures
        r@ == spec_custom_id_prefix(),
{
    let v: Vec<u8> = vec![67u8, 117u8, 115u8, 116u8, 111u8, 109u8, 45u8];
    proof {
        assert(v@ =~= spec_custom_id_prefix());
    }
    v
}

/// `Steam`
pub open spec fn spec_platform_steam() -> Seq<u8> {
    seq![83u8, 116u8, 101u8, 97u8, 109u8]
}

/// `Steam`
pub fn platform_steam() -> (r: Vec<u8>)
    ensures
        r@ == spec_platform_steam(),
{
    let v: Vec<u8> = vec![83u8, 116u8, 101u8, 97u8, 109u8];
    proof {
        assert(v@ =~= spec_platform_steam());
    }
    v
}

/// `GOG`
pub open spec fn spec_platform_gog() -> Seq<u8> {
    seq![71u8, 79u8, 71u8]
}

/// `GOG`
pub fn platform_gog() -> (r: Vec<u8>)
    ensures
        r@ == spec_platform_gog(),
{
    let v: Vec<u8> = vec![71u8, 79u8, 71u8];
    proof {
        assert(v@ =~= spec_platform_gog());
    }
    v
}

/// `Epic`
pub open spec fn spec_platform_epic() -> Seq<u8> {
    seq![69u8, 112u8, 105u8, 99u8]
}

/// `Epic`
pub fn platform_epic() -> (r: Vec<u8>)
    ensures
        r@ == spec_platform_epic(),
{
    let v: Vec<u8> = vec![69u8, 112u8, 105u8, 99u8];
    proof {
        assert(v@ =~= spec_platform_epic());
    }
    v
}

/// `EA`
pub open spec fn spec_platform_ea() -> Seq<u8> {
    seq![69u8, 65u8]
}

/// `EA`
pub fn platform_ea() -> (r: Vec<u8>)
    ensures
        r@ == spec_platform_ea(),
{
    let v: Vec<u8> = vec![69u8, 65u8];
    proof {
        assert(v@ =~= spec_platform_ea());
    }
    v
}

/// `Ubisoft`
pub open spec fn spec_platform_ubisoft() -> Seq<u8> {
    seq![85u8, 98u8, 105u8, 115u8, 111u8, 102u8, 116u8]
}

/// `Ubisoft`
pub fn platform_ubisoft() -> (r: Vec<u8>)
    ensures
        r@ == spec_platform_ubisoft(),
{
    let v: Vec<u8> = vec![85u8, 98u8, 105u8, 115u8, 111u8, 102u8, 116u8];
    proof {
        assert(v@ =~= spec_platform_ubisoft());
    }
    v
}

/// `Custom`
pub open spec fn spec_platform_custom() -> Seq<u8> {
    seq![67u8, 117u8, 115u8, 116u8, 111u8, 109u8]
}

/// `Custom`
pub fn platform_custom() -> (r: Vec<u8>)
    ensures
        r@ == spec_platform_custom(),
{
    let v: Vec<u8> = vec![67u8, 117u8, 115u8, 116u8, 111u8, 109u8];
    proof {
        assert(v@ =~= spec_platform_custom());
    }
    v
}

/// `favorites`
pub open spec fn spec_key_favorites() -> Seq<u8> {
    seq![102u8, 97u8, 118u8, 111u8, 114u8, 105u8, 116u8, 101u8, 115u8]
}

/// `favorites`
pub fn key_favorites() -> (r: Vec<u8>)
    ensures
        r@ == spec_key_favorites(),
{
    let v: Vec<u8> = vec![102u8, 97u8, 118u8, 111u8, 114u8, 105u8, 116u8, 101u8, 115u8];
    proof {
        assert(v@ =~= spec_key_favorites());
    }
    v
}

/// `customGames`
pub open spec fn spec_key_custom_games() -> Seq<u8> {
    seq![99u8, 117u8, 115u8, 116u8, 111u8, 109u8, 71u8, 97u8, 109u8, 101u8, 115u8]
}

/// `customGames`
pub fn key_custom_games() -> (r: Vec<u8>)
    ensures
        r@ == spec_key_custom_games(),
{
    let v: Vec<u8> = vec![99u8, 117u8, 115u8, 116u8, 111u8, 109u8, 71u8, 97u8, 109u8, 101u8, 115u8];
    proof {
        assert(v@ =~= spec_key_custom_games());
    }
    v
}

/// `selectedDrives`
pub open spec fn spec_key_selected_drives() -> Seq<u8> {
    seq![115u8, 101u8, 108u8, 101u8, 99u8, 116u8, 101u8, 100u8, 68u8, 114u8, 105u8, 118u8, 101u8, 115u8]
}

/// `selectedDrives`
pub fn key_selected_drives() -> (r: Vec<u8>)
    ensures
        r@ == spec_key_selected_drives(),
{
    let v: Vec<u8> = vec![115u8, 101u8, 108u8, 101u8, 99u8, 116u8, 101u8, 100u8, 68u8, 114u8, 105u8, 118u8, 101u8, 115u8];
    proof {
        assert(v@ =~= spec_key_selected_drives());
    }
    v
}

/// `theme`
pub open spec fn spec_key_theme() -> Seq<u8> {
    seq![116u8, 104u8, 101u8, 109u8, 101u8]
}

/// `theme`
pub fn key_theme() -> (r: Vec<u8>)
    ensures
        r@ == spec_key_theme(),
{
    let v: Vec<u8> = vec![116u8, 104u8, 101u8, 109u8, 101u8];
    proof {
        assert(v@ =~= spec_key_theme());
    }
    v
}

/// `accent`
pub open spec fn spec_key_accent() -> Seq<u8> {
    seq![97u8, 99u8, 99u8, 101u8, 110u8, 116u8]
}

/// `accent`
pub fn key_accent() -> (r: Vec<u8>)
    ensures
        r@ == spec_key_accent(),
{
    let v: Vec<u8> = vec![97u8, 99u8, 99u8, 101u8, 110u8, 116u8];
    proof {
        assert(v@ =~= spec_key_accent());
    }
    v
}

/// `bgFrom`
pub open spec fn spec_key_bg_from() -> Seq<u8> {
    seq![98u8, 103u8, 70u8, 114u8, 111u8, 109u8]
}

/// `bgFrom`
pub fn key_bg_from() -> (r: Vec<u8>)
    ensures
        r@ == spec_key_bg_from(),
{
    let v: Vec<u8> = vec![98u8, 103u8, 70u8, 114u8, 111u8, 109u8];
    proof {
        assert(v@ =~= spec_key_bg_from());
    }
    v
}

/// `bgTo`
pub open spec fn spec_key_bg_to() -> Seq<u8> {
    seq![98u8, 103u8, 84u8, 111u8]
}

/// `bgTo`
pub fn key_bg_to() -> (r: Vec<u8>)
    ensures
        r@ == spec_key_bg_to(),
{
    let v: Vec<u8> = vec![98u8, 103u8, 84u8, 111u8];
    proof {
        assert(v@ =~= spec_key_bg_to());
    }
    v
}

/// `cardBg`
pub open spec fn spec_key_card_bg() -> Seq<u8> {
    seq![99u8, 97u8, 114u8, 100u8, 66u8, 103u8]
}

/// `cardBg`
pub fn key_card_bg() -> (r: Vec<u8>)
    ensures
        r@ == spec_key_card_bg(),
{
    let v: Vec<u8> = vec![99u8, 97u8, 114u8, 100u8, 66u8, 103u8];
    proof {
        assert(v@ =~= spec_key_card_bg());
    }
    v
}

/// `textPrimary`
pub open spec fn spec_key_text_primary() -> Seq<u8> {
    seq![116u8, 101u8, 120u8, 116u8, 80u8, 114u8, 105u8, 109u8, 97u8, 114u8, 121u8]
}

/// `textPrimary`
pub fn key_text_primary() -> (r: Vec<u8>)
    ensures
        r@ == spec_key_text_primary(),
{
    let v: Vec<u8> = vec![116u8, 101u8, 120u8, 116u8, 80u8, 114u8, 105u8, 109u8, 97u8, 114u8, 121u8];
    proof {
        assert(v@ =~= spec_key_text_primary());
    }
    v
}

/// `id`
pub open spec fn spec_key_id() -> Seq<u8> {
    seq![105u8, 100u8]
}

/// `id`
pub fn key_id() -> (r: Vec<u8>)
    ensures
        r@ == spec_key_id(),
{
    let v: Vec<u8> = vec![105u8, 100u8];
    proof {
        assert(v@ =~= spec_key_id());
    }
    v
}

/// `title`
pub open spec fn spec_key_title() -> Seq<u8> {
    seq![116u8, 105u8, 116u8, 108u8, 101u8]
}

/// `title`
pub fn key_title() -> (r: Vec<u8>)
    ensures
        r@ == spec_key_title(),
{
    let v: Vec<u8> = vec![116u8, 105u8, 116u8, 108u8, 101u8];
    proof {
        assert(v@ =~= spec_key_title());
    }
    v
}

/// `platform`
pub open spec fn spec_key_platform() -> Seq<u8> {
    seq![112u8, 108u8, 97u8, 116u8, 102u8, 111u8, 114u8, 109u8]
}

/// `platform`
pub fn key_platform() -> (r: Vec<u8>)
    ensures
        r@ == spec_key_platform(),
{
    let v: Vec<u8> = vec![112u8, 108u8, 97u8, 116u8, 102u8, 111u8, 114u8, 109u8];
    proof {
        assert(v@ =~= spec_key_platform());
    }
    v
}

/// `imagePath`
pub open spec fn spec_key_image_path() -> Seq<u8> {
    seq![105u8, 109u8, 97u8, 103u8, 101u8, 80u8, 97u8, 116u8, 104u8]
}

/// `imagePath`
pub fn key_image_path() -> (r: Vec<u8>)
    ensures
        r@ == spec_key_image_path(),
{
    let v: Vec<u8> = vec![105u8, 109u8, 97u8, 103u8, 101u8, 80u8, 97u8, 116u8, 104u8];
    proof {
        assert(v@ =~= spec_key_image_path());
    }
    v
}

/// `exePath`
pub open spec fn spec_key_exe_path() -> Seq<u8> {
    seq![101u8, 120u8, 101u8, 80u8, 97u8, 116u8, 104u8]
}

/// `exePath`
pub fn key_exe_path() -> (r: Vec<u8>)
    ensures
        r@ == spec_key_exe_path(),
{
    let v: Vec<u8> = vec![101u8, 120u8, 101u8, 80u8, 97u8, 116u8, 104u8];
    proof {
        assert(v@ =~= spec_key_exe_path());
    }
    v
}

/// `installDir`
pub open spec fn spec_key_install_dir() -> Seq<u8> {
    seq![105u8, 110u8, 115u8, 116u8, 97u8, 108u8, 108u8, 68u8, 105u8, 114u8]
}

/// `installDir`
pub fn key_install_dir() -> (r: Vec<u8>)
    ensures
        r@ == spec_key_install_dir(),
{
    let v: Vec<u8> = vec![105u8, 110u8, 115u8, 116u8, 97u8, 108u8, 108u8, 68u8, 105u8, 114u8];
    proof {
        assert(v@ =~= spec_key_install_dir());
    }
    v
}

/// `#5865F2`
pub open spec fn spec_theme_default_accent() -> Seq<u8> {
    seq![35u8, 53u8, 56u8, 54u8, 53u8, 70u8, 50u8]
}

/// `#5865F2`
pub fn theme_default_accent() -> (r: Vec<u8>)
    ensures
        r@ == spec_theme_default_accent(),
{
    let v: Vec<u8> = vec![35u8, 53u8, 56u8, 54u8, 53u8, 70u8, 50u8];
    proof {
        assert(v@ =~= spec_theme_default_accent());
    }
    v
}

/// `#121212`
pub open spec fn spec_theme_default_bg_from() -> Seq<u8> {
    seq![35u8, 49u8, 50u8, 49u8, 50u8, 49u8, 50u8]
}

/// `#121212`
pub fn theme_default_bg_from() -> (r: Vec<u8>)
    ensures
        r@ == spec_theme_default_bg_from(),
{
    let v: Vec<u8> = vec![35u8, 49u8, 50u8, 49u8, 50u8, 49u8, 50u8];
    proof {
        assert(v@ =~= spec_theme_default_bg_from());
    }
    v
}

/// `#0a0a0a`
pub open spec fn spec_theme_default_bg_to() -> Seq<u8> {
    seq![35u8, 48u8, 97u8, 48u8, 97u8, 48u8, 97u8]
}

/// `#0a0a0a`
pub fn theme_default_bg_to() -> (r: Vec<u8>)
    ensures
        r@ == spec_theme_default_bg_to(),
{
    let v: Vec<u8> = vec![35u8, 48u8, 97u8, 48u8, 97u8, 48u8, 97u8];
    proof {
        assert(v@ =~= spec_theme_default_bg_to());
    }
    v
}

/// `#1e1e1e`
pub open spec fn spec_theme_default_card_bg() -> Seq<u8> {
    seq![35u8, 49u8, 101u8, 49u8, 101u8, 49u8, 101u8]
}

/// `#1e1e1e`
pub fn theme_default_card_bg() -> (r: Vec<u8>)
    ensures
        r@ == spec_theme_default_card_bg(),
{
    let v: Vec<u8> = vec![35u8, 49u8, 101u8, 49u8, 101u8, 49u8, 101u8];
    proof {
        assert(v@ =~= spec_theme_default_card_bg());
    }
    v
}

/// `#f3f4f6`
pub open spec fn spec_theme_default_text_primary() -> Seq<u8> {
    seq![35u8, 102u8, 51u8, 102u8, 52u8, 102u8, 54u8]
}

/// `#f3f4f6`
pub fn theme_default_text_primary() -> (r: Vec<u8>)
    ensures
        r@ == spec_theme_default_text_primary(),
{
    let v: Vec<u8> = vec![35u8, 102u8, 51u8, 102u8, 52u8, 102u8, 54u8];
    proof {
        assert(v@ =~= spec_theme_default_text_primary());
    }
    v
}

} // verus!
