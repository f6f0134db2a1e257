//! The data model: game records, composite keys, the user-owned overlay
//! state, and their well-formedness invariants.

use vstd::prelude::*;

verus! {

/// The origin system of a game record.
#[derive(Clone, Copy, PartialEq, Eq, Structural, Debug)]
pub enum Platform {
    Steam,
    Gog,
    Epic,
    Ea,
    Ubisoft,
    Custom,
}

/// One discovered or user-added game.
#[derive(PartialEq, Eq, Debug)]
pub struct GameRecord {
    /// Platform-scoped identifier, an opaque byte string.
    pub id: Vec<u8>,
    pub title: Vec<u8>,
    pub platform: Platform,
    /// Empty means no cover image is known.
    pub image_path: Vec<u8>,
    /// Empty means no executable is known.
    pub exe_path: Vec<u8>,
    /// Empty means the install location is unknown.
    pub install_dir: Vec<u8>,
    /// Derived on every catalog build; never persisted per record.
    pub is_favorite: bool,
}

/// Mathematical model of a game record.
#[verifier::ext_equal]
pub ghost struct RecV {
    pub id: Seq<u8>,
    pub title: Seq<u8>,
    pub platform: Platform,
    pub image_path: Seq<u8>,
    pub exe_path: Seq<u8>,
    pub install_dir: Seq<u8>,
    pub is_favorite: bool,
}

impl View for GameRecord {
    type V = RecV;

    open spec fn view(&self) -> RecV {
        RecV {
            id: self.id@,
            title: self.title@,
            platform: self.platform,
            image_path: self.image_path@,
            exe_path: self.exe_path@,
            install_dir: self.install_dir@,
            is_favorite: self.is_favorite,
        }
    }
}

/// The composite identity of a record: no two records of one catalog may
/// share a key.
#[derive(PartialEq, Eq, Debug)]
pub struct GameKey {
    pub platform: Platform,
    pub id: Vec<u8>,
}

/// Mathematical model of a composite key.
#[verifier::ext_equal]
pub ghost struct KeyV {
    pub platform: Platform,
    pub id: Seq<u8>,
}

impl View for GameKey {
    type V = KeyV;

    open spec fn view(&self) -> KeyV {
        KeyV { platform: self.platform, id: self.id@ }
    }
}

impl RecV {
    /// The composite key of a record.
    pub open spec fn key(self) -> KeyV {
        KeyV { platform: self.platform, id: self.id }
    }
}

/// The named colors of the display theme.
#[derive(PartialEq, Eq, Debug)]
pub struct ThemeConfig {
    pub accent: Vec<u8>,
    pub bg_from: Vec<u8>,
    pub bg_to: Vec<u8>,
    pub card_bg: Vec<u8>,
    pub text_primary: Vec<u8>,
}

/// Mathematical model of a theme.
#[verifier::ext_equal]
pub ghost struct ThemeV {
    pub accent: Seq<u8>,
    pub bg_from: Seq<u8>,
    pub bg_to: Seq<u8>,
    pub card_bg: Seq<u8>,
    pub text_primary: Seq<u8>,
}

impl View for ThemeConfig {
    type V = ThemeV;

    open spec fn view(&self) -> ThemeV {
        ThemeV {
            accent: self.accent@,
            bg_from: self.bg_from@,
            bg_to: self.bg_to@,
            card_bg: self.card_bg@,
            text_primary: self.text_primary@,
        }
    }
}

/// The user-owned persisted state: favorites, custom entries, storage-root
/// selection, and theme.
#[derive(PartialEq, Eq, Debug)]
pub struct OverlayState {
    /// Composite keys of the records marked as favorites; pairwise distinct.
    pub favorites: Vec<GameKey>,
    /// User-authored entries, always of the `Custom` platform, with pairwise
    /// distinct identifiers.
    pub custom_games: Vec<GameRecord>,
    /// Storage-root prefixes that discovered games are filtered by; empty
    /// means no filtering.
    pub selected_drives: Vec<Vec<u8>>,
    pub theme: ThemeConfig,
}

/// Mathematical model of the overlay state.
#[verifier::ext_equal]
pub ghost struct StateV {
    pub favorites: Seq<KeyV>,
    pub custom_games: Seq<RecV>,
    pub selected_drives: Seq<Seq<u8>>,
    pub theme: ThemeV,
}

/// Views of a sequence of records.
pub open spec fn recs_view(s: Seq<GameRecord>) -> Seq<RecV> {
    s.map_values(|g: GameRecord| g@)
}

/// Views of a sequence of keys.
pub open spec fn keys_view(s: Seq<GameKey>) -> Seq<KeyV> {
    s.map_values(|k: GameKey| k@)
}

/// Views of a sequence of byte strings.
pub open spec fn seqs_view(s: Seq<Vec<u8>>) -> Seq<Seq<u8>> {
    s.map_values(|d: Vec<u8>| d@)
}

impl View for OverlayState {
    type V = StateV;

    open spec fn view(&self) -> StateV {
        StateV {
            favorites: keys_view(self.favorites@),
            custom_games: recs_view(self.custom_games@),
            selected_drives: seqs_view(self.selected_drives@),
            theme: self.theme@,
        }
    }
}

/// The favorite keys, as the set that the sequence carries.
pub open spec fn fav_set(favorites: Seq<KeyV>) -> Set<KeyV> {
    favorites.to_set()
}

/// The favorites hold each key at most once.
pub open spec fn favorites_distinct(favorites: Seq<KeyV>) -> bool {
    forall|i: int, j: int|
        0 <= i < j < favorites.len() ==> favorites[i] != favorites[j]
}

/// Custom entries are of the `Custom` platform, carry no stored favorite
/// flag, and have pairwise distinct identifiers.
pub open spec fn customs_wf(customs: Seq<RecV>) -> bool {
    &&& forall|i: int|
        0 <= i < customs.len() ==> (#[trigger] customs[i]).platform == Platform::Custom
            && customs[i].is_favorite == false
    &&& forall|i: int, j: int|
        0 <= i < j < customs.len() ==> customs[i].id != customs[j].id
}

/// The selected drives hold each prefix at most once.
pub open spec fn drives_distinct(drives: Seq<Seq<u8>>) -> bool {
    forall|i: int, j: int| 0 <= i < j < drives.len() ==> drives[i] != drives[j]
}

/// Well-formedness of the overlay state; constructors establish it and every
/// mutation preserves it.
pub open spec fn state_wf(st: StateV) -> bool {
    &&& favorites_distinct(st.favorites)
    &&& customs_wf(st.custom_games)
    &&& drives_distinct(st.selected_drives)
}

} // verus!
