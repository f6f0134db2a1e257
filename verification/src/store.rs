//! The overlay store: the default state, and the mutations that command
//! handlers apply to it — toggling a favorite, adding a custom game, and
//! replacing the settings. Every mutation preserves well-formedness; callers
//! persist the state right after mutating it.

use vstd::prelude::*;

use crate::lit::{custom_id_prefix, spec_custom_id_prefix, spec_theme_default_accent,
    spec_theme_default_bg_from, spec_theme_default_bg_to, spec_theme_default_card_bg,
    spec_theme_default_text_primary, theme_default_accent, theme_default_bg_from,
    theme_default_bg_to, theme_default_card_bg, theme_default_text_primary};
use crate::model::{drives_distinct, fav_set, favorites_distinct, keys_view, recs_view, seqs_view,
    state_wf, GameKey, GameRecord, KeyV, OverlayState, Platform, RecV, StateV, ThemeConfig,
    ThemeV};
use crate::text::{append_bytes, bytes_eq, dec_digits, u64_to_dec};

verus! {

// ----- Defaults -----

/// The default dark theme.
pub open spec fn spec_default_theme() -> ThemeV {
    ThemeV {
        accent: spec_theme_default_accent(),
        bg_from: spec_theme_default_bg_from(),
        bg_to: spec_theme_default_bg_to(),
        card_bg: spec_theme_default_card_bg(),
        text_primary: spec_theme_default_text_primary(),
    }
}

impl Default for ThemeConfig {
    /// The default dark theme.
    fn default() -> (r: ThemeConfig)
        ensures
            r@ == spec_default_theme(),
    {
        ThemeConfig {
            accent: theme_default_accent(),
            bg_from: theme_default_bg_from(),
            bg_to: theme_default_bg_to(),
            card_bg: theme_default_card_bg(),
            text_primary: theme_default_text_primary(),
        }
    }
}

/// The state of a first run: nothing saved yet, default theme.
pub open spec fn spec_default_state() -> StateV {
    StateV {
        favorites: Seq::empty(),
        custom_games: Seq::empty(),
        selected_drives: Seq::empty(),
        theme: spec_default_theme(),
    }
}

impl Default for OverlayState {
    /// The state of a first run, also substituted when loading fails.
    fn default() -> (r: OverlayState)
        ensures
            r@ == spec_default_state(),
            state_wf(r@),
    {
        let r = OverlayState {
            favorites: Vec::new(),
            custom_games: Vec::new(),
            selected_drives: Vec::new(),
            theme: ThemeConfig::default(),
        };
        proof {
            assert(keys_view(r.favorites@) =~= Seq::<KeyV>::empty());
            assert(recs_view(r.custom_games@) =~= Seq::<RecV>::empty());
            assert(seqs_view(r.selected_drives@) =~= Seq::<Seq<u8>>::empty());
        }
        r
    }
}

// ----- Toggling a favorite -----

/// The favorites after one toggle of `k`: membership of `k` flips, nothing
/// else moves.
pub open spec fn spec_toggle(favorites: Seq<KeyV>, k: KeyV) -> Seq<KeyV> {
    if favorites.contains(k) {
        favorites.remove(favorites.index_of(k))
    } else {
        favorites.push(k)
    }
}

/// Removing position `i` of a duplicate-free sequence removes exactly its
/// key from the carried set and keeps the rest distinct.
proof fn lemma_remove_distinct(s: Seq<KeyV>, i: int)
    requires
        favorites_distinct(s),
        0 <= i < s.len(),
    ensures
        favorites_distinct(s.remove(i)),
        s.remove(i).to_set() == s.to_set().remove(s[i]),
        !s.remove(i).contains(s[i]),
{
    let r = s.remove(i);
    assert forall|e: KeyV| r.to_set().contains(e) implies s.to_set().remove(s[i]).contains(e) by {
        let w = choose|w: int| 0 <= w < r.len() && r[w] == e;
        if w < i {
            assert(s[w] == e);
        } else {
            assert(s[w + 1] == e);
        }
    }
    assert forall|e: KeyV| s.to_set().remove(s[i]).contains(e) implies r.to_set().contains(e) by {
        let v = choose|v: int| 0 <= v < s.len() && s[v] == e;
        if v < i {
            assert(r[v] == e);
        } else {
            assert(v != i);
            assert(r[v - 1] == e);
        }
    }
    assert(r.to_set() =~= s.to_set().remove(s[i]));
    assert(!r.contains(s[i])) by {
        if r.contains(s[i]) {
            let w = choose|w: int| 0 <= w < r.len() && r[w] == s[i];
            if w < i {
                assert(s[w] == s[i]);
            } else {
                assert(s[w + 1] == s[i]);
            }
        }
    }
}

impl OverlayState {
    /// Flips whether `(platform, id)` is a favorite and reports the new
    /// membership: `true` exactly when the key was absent before.
    pub fn toggle_favorite(&mut self, platform: Platform, id: Vec<u8>) -> (fav: bool)
        requires
            state_wf(old(self)@),
        ensures
            state_wf(final(self)@),
            fav == !fav_set(old(self)@.favorites).contains(KeyV { platform, id: id@ }),
            final(self)@.favorites == spec_toggle(
                old(self)@.favorites,
                KeyV { platform, id: id@ },
            ),
            fav_set(final(self)@.favorites) == if fav {
                fav_set(old(self)@.favorites).insert(KeyV { platform, id: id@ })
            } else {
                fav_set(old(self)@.favorites).remove(KeyV { platform, id: id@ })
            },
            final(self)@.custom_games == old(self)@.custom_games,
            final(self)@.selected_drives == old(self)@.selected_drives,
            final(self)@.theme == old(self)@.theme,
    {
        let ghost k = KeyV { platform, id: id@ };
        let ghost kv = keys_view(self.favorites@);
        let mut i: usize = 0;
        let n = self.favorites.len();
        loop
            invariant
                i <= n,
                n == self.favorites@.len(),
                kv == keys_view(self.favorites@),
                k == (KeyV { platform, id: id@ }),
                forall|j: int| 0 <= j < i ==> #[trigger] kv[j] != k,
            ensures
                i <= kv.len(),
                forall|j: int| 0 <= j < i ==> #[trigger] kv[j] != k,
                i == kv.len() || kv[i as int] == k,
            decreases n - i,
        {
            if i == n {
                break ;
            }
            let same_platform = self.favorites[i].platform == platform;
            if same_platform && bytes_eq(self.favorites[i].id.as_slice(), id.as_slice()) {
                proof {
                    assert(kv[i as int] == k);
                }
                break ;
            }
            i = i + 1;
        }
        if i < self.favorites.len() {
            proof {
                assert(kv.contains(k));
                assert(kv.index_of(k) == i as int) by {
                    let w = kv.index_of(k);
                    if w != i as int {
                        assert(kv[w] == kv[i as int]);
                    }
                }
                lemma_remove_distinct(kv, i as int);
            }
            let _ = self.favorites.remove(i);
            proof {
                assert(keys_view(self.favorites@) =~= kv.remove(i as int));
                assert(fav_set(kv).contains(k));
            }
            false
        } else {
            proof {
                assert(!kv.contains(k));
            }
            self.favorites.push(GameKey { platform, id });
            proof {
                assert(keys_view(self.favorites@) =~= kv.push(k));
                assert(keys_view(self.favorites@).to_set() =~= kv.to_set().insert(k)) by {
                    kv.lemma_push_to_set_commute(k);
                }
                assert(favorites_distinct(kv.push(k))) by {
                    assert forall|a: int, b: int| 0 <= a < b < kv.push(k).len() implies kv.push(
                        k,
                    )[a] != kv.push(k)[b] by {
                        if b < kv.len() {
                            assert(kv[a] != kv[b]);
                        } else {
                            assert(kv.push(k)[a] == kv[a]);
                            if kv[a] == k {
                                assert(kv.contains(k));
                            }
                        }
                    }
                }
            }
            true
        }
    }
}

/// Favorite symmetry: toggling one key twice restores the original favorite
/// set; when the key was absent to begin with, the favorites sequence itself
/// is restored, so the state persisted after the second toggle equals the
/// original.
pub proof fn lemma_toggle_twice(favorites: Seq<KeyV>, k: KeyV)
    requires
        favorites_distinct(favorites),
    ensures
        fav_set(spec_toggle(spec_toggle(favorites, k), k)) == fav_set(favorites),
        !favorites.contains(k) ==> spec_toggle(spec_toggle(favorites, k), k) == favorites,
{
    if favorites.contains(k) {
        let i = favorites.index_of(k);
        let t1 = favorites.remove(i);
        lemma_remove_distinct(favorites, i);
        assert(spec_toggle(favorites, k) == t1);
        assert(!t1.contains(k));
        let t2 = t1.push(k);
        assert(spec_toggle(t1, k) == t2);
        t1.lemma_push_to_set_commute(k);
        assert(t2.to_set() =~= favorites.to_set());
    } else {
        let t1 = favorites.push(k);
        assert(t1.contains(k)) by {
            assert(t1[t1.len() - 1] == k);
        }
        let i = t1.index_of(k);
        assert(i == t1.len() - 1) by {
            if i < t1.len() - 1 {
                assert(favorites[i] == k);
                assert(favorites.contains(k));
            }
        }
        assert(t1.remove(i) =~= favorites);
        assert(spec_toggle(spec_toggle(favorites, k), k) == favorites);
        assert(fav_set(spec_toggle(spec_toggle(favorites, k), k)) == fav_set(favorites));
    }
}

// ----- Adding a custom game -----

/// The generated identifier of a custom game: a fixed prefix and the decimal
/// rendering of a monotonic time-based seed.
pub open spec fn spec_custom_id(seed: u64) -> Seq<u8> {
    spec_custom_id_prefix() + dec_digits(seed)
}

/// Some custom entry already carries the identifier `id`.
pub open spec fn has_custom_id(customs: Seq<RecV>, id: Seq<u8>) -> bool {
    exists|j: int| 0 <= j < customs.len() && (#[trigger] customs[j]).id == id
}

/// The custom record built from the user's input and the generated id.
pub open spec fn spec_custom_record(
    title: Seq<u8>,
    exe_path: Seq<u8>,
    image_path: Seq<u8>,
    seed: u64,
) -> RecV {
    RecV {
        id: spec_custom_id(seed),
        title: title,
        platform: Platform::Custom,
        image_path: image_path,
        exe_path: exe_path,
        install_dir: Seq::empty(),
        is_favorite: false,
    }
}

impl OverlayState {
    /// Appends a user-authored entry under a generated identifier. A seed
    /// whose identifier collides with an existing custom entry is rejected,
    /// keeping identifiers unique; the state is then unchanged and the call
    /// reports `false`.
    pub fn add_custom_game(
        &mut self,
        title: Vec<u8>,
        exe_path: Vec<u8>,
        image_path: Vec<u8>,
        seed: u64,
    ) -> (ok: bool)
        requires
            state_wf(old(self)@),
        ensures
            state_wf(final(self)@),
            ok == !has_custom_id(old(self)@.custom_games, spec_custom_id(seed)),
            ok ==> final(self)@.custom_games == old(self)@.custom_games.push(
                spec_custom_record(title@, exe_path@, image_path@, seed),
            ),
            !ok ==> final(self)@.custom_games == old(self)@.custom_games,
            final(self)@.favorites == old(self)@.favorites,
            final(self)@.selected_drives == old(self)@.selected_drives,
            final(self)@.theme == old(self)@.theme,
    {
        let ghost cv = recs_view(self.custom_games@);
        let mut id = custom_id_prefix();
        let digits = u64_to_dec(seed);
        append_bytes(&mut id, digits.as_slice());
        proof {
            assert(id@ == spec_custom_id(seed));
        }
        let mut j: usize = 0;
        let n = self.custom_games.len();
        while j < n
            invariant
                j <= n,
                n == self.custom_games@.len(),
                self@ == old(self)@,
                state_wf(self@),
                cv == recs_view(self.custom_games@),
                id@ == spec_custom_id(seed),
                forall|t: int| 0 <= t < j ==> (#[trigger] cv[t]).id != id@,
            decreases n - j,
        {
            if bytes_eq(self.custom_games[j].id.as_slice(), id.as_slice()) {
                proof {
                    assert(cv[j as int].id == id@);
                }
                return false;
            }
            j = j + 1;
        }
        proof {
            assert(!has_custom_id(cv, id@));
        }
        let rec = GameRecord {
            id,
            title,
            platform: Platform::Custom,
            image_path,
            exe_path,
            install_dir: Vec::new(),
            is_favorite: false,
        };
        proof {
            assert(rec@ == spec_custom_record(title@, exe_path@, image_path@, seed));
        }
        self.custom_games.push(rec);
        proof {
            assert(recs_view(self.custom_games@) =~= cv.push(rec@));
            assert forall|a: int, b: int| 0 <= a < b < cv.push(rec@).len() implies (
            #[trigger] cv.push(rec@)[a]).id != (#[trigger] cv.push(rec@)[b]).id by {
                if b < cv.len() {
                    assert(cv[a].id != cv[b].id);
                } else {
                    assert(cv.push(rec@)[a] == cv[a]);
                }
            }
        }
        true
    }
}

// ----- Updating the settings -----

/// First-occurrence deduplication of the drive prefixes.
pub open spec fn spec_dedup_drives(s: Seq<Seq<u8>>) -> Seq<Seq<u8>>
    decreases s.len(),
{
    if s.len() == 0 {
        Seq::empty()
    } else if s.drop_last().contains(s.last()) {
        spec_dedup_drives(s.drop_last())
    } else {
        spec_dedup_drives(s.drop_last()).push(s.last())
    }
}

/// Drive deduplication yields a duplicate-free sequence carrying exactly the
/// input's prefixes.
pub proof fn lemma_dedup_drives_props(s: Seq<Seq<u8>>)
    ensures
        drives_distinct(spec_dedup_drives(s)),
        forall|d: Seq<u8>| #[trigger] spec_dedup_drives(s).contains(d) <==> s.contains(d),
    decreases s.len(),
{
    if s.len() > 0 {
        let front = s.drop_last();
        let r = spec_dedup_drives(s);
        lemma_dedup_drives_props(front);
        assert forall|d: Seq<u8>| #[trigger] r.contains(d) implies s.contains(d) by {
            if spec_dedup_drives(front).contains(d) {
                let v = choose|v: int| 0 <= v < front.len() && front[v] == d;
                assert(s[v] == d);
            } else {
                let w = choose|w: int| 0 <= w < r.len() && r[w] == d;
                assert(d == s.last());
                assert(s[s.len() - 1] == d);
            }
        }
        assert forall|d: Seq<u8>| s.contains(d) implies #[trigger] r.contains(d) by {
            let v = choose|v: int| 0 <= v < s.len() && s[v] == d;
            if v < s.len() - 1 {
                assert(front[v] == d);
                assert(front.contains(d));
                assert(spec_dedup_drives(front).contains(d));
                if !front.contains(s.last()) {
                    let w = choose|w: int|
                        0 <= w < spec_dedup_drives(front).len() && spec_dedup_drives(front)[w]
                            == d;
                    assert(r[w] == d);
                }
            } else {
                if front.contains(s.last()) {
                    assert(front.contains(d));
                    assert(spec_dedup_drives(front).contains(d));
                } else {
                    assert(r[r.len() - 1] == d);
                }
            }
        }
        if !front.contains(s.last()) {
            assert forall|a: int, b: int| 0 <= a < b < r.len() implies r[a] != r[b] by {
                if b < r.len() - 1 {
                    assert(spec_dedup_drives(front)[a] != spec_dedup_drives(front)[b]);
                } else {
                    assert(r[a] == spec_dedup_drives(front)[a]);
                    assert(spec_dedup_drives(front).contains(r[a]));
                    assert(front.contains(r[a]));
                }
            }
        }
    }
}

/// Whether some element of `out` equals `d`.
fn drives_contain(out: &Vec<Vec<u8>>, d: &[u8]) -> (r: bool)
    ensures
        r == seqs_view(out@).contains(d@),
{
    let mut i: usize = 0;
    while i < out.len()
        invariant
            i <= out@.len(),
            forall|j: int| 0 <= j < i ==> #[trigger] seqs_view(out@)[j] != d@,
        decreases out@.len() - i,
    {
        if bytes_eq(out[i].as_slice(), d) {
            proof {
                assert(seqs_view(out@)[i as int] == d@);
            }
            return true;
        }
        i = i + 1;
    }
    proof {
        if seqs_view(out@).contains(d@) {
            let w = choose|w: int| 0 <= w < seqs_view(out@).len() && seqs_view(out@)[w] == d@;
        }
    }
    false
}

impl OverlayState {
    /// Replaces the theme and the selected drives wholesale; the drives keep
    /// their first occurrences only, as a set of prefixes.
    pub fn update_settings(&mut self, theme: ThemeConfig, selected_drives: Vec<Vec<u8>>)
        requires
            state_wf(old(self)@),
        ensures
            state_wf(final(self)@),
            final(self)@.theme == theme@,
            final(self)@.selected_drives == spec_dedup_drives(seqs_view(selected_drives@)),
            final(self)@.favorites == old(self)@.favorites,
            final(self)@.custom_games == old(self)@.custom_games,
    {
        let ghost dv = seqs_view(selected_drives@);
        let mut drives = selected_drives;
        let mut out: Vec<Vec<u8>> = Vec::new();
        let mut i: usize = 0;
        let n = drives.len();
        while i < n
            invariant
                i <= n,
                n == drives@.len(),
                dv == seqs_view(drives@),
                seqs_view(out@) == spec_dedup_drives(dv.take(i as int)),
            decreases n - i,
        {
            let seen = drives_contain(&out, drives[i].as_slice());
            proof {
                lemma_dedup_drives_props(dv.take(i as int));
                assert(dv.take(i + 1).drop_last() =~= dv.take(i as int));
                assert(dv.take(i + 1).last() == dv[i as int]);
                assert(dv[i as int] == drives@[i as int]@);
            }
            if !seen {
                let d = vstd::slice::slice_to_vec(drives[i].as_slice());
                let ghost prev = out@;
                out.push(d);
                proof {
                    assert(seqs_view(out@) =~= seqs_view(prev).push(dv[i as int]));
                }
            }
            i = i + 1;
            proof {
                assert(seqs_view(out@) =~= spec_dedup_drives(dv.take(i as int)));
            }
        }
        proof {
            assert(dv.take(n as int) =~= dv);
            lemma_dedup_drives_props(dv);
        }
        self.theme = theme;
        self.selected_drives = out;
    }

    /// A structural copy of the whole state, equal under the view; catalog
    /// requests read such a snapshot.
    pub fn snapshot(&self) -> (r: OverlayState)
        ensures
            r@ == self@,
    {
        let mut favorites: Vec<GameKey> = Vec::new();
        let mut i: usize = 0;
        while i < self.favorites.len()
            invariant
                i <= self.favorites@.len(),
                keys_view(favorites@) == keys_view(self.favorites@).take(i as int),
            decreases self.favorites@.len() - i,
        {
            let gk = GameKey {
                platform: self.favorites[i].platform,
                id: vstd::slice::slice_to_vec(self.favorites[i].id.as_slice()),
            };
            proof {
                assert(gk@ == self.favorites@[i as int]@);
            }
            let ghost prev = favorites@;
            favorites.push(gk);
            i = i + 1;
            proof {
                assert(keys_view(prev) == keys_view(self.favorites@).take(i - 1));
                assert(keys_view(prev).len() == i - 1);
                assert(prev.len() == i - 1);
                assert(favorites@.len() == i as int);
                assert forall|t: int| 0 <= t < i implies keys_view(favorites@)[t] == keys_view(
                    self.favorites@,
                ).take(i as int)[t] by {
                    if t < i - 1 {
                        assert(favorites@[t] == prev[t]);
                        assert(keys_view(prev)[t] == prev[t]@);
                    }
                }
                assert(keys_view(favorites@) =~= keys_view(self.favorites@).take(i as int));
            }
        }
        let mut custom_games: Vec<GameRecord> = Vec::new();
        let mut j: usize = 0;
        while j < self.custom_games.len()
            invariant
                j <= self.custom_games@.len(),
                recs_view(custom_games@) == recs_view(self.custom_games@).take(j as int),
            decreases self.custom_games@.len() - j,
        {
            let g = crate::catalog::clone_record(&self.custom_games[j]);
            proof {
                assert(g@ == self.custom_games@[j as int]@);
            }
            let ghost prev = custom_games@;
            custom_games.push(g);
            j = j + 1;
            proof {
                assert(recs_view(prev) == recs_view(self.custom_games@).take(j - 1));
                assert(recs_view(prev).len() == j - 1);
                assert(prev.len() == j - 1);
                assert(custom_games@.len() == j as int);
                assert forall|t: int| 0 <= t < j implies recs_view(custom_games@)[t] == recs_view(
                    self.custom_games@,
                ).take(j as int)[t] by {
                    if t < j - 1 {
                        assert(custom_games@[t] == prev[t]);
                        assert(recs_view(prev)[t] == prev[t]@);
                    }
                }
                assert(recs_view(custom_games@) =~= recs_view(self.custom_games@).take(j as int));
            }
        }
        let mut selected_drives: Vec<Vec<u8>> = Vec::new();
        let mut k: usize = 0;
        while k < self.selected_drives.len()
            invariant
                k <= self.selected_drives@.len(),
                seqs_view(selected_drives@) == seqs_view(self.selected_drives@).take(k as int),
            decreases self.selected_drives@.len() - k,
        {
            let d = vstd::slice::slice_to_vec(self.selected_drives[k].as_slice());
            proof {
                assert(d@ == self.selected_drives@[k as int]@);
            }
            let ghost prev = selected_drives@;
            selected_drives.push(d);
            k = k + 1;
            proof {
                assert(seqs_view(prev) == seqs_view(self.selected_drives@).take(k - 1));
                assert(seqs_view(prev).len() == k - 1);
                assert(prev.len() == k - 1);
                assert(selected_drives@.len() == k as int);
                assert forall|t: int| 0 <= t < k implies seqs_view(selected_drives@)[t]
                    == seqs_view(self.selected_drives@).take(k as int)[t] by {
                    if t < k - 1 {
                        assert(selected_drives@[t] == prev[t]);
                        assert(seqs_view(prev)[t] == prev[t]@);
                    }
                }
                assert(seqs_view(selected_drives@) =~= seqs_view(self.selected_drives@).take(
                    k as int,
                ));
            }
        }
        let theme = ThemeConfig {
            accent: vstd::slice::slice_to_vec(self.theme.accent.as_slice()),
            bg_from: vstd::slice::slice_to_vec(self.theme.bg_from.as_slice()),
            bg_to: vstd::slice::slice_to_vec(self.theme.bg_to.as_slice()),
            card_bg: vstd::slice::slice_to_vec(self.theme.card_bg.as_slice()),
            text_primary: vstd::slice::slice_to_vec(self.theme.text_primary.as_slice()),
        };
        let r = OverlayState { favorites, custom_games, selected_drives, theme };
        proof {
            assert(keys_view(self.favorites@).take(self.favorites@.len() as int) =~= keys_view(
                self.favorites@,
            ));
            assert(recs_view(self.custom_games@).take(self.custom_games@.len() as int)
                =~= recs_view(self.custom_games@));
            assert(seqs_view(self.selected_drives@).take(self.selected_drives@.len() as int)
                =~= seqs_view(self.selected_drives@));
        }
        r
    }
}

} // verus!
