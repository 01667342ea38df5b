use vstd::prelude::*;
use std::collections::BTreeMap;
use crate::text::{equals_str, owned};

verus! {

broadcast use {vstd::std_specs::btree::group_btree_axioms, vstd::laws_cmp::group_laws_cmp};

/// One mod of the launcher's list: a package by `dev`, installed for game
/// versions from `low_cap` to `high_cap` inclusive, and pinned to a package
/// version by game version thresholds in `version_config`.
#[derive(Debug, Clone)]
pub struct ModEntry {
    pub name: String,
    pub dev: String,
    pub enabled: bool,
    pub low_cap: Option<u32>,
    pub high_cap: Option<u32>,
    pub version_config: BTreeMap<u32, String>,
}

/// The launcher's list of mods.
#[derive(Debug, Clone)]
pub struct ModsConfig {
    pub mods: Vec<ModEntry>,
}

/// The mod list as the remote manifest publishes it.
#[derive(Debug, Clone)]
pub struct RemoteManifest {
    pub version: u32,
    pub mods: Vec<ModEntry>,
}

pub struct ModEntryV {
    pub name: Seq<char>,
    pub dev: Seq<char>,
    pub enabled: bool,
    pub low_cap: Option<u32>,
    pub high_cap: Option<u32>,
    pub version_config: Map<u32, Seq<char>>,
}

impl View for ModEntry {
    type V = ModEntryV;

    open spec fn view(&self) -> ModEntryV {
        ModEntryV {
            name: self.name@,
            dev: self.dev@,
            enabled: self.enabled,
            low_cap: self.low_cap,
            high_cap: self.high_cap,
            version_config: self.version_config@.map_values(|s: String| s@),
        }
    }
}

/// Whether a mod is installed for the game version: it is enabled and the
/// version lies within its bounds.
pub open spec fn compatible(m: ModEntryV, game_version: u32) -> bool {
    &&& m.enabled
    &&& (m.low_cap matches Some(min) ==> game_version >= min)
    &&& (m.high_cap matches Some(max) ==> game_version <= max)
}

/// Whether `k` is the greatest threshold of `m` at or below `game_version`.
pub open spec fn is_pinned_key(m: Map<u32, Seq<char>>, game_version: u32, k: u32) -> bool {
    &&& m.contains_key(k)
    &&& k <= game_version
    &&& forall|k2: u32| #[trigger] m.contains_key(k2) && k2 <= game_version ==> k2 <= k
}

/// The version pinned for a game version: the one under the greatest
/// threshold at or below it, if any.
pub open spec fn pinned_for(m: Map<u32, Seq<char>>, game_version: u32) -> Option<Seq<char>> {
    if exists|k: u32| is_pinned_key(m, game_version, k) {
        Some(m[choose|k: u32| is_pinned_key(m, game_version, k)])
    } else {
        None
    }
}

pub proof fn lemma_pinned_key_unique(m: Map<u32, Seq<char>>, game_version: u32, k1: u32, k2: u32)
    requires
        is_pinned_key(m, game_version, k1),
        is_pinned_key(m, game_version, k2),
    ensures
        k1 == k2,
{
    assert(k1 <= k2 && k2 <= k1);
}

/// The default for a missing `enabled` field: mods are on.
pub fn default_true() -> (r: bool)
    ensures
        r,
{
    true
}

impl ModEntry {
    /// Whether the mod is installed for `game_version`.
    pub fn is_compatible(&self, game_version: u32) -> (r: bool)
        ensures
            r == compatible(self@, game_version),
    {
        if !self.enabled {
            return false;
        }
        if let Some(min) = self.low_cap {
            if game_version < min {
                return false;
            }
        }
        if let Some(max) = self.high_cap {
            if game_version > max {
                return false;
            }
        }
        true
    }

    /// The package version pinned for `game_version`: the one under the
    /// greatest threshold at or below it, or None where every threshold is
    /// above it.
    pub fn pinned_version_for(&self, game_version: u32) -> (r: Option<&str>)
        ensures
            match r {
                Some(s) => pinned_for(self@.version_config, game_version) == Some(s@),
                None => pinned_for(self@.version_config, game_version) is None,
            },
            match r {
                Some(s) => exists|k: u32|
                    is_pinned_key(self@.version_config, game_version, k)
                        && #[trigger] self@.version_config[k] == s@,
                None => forall|k: u32| #[trigger]
                    self@.version_config.contains_key(k) ==> k > game_version,
            },
    {
        let ghost m = self.version_config@;
        let ghost mut seen: Set<u32> = Set::empty();
        let mut best: Option<(u32, &String)> = None;
        for kv in it: self.version_config.iter()
            invariant
                m == self.version_config@,
                forall|i: int|
                    0 <= i < it.seq().len() ==> m.contains_key(*#[trigger] it.seq()[i].0) && m[*it.seq()[i].0]
                        == *it.seq()[i].1,
                forall|k: u32| #[trigger] m.contains_key(k) ==> it.seq().contains((&k, &m[k])),
                forall|i: int| 0 <= i < it.index() ==> seen.contains(*#[trigger] it.seq()[i].0),
                forall|k: u32| #[trigger] seen.contains(k) ==> m.contains_key(k),
                match best {
                    Some((bk, bv)) => seen.contains(bk) && bk <= game_version && m[bk] == *bv
                        && forall|k2: u32| #[trigger] seen.contains(k2) && k2 <= game_version ==> k2 <= bk,
                    None => forall|k2: u32| #[trigger] seen.contains(k2) ==> k2 > game_version,
                },
                it.index() == it.seq().len() ==> forall|k: u32| #[trigger] m.contains_key(k) ==> seen.contains(k),
        {
            let k: u32 = *kv.0;
            proof {
                seen = seen.insert(k);
            }
            if k <= game_version {
                match best {
                    Some((bk, _)) => {
                        if k >= bk {
                            best = Some((k, kv.1));
                        }
                    },
                    None => {
                        best = Some((k, kv.1));
                    },
                }
            }
            proof {
                assert forall|k3: u32| #[trigger] m.contains_key(k3) && it.index() + 1 == it.seq().len() implies seen.contains(k3) by {
                    let i = choose|i: int| 0 <= i < it.seq().len() && it.seq()[i] == (&k3, &m[k3]);
                    assert(seen.contains(*it.seq()[i].0));
                }
            }
        }
        match best {
            Some((bk, bv)) => {
                assert(is_pinned_key(self@.version_config, game_version, bk));
                assert(self@.version_config[bk] == bv@);
                proof {
                    let k = choose|k: u32| is_pinned_key(self@.version_config, game_version, k);
                    lemma_pinned_key_unique(self@.version_config, game_version, k, bk);
                }
                Some(bv.as_str())
            },
            None => {
                proof {
                    if exists|k: u32| is_pinned_key(self@.version_config, game_version, k) {
                        let k = choose|k: u32| is_pinned_key(self@.version_config, game_version, k);
                        assert(self@.version_config.contains_key(k));
                    }
                }
                None
            },
        }
    }
}

} // verus!

verus! {

pub open spec fn plain_mod(dev: Seq<char>, name: Seq<char>, low_cap: Option<u32>) -> ModEntryV {
    ModEntryV {
        name,
        dev,
        enabled: true,
        low_cap,
        high_cap: None,
        version_config: Map::empty(),
    }
}

/// An enabled mod without an upper bound or pinned versions.
fn plain_entry(dev: &str, name: &str, low_cap: Option<u32>) -> (r: ModEntry)
    ensures
        r@ == plain_mod(dev@, name@, low_cap),
{
    let r = ModEntry {
        name: owned(name),
        dev: owned(dev),
        enabled: true,
        low_cap,
        high_cap: None,
        version_config: BTreeMap::new(),
    };
    assert(r@.version_config == Map::<u32, Seq<char>>::empty());
    r
}

/// Adds a pinned version under a game version threshold.
fn pin(m: &mut BTreeMap<u32, String>, k: u32, v: &str)
    ensures
        final(m)@.map_values(|s: String| s@) == old(m)@.map_values(|s: String| s@).insert(k, v@),
{
    m.insert(k, owned(v));
    assert(m@.map_values(|s: String| s@) == old(m)@.map_values(|s: String| s@).insert(k, v@));
}

/// Dev, name and lower bound of each mod of the built-in default list.
pub open spec fn lethal_company_defaults() -> Seq<(Seq<char>, Seq<char>, Option<u32>)> {
    seq![
        ("HQHQTeam"@, "VLog"@, None),
        ("Chboo1"@, "High_Quota_Fixes"@, None),
        ("tinyhoot"@, "ShipLoot"@, None),
        ("Drakorle"@, "MoreItems"@, None),
        ("mattymatty"@, "TooManyItems"@, None),
        ("Zaggy1024"@, "PathfindingLagFix"@, None),
        ("LeKAKiD"@, "FontPatcher"@, None),
        ("ViVKo"@, "NoSellLimit"@, None),
        ("quackandcheese"@, "ToggleMute"@, None),
        ("Pooble"@, "LCBetterSaves"@, None),
        ("fumiko"@, "CullFactory"@, None),
        ("AdiBTW"@, "Loadstone"@, None),
        ("mrov"@, "LightsOut"@, None),
        ("Zehs"@, "StreamOverlays"@, None),
        ("MysticDEV"@, "BetterCruiserSync"@, Some(56u32)),
        ("Hardy"@, "LCMaxSoundsFix"@, None),
        ("Scoops"@, "LethalSpongeLegacy"@, None),
    ]
}

pub open spec fn mods_view(v: Seq<ModEntry>) -> Seq<ModEntryV> {
    v.map_values(|m: ModEntry| m@)
}

/// A mod with the common misspelling of one package's name corrected.
pub open spec fn alias_fixed(m: ModEntryV) -> ModEntryV {
    if m.dev == "Hardy"@ && m.name == "LCMaxSoundFix"@ {
        ModEntryV { name: "LCMaxSoundsFix"@, ..m }
    } else {
        m
    }
}

pub open spec fn needs_alias_fix(m: ModEntryV) -> bool {
    m.dev == "Hardy"@ && m.name == "LCMaxSoundFix"@
}

impl ModsConfig {
    /// The built-in mod list: every mod enabled, without an upper bound or
    /// pinned versions, one of them from game version 56 on.
    pub fn default_for_lethal_company() -> (r: Self)
        ensures
            r.mods.len() == lethal_company_defaults().len(),
            forall|i: int|
                0 <= i < r.mods.len() ==> #[trigger] r.mods@[i]@ == plain_mod(
                    lethal_company_defaults()[i].0,
                    lethal_company_defaults()[i].1,
                    lethal_company_defaults()[i].2,
                ),
    {
        let mods = vec![
            plain_entry("HQHQTeam", "VLog", None),
            plain_entry("Chboo1", "High_Quota_Fixes", None),
            plain_entry("tinyhoot", "ShipLoot", None),
            plain_entry("Drakorle", "MoreItems", None),
            plain_entry("mattymatty", "TooManyItems", None),
            plain_entry("Zaggy1024", "PathfindingLagFix", None),
            plain_entry("LeKAKiD", "FontPatcher", None),
            plain_entry("ViVKo", "NoSellLimit", None),
            plain_entry("quackandcheese", "ToggleMute", None),
            plain_entry("Pooble", "LCBetterSaves", None),
            plain_entry("fumiko", "CullFactory", None),
            plain_entry("AdiBTW", "Loadstone", None),
            plain_entry("mrov", "LightsOut", None),
            plain_entry("Zehs", "StreamOverlays", None),
            plain_entry("MysticDEV", "BetterCruiserSync", Some(56)),
            plain_entry("Hardy", "LCMaxSoundsFix", None),
            plain_entry("Scoops", "LethalSpongeLegacy", None),
        ];
        Self { mods }
    }
}

/// Corrects the common misspelling `Hardy-LCMaxSoundFix` to
/// `Hardy-LCMaxSoundsFix`; returns whether any mod changed.
pub fn normalize_aliases(cfg: &mut ModsConfig) -> (changed: bool)
    ensures
        mods_view(final(cfg).mods@) == mods_view(old(cfg).mods@).map_values(
            |m: ModEntryV| alias_fixed(m),
        ),
        changed == exists|i: int|
            0 <= i < old(cfg).mods.len() && needs_alias_fix(#[trigger] old(cfg).mods@[i]@),
{
    let ghost start = mods_view(cfg.mods@);
    let mut changed = false;
    let mut i: usize = 0;
    while i < cfg.mods.len()
        invariant
            i <= cfg.mods.len(),
            start.len() == cfg.mods.len(),
            start == mods_view(old(cfg).mods@),
            forall|j: int| 0 <= j < i ==> #[trigger] cfg.mods@[j]@ == alias_fixed(start[j]),
            forall|j: int| i <= j < cfg.mods.len() ==> #[trigger] cfg.mods@[j]@ == start[j],
            changed == exists|j: int| 0 <= j < i && needs_alias_fix(#[trigger] start[j]),
        decreases cfg.mods.len() - i,
    {
        let mut m = cfg.mods.remove(i);
        assert(m@ == start[i as int]);
        if equals_str(&m.dev, "Hardy") && equals_str(&m.name, "LCMaxSoundFix") {
            m.name = owned("LCMaxSoundsFix");
            changed = true;
        }
        cfg.mods.insert(i, m);
        i += 1;
    }
    assert(mods_view(cfg.mods@) == start.map_values(|m: ModEntryV| alias_fixed(m)));
    proof {
        if changed {
            let j = choose|j: int| 0 <= j < i && needs_alias_fix(#[trigger] start[j]);
            assert(start[j] == old(cfg).mods@[j]@);
        }
        if exists|j: int| 0 <= j < old(cfg).mods.len() && needs_alias_fix(#[trigger] old(cfg).mods@[j]@) {
            let j = choose|j: int| 0 <= j < old(cfg).mods.len() && needs_alias_fix(#[trigger] old(cfg).mods@[j]@);
            assert(start[j] == old(cfg).mods@[j]@);
        }
    }
    changed
}

impl ModsConfig {
    /// The version number and mod list of a fetched manifest, with
    /// misspelled names corrected.
    pub fn from_manifest(manifest: RemoteManifest) -> (r: (u32, Self))
        ensures
            r.0 == manifest.version,
            mods_view(r.1.mods@) == mods_view(manifest.mods@).map_values(
                |m: ModEntryV| alias_fixed(m),
            ),
    {
        let mut cfg = ModsConfig { mods: manifest.mods };
        let _ = normalize_aliases(&mut cfg);
        (manifest.version, cfg)
    }
}

} // verus!
