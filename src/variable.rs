use vstd::prelude::*;
use std::collections::BTreeMap;
use crate::mod_config::{ModEntry, ModEntryV, mods_view};
use crate::text::owned;

verus! {

/// The mods that practice mode installs, with their version pins.
pub open spec fn practice_mods() -> Seq<ModEntryV> {
    seq![
        ModEntryV {
            dev: "giosuel"@,
            name: "Imperium"@,
            enabled: true,
            low_cap: Some(50u32),
            high_cap: None,
            version_config: map![
                50u32 => "0.1.9"@,
                56u32 => "0.2.1"@,
                60u32 => "0.2.2"@,
                62u32 => "0.2.7"@,
                66u32 => "0.2.8"@,
                70u32 => "1.1.1"@,
            ],
        },
        ModEntryV {
            dev: "Lordfirespeed"@,
            name: "OdinSerializer"@,
            enabled: true,
            low_cap: Some(56u32),
            high_cap: None,
            version_config: Map::empty(),
        },
        ModEntryV {
            dev: "xilophor"@,
            name: "LethalNetworkAPI"@,
            enabled: true,
            low_cap: Some(56u32),
            high_cap: None,
            version_config: map![
                56u32 => "2.2.0"@,
                60u32 => "3.2.0"@,
                62u32 => "3.2.1"@,
                66u32 => "3.3.1"@,
            ],
        },
        ModEntryV {
            dev: "megumin"@,
            name: "LethalDevMode"@,
            enabled: true,
            low_cap: Some(45u32),
            high_cap: None,
            version_config: Map::empty(),
        },
        ModEntryV {
            dev: "aoirint"@,
            name: "CruiserJumpPractice"@,
            enabled: true,
            low_cap: Some(56u32),
            high_cap: None,
            version_config: Map::empty(),
        },
    ]
}

fn pins(pairs: &[(u32, &str)]) -> (r: BTreeMap<u32, String>)
    ensures
        forall|k: u32|
            #[trigger] r@.contains_key(k) <==> exists|i: int|
                0 <= i < pairs.len() && pairs[i].0 == k,
        forall|i: int|
            0 <= i < pairs.len() && (forall|j: int| i < j < pairs.len() ==> pairs[j].0 != pairs[i].0)
                ==> #[trigger] r@[pairs[i].0]@ == pairs[i].1@,
{
    let mut m: BTreeMap<u32, String> = BTreeMap::new();
    let mut i: usize = 0;
    while i < pairs.len()
        invariant
            i <= pairs.len(),
            forall|k: u32|
                #[trigger] m@.contains_key(k) <==> exists|j: int| 0 <= j < i && pairs[j].0 == k,
            forall|j: int|
                0 <= j < i && (forall|l: int| j < l < i ==> pairs[l].0 != pairs[j].0)
                    ==> #[trigger] m@[pairs[j].0]@ == pairs[j].1@,
        decreases pairs.len() - i,
    {
        let (k, v) = pairs[i];
        m.insert(k, owned(v));
        proof {
            assert forall|k2: u32| #[trigger] m@.contains_key(k2) implies exists|j: int|
                0 <= j < i + 1 && pairs[j].0 == k2 by {
                if k2 != k {
                    let j = choose|j: int| 0 <= j < i && pairs[j].0 == k2;
                    assert(0 <= j < i + 1 && pairs[j].0 == k2);
                } else {
                    assert(pairs[i as int].0 == k2);
                }
            }
        }
        i += 1;
    }
    m
}

fn practice_entry(dev: &str, name: &str, low_cap: u32, version_config: BTreeMap<u32, String>) -> (r: ModEntry)
    ensures
        r.dev@ == dev@,
        r.name@ == name@,
        r.enabled,
        r.low_cap == Some(low_cap),
        r.high_cap is None,
        r.version_config@ == version_config@,
{
    ModEntry {
        dev: owned(dev),
        name: owned(name),
        enabled: true,
        low_cap: Some(low_cap),
        high_cap: None,
        version_config,
    }
}

/// The mods that practice mode installs: the game's developer tools and
/// their dependencies, each from a minimum game version on, some pinned to
/// package versions by game version.
pub fn get_practice_mod_list() -> (r: Vec<ModEntry>)
    ensures
        mods_view(r@) == practice_mods(),
{
    let imperium = pins(
        &[(50, "0.1.9"), (56, "0.2.1"), (60, "0.2.2"), (62, "0.2.7"), (66, "0.2.8"), (70, "1.1.1")],
    );
    let network = pins(&[(56, "2.2.0"), (60, "3.2.0"), (62, "3.2.1"), (66, "3.3.1")]);
    let r = vec![
        practice_entry("giosuel", "Imperium", 50, imperium),
        practice_entry("Lordfirespeed", "OdinSerializer", 56, BTreeMap::new()),
        practice_entry("xilophor", "LethalNetworkAPI", 56, network),
        practice_entry("megumin", "LethalDevMode", 45, BTreeMap::new()),
        practice_entry("aoirint", "CruiserJumpPractice", 56, BTreeMap::new()),
    ];
    proof {
        let p = practice_mods();
        assert(r@[0]@.version_config == p[0].version_config);
        assert(r@[1]@.version_config == p[1].version_config);
        assert(r@[2]@.version_config == p[2].version_config);
        assert(r@[3]@.version_config == p[3].version_config);
        assert(r@[4]@.version_config == p[4].version_config);
        assert(mods_view(r@) == p);
    }
    r
}

} // verus!
