//! Path -> struct-type hints for `MapProperty` keys and values whose real struct type
//! is not recorded on the wire. Paths are dotted from the save root exactly as
//! `Cursor::child_path` builds them (e.g. `worldSaveData.GroupSaveDataMap.Key`).
//!
//! Two lists: struct-hint paths are keys or values that are a *generic* struct (a
//! None-terminated property list); guid-hint paths are keys or values that are a
//! bare 16-byte Guid. A path in neither list falls back to the default: Guid for
//! keys, generic struct for values.

use vstd::prelude::*;
use vstd::string::*;
use super::primitives::bytes_equal_str;

verus! {

/// Paths whose key or value is a generic struct.
pub open spec fn struct_hint_paths() -> Seq<&'static str> {
    seq![
        "worldSaveData.CharacterContainerSaveData.Key",
        "worldSaveData.CharacterSaveParameterMap.Key",
        "worldSaveData.CharacterSaveParameterMap.Value",
        "worldSaveData.FoliageGridSaveDataMap.Key",
        "worldSaveData.FoliageGridSaveDataMap.Value",
        "worldSaveData.FoliageGridSaveDataMap.ModelMap.Value",
        "worldSaveData.FoliageGridSaveDataMap.ModelMap.InstanceDataMap.Key",
        "worldSaveData.FoliageGridSaveDataMap.ModelMap.InstanceDataMap.Value",
        "worldSaveData.ItemContainerSaveData.Key",
        "worldSaveData.ItemContainerSaveData.Value",
        "worldSaveData.MapObjectSaveData.ConcreteModel.ModuleMap.Value",
        "worldSaveData.MapObjectSaveData.Model.EffectMap.Value",
        "worldSaveData.MapObjectSpawnerInStageSaveData.Key",
        "worldSaveData.MapObjectSpawnerInStageSaveData.Value",
        "worldSaveData.MapObjectSpawnerInStageSaveData.Value.SpawnerDataMapByLevelObjectInstanceId.Value",
        "worldSaveData.MapObjectSpawnerInStageSaveData.Value.SpawnerDataMapByLevelObjectInstanceId.Value.ItemMap.Value",
        "worldSaveData.WorkSaveData.WorkAssignMap.Value",
        "worldSaveData.BaseCampSaveData.Value",
        "worldSaveData.BaseCampSaveData.ModuleMap.Value",
        "worldSaveData.CharacterContainerSaveData.Value",
        "worldSaveData.GroupSaveDataMap.Value",
        "worldSaveData.EnemyCampSaveData.EnemyCampStatusMap.Value",
        "worldSaveData.EnemyCampSaveData.EnemyCampStatusMap.Value.TreasureBoxInfoMapBySpawnerName.Value",
        "worldSaveData.DungeonSaveData.MapObjectSaveData.Model.EffectMap.Value",
        "worldSaveData.DungeonSaveData.MapObjectSaveData.ConcreteModel.ModuleMap.Value",
        "worldSaveData.InvaderSaveData.Value",
        "worldSaveData.OilrigSaveData.OilrigMap.Value",
        "worldSaveData.SupplySaveData.SupplyInfos.Value",
        "worldSaveData.GuildExtraSaveDataMap.Value",
        "SaveData.Local_MaxFriendshipPalIds.Value",
        "SaveData.Local_MaxFriendshipPalIds.Key",
        "worldSaveData.MapObjectSpawnerInStageSaveData.SpawnerDataMapByLevelObjectInstanceId.Value",
        "worldSaveData.MapObjectSpawnerInStageSaveData.SpawnerDataMapByLevelObjectInstanceId.ItemMap.Value",
        "worldSaveData.DungeonSaveData.RewardSaveDataMap.Value",
    ]
}

/// Paths whose key or value is a bare Guid.
pub open spec fn guid_hint_paths() -> Seq<&'static str> {
    seq![
        "worldSaveData.MapObjectSpawnerInStageSaveData.Value.SpawnerDataMapByLevelObjectInstanceId.Key",
        "worldSaveData.BaseCampSaveData.Key",
        "worldSaveData.GroupSaveDataMap.Key",
        "worldSaveData.InvaderSaveData.Key",
        "worldSaveData.SupplySaveData.SupplyInfos.Key",
        "worldSaveData.GuildExtraSaveDataMap.Key",
        "worldSaveData.MapObjectSpawnerInStageSaveData.SpawnerDataMapByLevelObjectInstanceId.Key",
        "worldSaveData.DungeonSaveData.RewardSaveDataMap.Key",
    ]
}

fn struct_hints() -> (v: Vec<&'static str>)
    ensures
        v@ == struct_hint_paths(),
{
    let v = vec![
        "worldSaveData.CharacterContainerSaveData.Key",
        "worldSaveData.CharacterSaveParameterMap.Key",
        "worldSaveData.CharacterSaveParameterMap.Value",
        "worldSaveData.FoliageGridSaveDataMap.Key",
        "worldSaveData.FoliageGridSaveDataMap.Value",
        "worldSaveData.FoliageGridSaveDataMap.ModelMap.Value",
        "worldSaveData.FoliageGridSaveDataMap.ModelMap.InstanceDataMap.Key",
        "worldSaveData.FoliageGridSaveDataMap.ModelMap.InstanceDataMap.Value",
        "worldSaveData.ItemContainerSaveData.Key",
        "worldSaveData.ItemContainerSaveData.Value",
        "worldSaveData.MapObjectSaveData.ConcreteModel.ModuleMap.Value",
        "worldSaveData.MapObjectSaveData.Model.EffectMap.Value",
        "worldSaveData.MapObjectSpawnerInStageSaveData.Key",
        "worldSaveData.MapObjectSpawnerInStageSaveData.Value",
        "worldSaveData.MapObjectSpawnerInStageSaveData.Value.SpawnerDataMapByLevelObjectInstanceId.Value",
        "worldSaveData.MapObjectSpawnerInStageSaveData.Value.SpawnerDataMapByLevelObjectInstanceId.Value.ItemMap.Value",
        "worldSaveData.WorkSaveData.WorkAssignMap.Value",
        "worldSaveData.BaseCampSaveData.Value",
        "worldSaveData.BaseCampSaveData.ModuleMap.Value",
        "worldSaveData.CharacterContainerSaveData.Value",
        "worldSaveData.GroupSaveDataMap.Value",
        "worldSaveData.EnemyCampSaveData.EnemyCampStatusMap.Value",
        "worldSaveData.EnemyCampSaveData.EnemyCampStatusMap.Value.TreasureBoxInfoMapBySpawnerName.Value",
        "worldSaveData.DungeonSaveData.MapObjectSaveData.Model.EffectMap.Value",
        "worldSaveData.DungeonSaveData.MapObjectSaveData.ConcreteModel.ModuleMap.Value",
        "worldSaveData.InvaderSaveData.Value",
        "worldSaveData.OilrigSaveData.OilrigMap.Value",
        "worldSaveData.SupplySaveData.SupplyInfos.Value",
        "worldSaveData.GuildExtraSaveDataMap.Value",
        "SaveData.Local_MaxFriendshipPalIds.Value",
        "SaveData.Local_MaxFriendshipPalIds.Key",
        "worldSaveData.MapObjectSpawnerInStageSaveData.SpawnerDataMapByLevelObjectInstanceId.Value",
        "worldSaveData.MapObjectSpawnerInStageSaveData.SpawnerDataMapByLevelObjectInstanceId.ItemMap.Value",
        "worldSaveData.DungeonSaveData.RewardSaveDataMap.Value",
    ];
    assert(v@ =~= struct_hint_paths());
    v
}

fn guid_hints() -> (v: Vec<&'static str>)
    ensures
        v@ == guid_hint_paths(),
{
    let v = vec![
        "worldSaveData.MapObjectSpawnerInStageSaveData.Value.SpawnerDataMapByLevelObjectInstanceId.Key",
        "worldSaveData.BaseCampSaveData.Key",
        "worldSaveData.GroupSaveDataMap.Key",
        "worldSaveData.InvaderSaveData.Key",
        "worldSaveData.SupplySaveData.SupplyInfos.Key",
        "worldSaveData.GuildExtraSaveDataMap.Key",
        "worldSaveData.MapObjectSpawnerInStageSaveData.SpawnerDataMapByLevelObjectInstanceId.Key",
        "worldSaveData.DungeonSaveData.RewardSaveDataMap.Key",
    ];
    assert(v@ =~= guid_hint_paths());
    v
}

#[derive(Debug, Clone, Copy, PartialEq, Eq)]
pub enum StructHint {
    Guid,
    Generic,
}

/// Some path in `paths` has exactly the bytes of `path`.
pub open spec fn listed(paths: Seq<&'static str>, path: Seq<u8>) -> bool {
    exists|i: int| 0 <= i < paths.len() && #[trigger] paths[i].spec_bytes() == path
}

/// The hint a path (already suffixed with `.Key` or `.Value`) carries.
pub open spec fn hint_for(path: Seq<u8>) -> Option<StructHint> {
    if listed(struct_hint_paths(), path) {
        Some(StructHint::Generic)
    } else if listed(guid_hint_paths(), path) {
        Some(StructHint::Guid)
    } else {
        None
    }
}

fn contains_path(paths: &Vec<&'static str>, path: &str) -> (r: bool)
    ensures
        r == listed(paths@, path.spec_bytes()),
{
    let bytes = path.as_bytes();
    let mut i: usize = 0;
    while i < paths.len()
        invariant
            i <= paths@.len(),
            bytes@ == path.spec_bytes(),
            forall|j: int| 0 <= j < i ==> #[trigger] paths@[j].spec_bytes() != path.spec_bytes(),
        decreases paths@.len() - i,
    {
        if bytes_equal_str(bytes, paths[i]) {
            return true;
        }
        i = i + 1;
    }
    false
}

/// Looks up `path` (already suffixed with `.Key` or `.Value` by the caller). `None`
/// means "no hint, use the default".
pub fn lookup(path: &str) -> (r: Option<StructHint>)
    ensures
        r == hint_for(path.spec_bytes()),
{
    if contains_path(&struct_hints(), path) {
        Some(StructHint::Generic)
    } else if contains_path(&guid_hints(), path) {
        Some(StructHint::Guid)
    } else {
        None
    }
}

} // verus!
