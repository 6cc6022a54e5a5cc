//! Players and Pals: the entries of `worldSaveData.CharacterSaveParameterMap`, each a
//! `RawData` blob holding a nested property list (`rawdata::character`). A Pal names
//! its owner by `OwnerPlayerUId`; a player is flagged by `IsPlayer`. Uids are the
//! hex form of `gvas::nav::guid_to_hex`. Floats are reported as IEEE-754 bit patterns.

use vstd::prelude::*;
use vstd::string::*;
use crate::gvas::GvasError;
use crate::gvas::nav::{
    guid_field_read,
    Cursor, all_readable, child_path_of, find_index, first_named, guid_from_hex_groups, guid_hex_groups, guid_to_hex,
    hex_to_guid, lemma_list_readable, lemma_materialized_readable, none_named, props_readable, same_entries,
};
use crate::gvas::primitives::{Guid, guid_is_zero};
use crate::gvas::property::{tag_end, tag_view_at};
use crate::gvas::value::{StructValue, Value, entry_readable, large_world_coordinates, materialized};
use crate::gvas::{PropertyEntry, declares_property_guid, parses};
use crate::rawdata::character;
use crate::rawdata::error::RawDataError;
use crate::world::{self, MapEntry, WorldError, decoded_as, engine_of, world_map_entries};

use crate::gvas::error::{gvas_message, push_quoted, quoted};
use crate::rawdata::error::raw_data_message;
use crate::world::world_message;
use crate::text::push_str;

verus! {

pub const CHARACTER_MAP: &'static str = "CharacterSaveParameterMap";

pub const CHARACTER_RAW_DATA_PATH: &'static str = "worldSaveData.CharacterSaveParameterMap.Value.RawData";

#[derive(Debug)]
pub enum CharacterError {
    World(WorldError),
    Gvas(GvasError),
    RawData(RawDataError),
    PlayerNotFound { uid: String },
    MalformedUid { uid: String },
}

/// The human-readable description of each error.
pub open spec fn character_message(e: CharacterError) -> Seq<char> {
    match e {
        CharacterError::World(w) => world_message(w),
        CharacterError::Gvas(g) => gvas_message(g),
        CharacterError::RawData(r) => raw_data_message(r),
        CharacterError::PlayerNotFound { uid } => "no player with uid "@ + uid@,
        CharacterError::MalformedUid { uid } => "malformed uid "@ + quoted(uid@) + ": want 32 hex chars"@,
    }
}

impl CharacterError {
    /// A one-line, human-readable description.
    pub fn message(&self) -> (r: String)
        ensures
            r@ == character_message(*self),
    {
        let mut s = String::new();
        match self {
            CharacterError::World(w) => {
                return w.message();
            },
            CharacterError::Gvas(g) => {
                return g.message();
            },
            CharacterError::RawData(r) => {
                return r.message();
            },
            CharacterError::PlayerNotFound { uid } => {
                push_str(&mut s, "no player with uid ");
                push_str(&mut s, uid.as_str());
            },
            CharacterError::MalformedUid { uid } => {
                push_str(&mut s, "malformed uid ");
                push_quoted(&mut s, uid.as_str());
                push_str(&mut s, ": want 32 hex chars");
            },
        }
        assert(s@ =~= character_message(*self));
        s
    }
}

impl CharacterError {
    pub fn code(&self) -> (r: &'static str)
        ensures
            match *self {
                CharacterError::World(e) => r@ == world::world_error_code(e),
                CharacterError::Gvas(_) => r@ == "gvas_parse_failed"@,
                CharacterError::RawData(_) => r@ == "rawdata_decode_failed"@,
                CharacterError::PlayerNotFound { .. } => r@ == "player_not_found"@,
                CharacterError::MalformedUid { .. } => r@ == "malformed_uid"@,
            },
    {
        match self {
            CharacterError::World(e) => e.code(),
            CharacterError::Gvas(_) => "gvas_parse_failed",
            CharacterError::RawData(_) => "rawdata_decode_failed",
            CharacterError::PlayerNotFound { .. } => "player_not_found",
            CharacterError::MalformedUid { .. } => "malformed_uid",
        }
    }
}

#[derive(Debug, Clone, PartialEq, Eq)]
pub struct PlayerSummary {
    pub uid: String,
    pub instance_id: String,
    pub nickname: Option<String>,
    pub level: Option<i64>,
    pub exp: Option<i64>,
    pub hp: Option<i64>,
    pub shield_hp: Option<i64>,
    /// An `f32`, as its bits.
    pub full_stomach: Option<u32>,
    pub pal_count: usize,
}

#[derive(Debug, Clone, PartialEq, Eq)]
pub struct PalSummary {
    pub instance_id: String,
    pub owner_player_uid: Option<String>,
    pub character_id: Option<String>,
    pub nickname: Option<String>,
    pub gender: Option<String>,
    pub level: Option<i64>,
    pub exp: Option<i64>,
    pub hp: Option<i64>,
    pub talent_hp: Option<i64>,
    pub talent_shot: Option<i64>,
    pub talent_defense: Option<i64>,
    pub passive_skills: Vec<String>,
    pub friendship_point: Option<i64>,
    pub rank: Option<i64>,
    /// An `f32`, as its bits.
    pub sanity_value: Option<u32>,
    pub is_rare: bool,
}

#[derive(Debug, Clone, PartialEq, Eq)]
pub struct PlayerDetail {
    pub summary: PlayerSummary,
    pub pals: Vec<PalSummary>,
}

// ---------------------------------------------------------------------------
// What a value reads as
// ---------------------------------------------------------------------------

pub open spec fn value_text(v: Value) -> Option<Seq<char>> {
    match v {
        Value::Str(s) => Some(s@.display()),
        Value::Name(s) => Some(s@.display()),
        Value::Enum(s) => Some(s@.display()),
        Value::ByteLabel(s) => Some(s@.display()),
        _ => None,
    }
}

pub open spec fn value_integer(v: Value) -> Option<i64> {
    match v {
        Value::Byte(x) => Some(x as i64),
        Value::UInt16(x) => Some(x as i64),
        Value::UInt32(x) => Some(x as i64),
        Value::Int(x) => Some(x as i64),
        Value::Int64(x) => Some(x),
        _ => None,
    }
}

pub open spec fn value_float(v: Value) -> Option<u32> {
    match v {
        Value::Float(x) => Some(x),
        _ => None,
    }
}

pub open spec fn value_bool(v: Value) -> Option<bool> {
    match v {
        Value::Bool(x) => Some(x),
        _ => None,
    }
}

pub open spec fn value_guid(v: Value) -> Option<Guid> {
    match v {
        Value::Struct(StructValue::Guid(g)) => Some(g),
        _ => None,
    }
}

/// `s` with every non-overlapping occurrence of `pat`, scanning from position `i`,
/// removed.
pub open spec fn strip_from(s: Seq<char>, pat: Seq<char>, i: int) -> Seq<char>
    decreases s.len() - i,
{
    if i >= s.len() || i < 0 {
        Seq::empty()
    } else if pat.len() > 0 && i + pat.len() <= s.len() && s.subrange(i, i + pat.len()) == pat {
        strip_from(s, pat, i + pat.len())
    } else {
        seq![s[i]] + strip_from(s, pat, i + 1)
    }
}

/// `text` with every occurrence of `pat` removed, as `str::replace(pat, "")` does.
pub fn remove_all(text: &str, pat: &str) -> (r: String)
    ensures
        r@ == strip_from(text@, pat@, 0),
{
    let n = text.unicode_len();
    let m = pat.unicode_len();
    let mut out = String::new();
    let mut i: usize = 0;
    while i < n
        invariant
            n == text@.len(),
            m == pat@.len(),
            i <= n,
            out@ + strip_from(text@, pat@, i as int) == strip_from(text@, pat@, 0),
        decreases n - i,
    {
        let mut matched = m > 0 && m <= n - i;
        let mut j: usize = 0;
        while matched && j < m
            invariant
                n == text@.len(),
                m == pat@.len(),
                i < n,
                j <= m,
                matched ==> m > 0 && i + m <= n,
                matched ==> forall|k: int| 0 <= k < j ==> text@[i + k] == pat@[k],
                !matched ==> !(m > 0 && i + m <= n && text@.subrange(i as int, i + m) == pat@),
            decreases (m - j) as int + if matched { 1int } else { 0int },
        {
            if text.get_char(i + j) != pat.get_char(j) {
                matched = false;
                assert(text@.subrange(i as int, i + m)[j as int] != pat@[j as int]);
            } else {
                j = j + 1;
            }
        }
        if matched {
            assert(text@.subrange(i as int, i + m) =~= pat@);
            i = i + m;
        } else {
            let c = text.substring_char(i, i + 1);
            out.append(c);
            assert(c@ =~= seq![text@[i as int]]);
            assert(out@ + strip_from(text@, pat@, i + 1) =~= strip_from(text@, pat@, 0));
            i = i + 1;
        }
    }
    assert(strip_from(text@, pat@, i as int) =~= Seq::<char>::empty());
    assert(out@ =~= strip_from(text@, pat@, 0));
    out
}

// ---------------------------------------------------------------------------
// One character
// ---------------------------------------------------------------------------

pub(crate) struct Character {
    pub(crate) player_uid: Option<String>,
    pub(crate) instance_id: String,
    pub(crate) is_player: bool,
    pub(crate) owner: Option<String>,
    /// The guild the blob's trailer names; all zero for none.
    pub(crate) group_id: Guid,
    pub(crate) save_parameter: Vec<PropertyEntry>,
    pub(crate) blob: Vec<u8>,
    pub(crate) blob_path: String,
    pub(crate) engine_major: u16,
    pub(crate) has_property_guid: bool,
}

/// `v` is what `e`, indexed against the character's blob, materializes to.
#[verifier::opaque]
spec fn char_decodes(c: Character, e: PropertyEntry, v: Value) -> bool {
    let g = c.has_property_guid;
    materialized(
        v,
        c.blob@,
        tag_end(c.blob@, e.span.start as int, g)->0,
        e.span.end as int,
        tag_view_at(c.blob@, e.span.start as int, g),
        child_path_of(c.blob_path@, e.name@),
        large_world_coordinates(c.engine_major),
        g,
    )
}

/// `v` is the value of the first property named `name` in `props`.
spec fn field_in(c: Character, props: Seq<PropertyEntry>, name: Seq<char>, v: Value) -> bool {
    exists|i: int| first_named(props, name, i) && char_decodes(c, props[i], v)
}

/// `r` is what reading field `name` of the save parameters through `f` gives:
/// `None` when the field is absent or reads as nothing.
spec fn read_as<T>(c: Character, name: Seq<char>, r: Option<T>, f: spec_fn(Value) -> Option<T>) -> bool {
    match r {
        Some(x) => exists|v: Value| field_in(c, c.save_parameter@, name, v) && f(v) == Some(x),
        None => none_named(c.save_parameter@, name) || exists|v: Value|
            field_in(c, c.save_parameter@, name, v) && f(v) is None,
    }
}

spec fn text_view(r: Option<String>) -> Option<Seq<char>> {
    match r {
        Some(s) => Some(s@),
        None => None,
    }
}

/// The path at which the character map's `RawData` fields are read.
spec fn character_raw_data_path() -> Seq<char> {
    child_path_of(child_path_of("worldSaveData"@, CHARACTER_MAP@), "RawData"@)
}

/// `c`'s blob is the byte array that the character map's `RawData` property `e` holds.
spec fn blob_from(gvas: Seq<u8>, c: Character, e: PropertyEntry) -> bool {
    &&& e.name@ == "RawData"@
    &&& decoded_as(gvas, e, character_raw_data_path(), c.engine_major, c.has_property_guid, Value::Bytes(c.blob))
}

/// `c`'s save parameters are, entry for entry, the property list held by the
/// `SaveParameter` property of `object`; none when it holds no property list.
spec fn params_from(c: Character, object: Seq<PropertyEntry>) -> bool {
    ||| none_named(object, "SaveParameter"@) && c.save_parameter@.len() == 0
    ||| exists|v: Value|
        #![trigger field_in(c, object, "SaveParameter"@, v)]
        field_in(c, object, "SaveParameter"@, v) && match v {
            Value::Struct(StructValue::Properties(p)) => same_entries(c.save_parameter@, p@),
            _ => c.save_parameter@.len() == 0,
        }
}

/// `c.is_player` is what the save parameters' `IsPlayer` flag says, false when absent.
spec fn player_flag_from(c: Character) -> bool {
    if c.is_player {
        exists|v: Value| field_in(c, c.save_parameter@, "IsPlayer"@, v) && value_bool(v) == Some(true)
    } else {
        none_named(c.save_parameter@, "IsPlayer"@) || exists|v: Value|
            field_in(c, c.save_parameter@, "IsPlayer"@, v) && value_bool(v) != Some(true)
    }
}

/// `c.owner` is the save parameters' `OwnerPlayerUId` in hex, when it is a GUID.
spec fn owner_from(c: Character) -> bool {
    match c.owner {
        Some(o) => exists|v: Value|
            field_in(c, c.save_parameter@, "OwnerPlayerUId"@, v) && (value_guid(v) matches Some(gd) && o@
                == guid_hex_groups(gd@)),
        None => none_named(c.save_parameter@, "OwnerPlayerUId"@) || exists|v: Value|
            field_in(c, c.save_parameter@, "OwnerPlayerUId"@, v) && value_guid(v) is None,
    }
}

/// `c` was read from the character map of `gvas`.
#[verifier::opaque]
pub(crate) closed spec fn from_save(gvas: Seq<u8>, c: Character) -> bool {
    &&& c.has_property_guid == declares_property_guid(gvas)
    &&& c.blob_path@ == CHARACTER_RAW_DATA_PATH@
    &&& exists|e: PropertyEntry| #[trigger] blob_from(gvas, c, e)
    &&& exists|d: character::CharacterData|
        #![trigger character::character_decodes(c.blob@, c.has_property_guid, d)]
        character::character_decodes(c.blob@, c.has_property_guid, d) && params_from(c, d.object@)
    &&& player_flag_from(c)
    &&& owner_from(c)
}

/// `r` is what the struct field `name` of the save parameters holds under its
/// nested integer `Value`: `None` only when the field is absent or holds no such
/// integer.
spec fn fixed_point_read(c: Character, name: Seq<char>, r: Option<i64>) -> bool {
    match r {
        Some(x) => exists|v: Value| field_in(c, c.save_parameter@, name, v) && nested_integer(c, v, x),
        None => none_named(c.save_parameter@, name) || exists|v: Value|
            field_in(c, c.save_parameter@, name, v) && no_nested_integer(c, v),
    }
}

/// `p` is the summary of the Pal `c`: its ids, and each field read from its save
/// parameters.
#[verifier::opaque]
spec fn pal_view(c: Character, p: PalSummary) -> bool {
    &&& p.instance_id@ == c.instance_id@
    &&& text_view(p.owner_player_uid) == text_view(c.owner)
    &&& read_as(c, "CharacterID"@, text_view(p.character_id), |v: Value| value_text(v))
    &&& read_as(c, "NickName"@, text_view(p.nickname), |v: Value| value_text(v))
    &&& read_as(c, "Level"@, p.level, |v: Value| value_integer(v))
    &&& read_as(c, "Exp"@, p.exp, |v: Value| value_integer(v))
    &&& read_as(c, "Talent_HP"@, p.talent_hp, |v: Value| value_integer(v))
    &&& read_as(c, "Talent_Shot"@, p.talent_shot, |v: Value| value_integer(v))
    &&& read_as(c, "Talent_Defense"@, p.talent_defense, |v: Value| value_integer(v))
    &&& read_as(c, "FriendshipPoint"@, p.friendship_point, |v: Value| value_integer(v))
    &&& read_as(c, "Rank"@, p.rank, |v: Value| value_integer(v))
    &&& read_as(c, "SanityValue"@, p.sanity_value, |v: Value| value_float(v))
    &&& read_as(c, "IsRarePal"@, if p.is_rare { Some(true) } else { None::<bool> }, |v: Value| if value_bool(v) == Some(true) { Some(true) } else { None::<bool> })
    &&& fixed_point_read(c, "Hp"@, p.hp)
    &&& p.passive_skills@.len() > 0 ==> exists|v: Value| {
        &&& field_in(c, c.save_parameter@, "PassiveSkillList"@, v)
        &&& v matches Value::Array(items) && text_items(items@, p.passive_skills@)
    }
    &&& p.passive_skills@.len() == 0 ==> {
        ||| none_named(c.save_parameter@, "PassiveSkillList"@)
        ||| exists|v: Value| field_in(c, c.save_parameter@, "PassiveSkillList"@, v) && !(v is Array)
        ||| exists|v: Value|
            field_in(c, c.save_parameter@, "PassiveSkillList"@, v) && (v matches Value::Array(items) && text_items(
                items@,
                p.passive_skills@,
            ))
    }
    &&& match p.gender {
        Some(g) => exists|t: Seq<char>|
            read_as(c, "Gender"@, Some(t), |v: Value| value_text(v)) && g@ == strip_from(t, "EPalGenderType::"@, 0),
        None => read_as(c, "Gender"@, None::<Seq<char>>, |v: Value| value_text(v)),
    }
}

/// `p` is the summary of the player `c`, apart from its Pal count.
#[verifier::opaque]
spec fn player_view(c: Character, p: PlayerSummary) -> bool {
    &&& p.uid@ == match c.player_uid { Some(u) => u@, None => Seq::<char>::empty(), }
    &&& p.instance_id@ == c.instance_id@
    &&& read_as(c, "NickName"@, text_view(p.nickname), |v: Value| value_text(v))
    &&& read_as(c, "Level"@, p.level, |v: Value| value_integer(v))
    &&& read_as(c, "Exp"@, p.exp, |v: Value| value_integer(v))
    &&& read_as(c, "FullStomach"@, p.full_stomach, |v: Value| value_float(v))
    &&& fixed_point_read(c, "Hp"@, p.hp)
    &&& fixed_point_read(c, "ShieldHP"@, p.shield_hp)
}

/// `p` describes a Pal of `gvas`: a character of its character map that is not a
/// player, with each field read from that character's save parameters.
pub closed spec fn pal_in_save(gvas: Seq<u8>, p: PalSummary) -> bool {
    exists|c: Character| #[trigger] from_save(gvas, c) && !c.is_player && pal_view(c, p)
}

/// `p` describes a player of `gvas`: a character of its character map flagged as a
/// player, with its uid from the map key and each field read from its save parameters.
pub closed spec fn player_in_save(gvas: Seq<u8>, p: PlayerSummary) -> bool {
    exists|c: Character| #[trigger] from_save(gvas, c) && c.is_player && player_view(c, p)
}

impl Character {
    pub(crate) closed spec fn wf(&self) -> bool {
        all_readable(self.blob@, self.save_parameter@, self.has_property_guid)
    }

    fn cursor(&self) -> (c: Cursor<'_>)
        ensures
            c.source_view() == self.blob@,
            c.engine_major_view() == self.engine_major,
            c.guid_view() == self.has_property_guid,
            c.path_view() == self.blob_path@,
    {
        Cursor::new_raw(self.blob.as_slice(), self.engine_major, self.has_property_guid, self.blob_path.as_str())
    }

    /// The value of the first property named `name` in `props`, indexed against the
    /// blob.
    fn field_of(&self, props: &[PropertyEntry], name: &str) -> (r: Option<Value>)
        requires
            all_readable(self.blob@, props@, self.has_property_guid),
        ensures
            match r {
                Some(v) => {
                    &&& field_in(*self, props@, name@, v)
                    &&& props_readable(v, self.blob@, self.has_property_guid)
                    &&& v matches Value::Array(items) ==> forall|i: int|
                        0 <= i < items@.len() ==> props_readable(#[trigger] items@[i], self.blob@, self.has_property_guid)
                },
                None => none_named(props@, name@),
            },
    {
        let i = match find_index(props, name) {
            Some(i) => i,
            None => {
                return None;
            },
        };
        assert(entry_readable(self.blob@, props@[i as int], self.has_property_guid));
        let path = self.cursor().child_path(props[i].name.as_str());
        let v = crate::world::materialize_at(
            self.blob.as_slice(),
            &props[i],
            self.engine_major,
            self.has_property_guid,
            path.as_str(),
        );
        proof {
            reveal(crate::world::decoded_as);
            reveal(char_decodes);
            assert(char_decodes(*self, props@[i as int], v));
            assert(first_named(props@, name@, i as int));
        }
        Some(v)
    }

    fn field(&self, name: &str) -> (r: Option<Value>)
        requires
            self.wf(),
        ensures
            match r {
                Some(v) => {
                    &&& field_in(*self, self.save_parameter@, name@, v)
                    &&& props_readable(v, self.blob@, self.has_property_guid)
                    &&& v matches Value::Array(items) ==> forall|i: int|
                        0 <= i < items@.len() ==> props_readable(#[trigger] items@[i], self.blob@, self.has_property_guid)
                },
                None => none_named(self.save_parameter@, name@),
            },
    {
        self.field_of(self.save_parameter.as_slice(), name)
    }

    fn text(&self, name: &str) -> (r: Option<String>)
        requires
            self.wf(),
        ensures
            read_as(*self, name@, text_view(r), |v: Value| value_text(v)),
    {
        match self.field(name) {
            Some(v) => v.as_text(),
            None => None,
        }
    }

    fn integer(&self, name: &str) -> (r: Option<i64>)
        requires
            self.wf(),
        ensures
            read_as(*self, name@, r, |v: Value| value_integer(v)),
    {
        match self.field(name) {
            Some(v) => v.as_integer(),
            None => None,
        }
    }

    fn float(&self, name: &str) -> (r: Option<u32>)
        requires
            self.wf(),
        ensures
            read_as(*self, name@, r, |v: Value| value_float(v)),
    {
        match self.field(name) {
            Some(v) => v.as_f32(),
            None => None,
        }
    }

    fn flag(&self, name: &str) -> (r: bool)
        requires
            self.wf(),
        ensures
            read_as(*self, name@, if r { Some(true) } else { None::<bool> }, |v: Value| if value_bool(v) == Some(true) { Some(true) } else { None::<bool> }),
    {
        match self.field(name) {
            Some(v) => match v.as_bool() {
                Some(b) => b,
                None => false,
            },
            None => false,
        }
    }

    /// A struct field holding a nested integer `Value`, as the game stores fixed-point
    /// stats such as `Hp`.
    fn fixed_point(&self, name: &str) -> (r: Option<i64>)
        requires
            self.wf(),
        ensures
            r matches Some(x) ==> exists|v: Value| field_in(*self, self.save_parameter@, name@, v) && nested_integer(*self, v, x),
            r is None ==> none_named(self.save_parameter@, name@) || exists|v: Value|
                field_in(*self, self.save_parameter@, name@, v) && no_nested_integer(*self, v),
    {
        let value = match self.field(name) {
            Some(v) => v,
            None => {
                return None;
            },
        };
        let ghost outer = value;
        let inner = match value.as_properties() {
            Some(p) => p,
            None => {
                assert(no_nested_integer(*self, outer));
                return None;
            },
        };
        proof {
            let p = outer->Struct_0->Properties_0;
            assert(p@ == inner@);
        }
        match self.field_of(inner, "Value") {
            Some(v) => {
                let r = v.as_integer();
                proof {
                    let p = outer->Struct_0->Properties_0;
                    assert(p@ == inner@);
                    assert(field_in(*self, p@, "Value"@, v));
                    if r is Some {
                        assert(value_integer(v) == Some(r->0));
                        assert(nested_integer(*self, outer, r->0));
                    } else {
                        assert(no_nested_integer(*self, outer));
                    }
                }
                r
            },
            None => {
                assert(no_nested_integer(*self, outer));
                None
            },
        }
    }

    fn string_array(&self, name: &str) -> (r: Vec<String>)
        requires
            self.wf(),
        ensures
            r@.len() > 0 ==> exists|v: Value| {
                &&& field_in(*self, self.save_parameter@, name@, v)
                &&& v matches Value::Array(items) && text_items(items@, r@)
            },
            r@.len() == 0 ==> {
                ||| none_named(self.save_parameter@, name@)
                ||| exists|v: Value| field_in(*self, self.save_parameter@, name@, v) && !(v is Array)
                ||| exists|v: Value|
                    field_in(*self, self.save_parameter@, name@, v) && (v matches Value::Array(items) && text_items(
                        items@,
                        r@,
                    ))
            },
    {
        let items = match self.field(name) {
            Some(v) => v,
            None => {
                return Vec::new();
            },
        };
        let ghost whole = items;
        let list = match items.as_array() {
            Some(a) => a,
            None => {
                return Vec::new();
            },
        };
        let mut out: Vec<String> = Vec::new();
        let mut i: usize = 0;
        while i < list.len()
            invariant
                i <= list@.len(),
                text_items(list@.subrange(0, i as int), out@),
            decreases list@.len() - i,
        {
            proof {
                assert(list@.subrange(0, i + 1).drop_last() =~= list@.subrange(0, i as int));
            }
            match list[i].as_text() {
                Some(t) => {
                    let ghost before = out@;
                    out.push(t);
                    assert(out@.drop_last() =~= before);
                },
                None => {},
            }
            i = i + 1;
        }
        assert(list@.subrange(0, i as int) =~= list@);
        out
    }

    fn owner_uid(&self) -> (r: Option<String>)
        requires
            self.wf(),
        ensures
            read_as(*self, "OwnerPlayerUId"@, text_view(r), |v: Value| match value_guid(v) {
                Some(g) => Some(guid_hex_groups(g@)),
                None => None::<Seq<char>>,
            }),
    {
        match self.field("OwnerPlayerUId") {
            Some(v) => match v.as_guid() {
                Some(g) => Some(guid_to_hex(&g)),
                None => None,
            },
            None => None,
        }
    }

    #[verifier::rlimit(30)]
    fn to_pal(&self) -> (p: PalSummary)
        requires
            self.wf(),
        ensures
            pal_view(*self, p),
            text_view(p.owner_player_uid) == text_view(self.owner),
    {
        let gender = match self.text("Gender") {
            Some(g) => Some(remove_all(g.as_str(), "EPalGenderType::")),
            None => None,
        };
        proof {
            reveal(pal_view);
        }
        PalSummary {
            instance_id: self.instance_id.clone(),
            owner_player_uid: self.owner.clone(),
            character_id: self.text("CharacterID"),
            nickname: self.text("NickName"),
            gender,
            level: self.integer("Level"),
            exp: self.integer("Exp"),
            hp: self.fixed_point("Hp"),
            talent_hp: self.integer("Talent_HP"),
            talent_shot: self.integer("Talent_Shot"),
            talent_defense: self.integer("Talent_Defense"),
            passive_skills: self.string_array("PassiveSkillList"),
            friendship_point: self.integer("FriendshipPoint"),
            rank: self.integer("Rank"),
            sanity_value: self.float("SanityValue"),
            is_rare: self.flag("IsRarePal"),
        }
    }

    fn to_player(&self, pal_count: usize) -> (p: PlayerSummary)
        requires
            self.wf(),
        ensures
            player_view(*self, p),
            p.uid@ == match self.player_uid {
                Some(u) => u@,
                None => Seq::<char>::empty(),
            },
            p.pal_count == pal_count,
    {
        proof {
            reveal(player_view);
        }
        PlayerSummary {
            uid: match &self.player_uid {
                Some(u) => u.clone(),
                None => String::new(),
            },
            instance_id: self.instance_id.clone(),
            nickname: self.text("NickName"),
            level: self.integer("Level"),
            exp: self.integer("Exp"),
            hp: self.fixed_point("Hp"),
            shield_hp: self.fixed_point("ShieldHP"),
            full_stomach: self.float("FullStomach"),
            pal_count,
        }
    }
}

/// `v` is a property list whose `Value` field reads as the integer `x`.
spec fn nested_integer(c: Character, v: Value, x: i64) -> bool {
    v matches Value::Struct(StructValue::Properties(p)) && exists|inner: Value|
        field_in(c, p@, "Value"@, inner) && value_integer(inner) == Some(x)
}

/// `v` does not hold an integer under `Value`: it is not a property list, has no
/// `Value` field, or that field is not an integer.
spec fn no_nested_integer(c: Character, v: Value) -> bool {
    match v {
        Value::Struct(StructValue::Properties(p)) => none_named(p@, "Value"@) || exists|inner: Value|
            field_in(c, p@, "Value"@, inner) && value_integer(inner) is None,
        _ => true,
    }
}

/// `out` holds, in order, the text of each item that reads as text.
pub open spec fn text_items(items: Seq<Value>, out: Seq<String>) -> bool
    decreases items.len(),
{
    if items.len() == 0 {
        out.len() == 0
    } else {
        match value_text(items.last()) {
            Some(t) => out.len() > 0 && out.last()@ == t && text_items(items.drop_last(), out.drop_last()),
            None => text_items(items.drop_last(), out),
        }
    }
}

// ---------------------------------------------------------------------------
// Loading the map
// ---------------------------------------------------------------------------

/// A guid-valued field of a key, as hex.
fn key_guid_hex(cursor: &Cursor, props: &[PropertyEntry], name: &str) -> (r: Option<Guid>)
    requires
        all_readable(cursor.source_view(), props@, cursor.guid_view()),
    ensures
        crate::gvas::nav::guid_field_read(*cursor, props@, name@, r),
{
    match cursor.get_opt(props, name) {
        Some(v) => v.as_guid(),
        None => None,
    }
}

proof fn lemma_copies_readable(buf: Seq<u8>, a: Seq<PropertyEntry>, b: Seq<PropertyEntry>, g: bool)
    requires
        all_readable(buf, b, g),
        same_entries(a, b),
    ensures
        all_readable(buf, a, g),
{
    assert forall|i: int| 0 <= i < a.len() implies entry_readable(buf, #[trigger] a[i], g) by {
        assert(entry_readable(buf, b[i], g));
        assert(crate::gvas::nav::same_entry(a[i], b[i]));
    }
}

/// Every character in the map whose value has a `RawData` byte array; a blob that
/// does not decode fails the load.
/// The save parameters that a `SaveParameter` value holds: its entries when it is a
/// property list, none otherwise.
spec fn params_match(v: Value, sp: Seq<PropertyEntry>) -> bool {
    match v {
        Value::Struct(StructValue::Properties(p)) => same_entries(sp, p@),
        _ => sp.len() == 0,
    }
}

/// `v` is what `e` of `c`'s blob materializes to, spelled out.
spec fn blob_value(c: Character, e: PropertyEntry, v: Value) -> bool {
    let g = c.has_property_guid;
    materialized(
        v,
        c.blob@,
        tag_end(c.blob@, e.span.start as int, g)->0,
        e.span.end as int,
        tag_view_at(c.blob@, e.span.start as int, g),
        child_path_of(c.blob_path@, e.name@),
        large_world_coordinates(c.engine_major),
        g,
    )
}

proof fn lemma_field_in(c: Character, props: Seq<PropertyEntry>, name: Seq<char>, k: int, v: Value)
    requires
        first_named(props, name, k),
        blob_value(c, props[k], v),
    ensures
        field_in(c, props, name, v),
{
    reveal(char_decodes);
}

/// `sp` is what `save_parameters` reads from `object` through `cur`.
#[verifier::opaque]
spec fn params_read(cur: Cursor, object: Seq<PropertyEntry>, sp: Seq<PropertyEntry>) -> bool {
    (none_named(object, "SaveParameter"@) && sp.len() == 0) || exists|k: int, v: Value|
        first_named(object, "SaveParameter"@, k) && cur.materializes(object[k], v) && params_match(v, sp)
}

/// `b` is what `player_flag` reads from `sp` through `cur`.
#[verifier::opaque]
spec fn flag_read(cur: Cursor, sp: Seq<PropertyEntry>, b: bool) -> bool {
    &&& b ==> exists|k: int, v: Value|
        first_named(sp, "IsPlayer"@, k) && cur.materializes(sp[k], v) && value_bool(v) == Some(true)
    &&& !b ==> none_named(sp, "IsPlayer"@) || exists|k: int, v: Value|
        first_named(sp, "IsPlayer"@, k) && cur.materializes(sp[k], v) && value_bool(v) != Some(true)
}

/// `o` is what `read_owner` reads from `sp` through `cur`.
#[verifier::opaque]
spec fn owner_read(cur: Cursor, sp: Seq<PropertyEntry>, o: Option<Seq<char>>) -> bool {
    match o {
        Some(t) => exists|k: int, v: Value|
            first_named(sp, "OwnerPlayerUId"@, k) && cur.materializes(sp[k], v) && (value_guid(v) matches Some(gd) && t
                == guid_hex_groups(gd@)),
        None => none_named(sp, "OwnerPlayerUId"@) || exists|k: int, v: Value|
            first_named(sp, "OwnerPlayerUId"@, k) && cur.materializes(sp[k], v) && value_guid(v) is None,
    }
}

/// The entries of the property list that `object`'s `SaveParameter` property holds;
/// none when it holds none.
fn save_parameters(cur: &Cursor, object: &[PropertyEntry]) -> (sp: Vec<PropertyEntry>)
    requires
        all_readable(cur.source_view(), object@, cur.guid_view()),
    ensures
        all_readable(cur.source_view(), sp@, cur.guid_view()),
        params_read(*cur, object@, sp@),
{
    reveal(params_read);
    match cur.get_opt(object, "SaveParameter") {
        Some(v) => {
            proof {
                let k = choose|k: int| first_named(object@, "SaveParameter"@, k) && cur.materializes(object@[k], v);
                let e = object@[k];
                let g = cur.guid_view();
                let src = cur.source_view();
                lemma_materialized_readable(
                    v,
                    src,
                    tag_end(src, e.span.start as int, g)->0,
                    e.span.end as int,
                    tag_view_at(src, e.span.start as int, g),
                    child_path_of(cur.path_view(), e.name@),
                    large_world_coordinates(cur.engine_major_view()),
                    g,
                );
            }
            match v.as_properties() {
                Some(p) => {
                    let copies = crate::gvas::nav::copy_entries(p);
                    proof {
                        lemma_copies_readable(cur.source_view(), copies@, p@, cur.guid_view());
                    }
                    copies
                },
                None => Vec::new(),
            }
        },
        None => Vec::new(),
    }
}

/// What the `IsPlayer` flag of `sp` says; false when absent or not a flag.
fn player_flag(cur: &Cursor, sp: &[PropertyEntry]) -> (b: bool)
    requires
        all_readable(cur.source_view(), sp@, cur.guid_view()),
    ensures
        flag_read(*cur, sp@, b),
{
    reveal(flag_read);
    match cur.get_opt(sp, "IsPlayer") {
        Some(v) => match v.as_bool() {
            Some(b) => b,
            None => false,
        },
        None => false,
    }
}

/// The `OwnerPlayerUId` of `sp` in hex, when it is a GUID.
fn read_owner(cur: &Cursor, sp: &[PropertyEntry]) -> (o: Option<String>)
    requires
        all_readable(cur.source_view(), sp@, cur.guid_view()),
    ensures
        owner_read(*cur, sp@, text_view(o)),
{
    reveal(owner_read);
    match cur.get_opt(sp, "OwnerPlayerUId") {
        Some(v) => match v.as_guid() {
            Some(gd) => Some(guid_to_hex(&gd)),
            None => None,
        },
        None => None,
    }
}

proof fn lemma_blob_from(cur: &Cursor, c: Character, e: PropertyEntry)
    requires
        cur.path_view() == child_path_of("worldSaveData"@, CHARACTER_MAP@),
        cur.engine_major_view() == c.engine_major,
        cur.guid_view() == c.has_property_guid,
        e.name@ == "RawData"@,
        cur.materializes(e, Value::Bytes(c.blob)),
    ensures
        blob_from(cur.source_view(), c, e),
{
    reveal(decoded_as);
}

/// A character assembled from what `read_character` read is one of the save's.
proof fn lemma_from_save(src: Seq<u8>, cur: &Cursor, c: Character, e: PropertyEntry, d: character::CharacterData)
    requires
        cur.source_view() == c.blob@,
        cur.path_view() == c.blob_path@,
        cur.engine_major_view() == c.engine_major,
        cur.guid_view() == c.has_property_guid,
        c.has_property_guid == declares_property_guid(src),
        c.blob_path@ == CHARACTER_RAW_DATA_PATH@,
        blob_from(src, c, e),
        character::character_decodes(c.blob@, c.has_property_guid, d),
        params_read(*cur, d.object@, c.save_parameter@),
        flag_read(*cur, c.save_parameter@, c.is_player),
        owner_read(*cur, c.save_parameter@, text_view(c.owner)),
    ensures
        from_save(src, c),
{
    reveal(params_read);
    reveal(flag_read);
    reveal(owner_read);
    reveal(from_save);
    let obj = d.object@;
    let sp = c.save_parameter@;
    if !(none_named(obj, "SaveParameter"@) && sp.len() == 0) {
        let (k, v) = choose|k: int, v: Value|
            first_named(obj, "SaveParameter"@, k) && cur.materializes(obj[k], v) && params_match(v, sp);
        lemma_field_in(c, obj, "SaveParameter"@, k, v);
    }
    assert(params_from(c, obj));
    if c.is_player {
        let (k, v) = choose|k: int, v: Value|
            first_named(sp, "IsPlayer"@, k) && cur.materializes(sp[k], v) && value_bool(v) == Some(true);
        lemma_field_in(c, sp, "IsPlayer"@, k, v);
    } else if !none_named(sp, "IsPlayer"@) {
        let (k, v) = choose|k: int, v: Value|
            first_named(sp, "IsPlayer"@, k) && cur.materializes(sp[k], v) && value_bool(v) != Some(true);
        lemma_field_in(c, sp, "IsPlayer"@, k, v);
    }
    assert(player_flag_from(c));
    match c.owner {
        Some(t) => {
            let (k, v) = choose|k: int, v: Value|
                first_named(sp, "OwnerPlayerUId"@, k) && cur.materializes(sp[k], v) && (value_guid(v) matches Some(gd)
                    && t@ == guid_hex_groups(gd@));
            lemma_field_in(c, sp, "OwnerPlayerUId"@, k, v);
        },
        None => {
            if !none_named(sp, "OwnerPlayerUId"@) {
                let (k, v) = choose|k: int, v: Value|
                    first_named(sp, "OwnerPlayerUId"@, k) && cur.materializes(sp[k], v) && value_guid(v) is None;
                lemma_field_in(c, sp, "OwnerPlayerUId"@, k, v);
            }
        },
    }
    assert(owner_from(c));
}

/// The player uid a key's `PlayerUId` guid stands for: none for the all-zero guid.
spec fn player_uid_text(pg: Option<Guid>) -> Option<Seq<char>> {
    match pg {
        Some(g) => if (forall|j: int| 0 <= j < 16 ==> g@[j] == 0) {
            None
        } else {
            Some(guid_hex_groups(g@))
        },
        None => None,
    }
}

/// `c`'s player uid and instance id are the `PlayerUId` and `InstanceId` guids of the
/// map key `key`, in hex; none and empty when the key is not a property list.
spec fn key_ids(cur: Cursor, key: Value, c: Character) -> bool {
    match key {
        Value::Struct(StructValue::Properties(kp)) => {
            &&& exists|pg: Option<Guid>|
                #[trigger] guid_field_read(cur, kp@, "PlayerUId"@, pg) && text_view(c.player_uid) == player_uid_text(pg)
            &&& exists|ig: Option<Guid>|
                #[trigger] guid_field_read(cur, kp@, "InstanceId"@, ig) && c.instance_id@ == match ig {
                    Some(g) => guid_hex_groups(g@),
                    None => Seq::<char>::empty(),
                }
        },
        _ => c.player_uid is None && c.instance_id@ == Seq::<char>::empty(),
    }
}

/// `cur` reads the character map of `gvas` with the save's own decode settings.
pub(crate) closed spec fn char_map_cursor(gvas: Seq<u8>, cur: Cursor) -> bool {
    &&& cur.source_view() == gvas
    &&& cur.path_view() == child_path_of("worldSaveData"@, CHARACTER_MAP@)
    &&& cur.guid_view() == declares_property_guid(gvas)
    &&& cur.engine_major_view() == engine_of(gvas)
}

/// The character that the map entry `e` holds, read through `cur`.
pub(crate) closed spec fn entry_character(cur: Cursor, e: MapEntry, c: Character) -> bool {
    &&& c.wf()
    &&& from_save(cur.source_view(), c)
    &&& key_ids(cur, e.key, c)
    &&& exists|d: character::CharacterData|
        #![trigger character::character_decodes(c.blob@, c.has_property_guid, d)]
        character::character_decodes(c.blob@, c.has_property_guid, d) && d.group_id@ == c.group_id@
    &&& exists|k: int| first_named(e.fields@, "RawData"@, k) && #[trigger] blob_from(cur.source_view(), c, e.fields@[k])
}

/// The map entry `e` holds no character: it has no `RawData` byte array.
pub(crate) closed spec fn entry_no_character(cur: Cursor, e: MapEntry) -> bool {
    none_named(e.fields@, "RawData"@) || exists|i: int, v: Value|
        first_named(e.fields@, "RawData"@, i) && #[trigger] cur.materializes(e.fields@[i], v) && !(v is Bytes)
}

/// `cs` are, in order, the characters the entries `es` hold.
pub(crate) closed spec fn characters_in(cur: Cursor, es: Seq<MapEntry>, cs: Seq<Character>) -> bool
    decreases es.len(),
{
    if es.len() == 0 {
        cs.len() == 0
    } else {
        ||| cs.len() > 0 && entry_character(cur, es.last(), cs.last()) && characters_in(cur, es.drop_last(), cs.drop_last())
        ||| entry_no_character(cur, es.last()) && characters_in(cur, es.drop_last(), cs)
    }
}

/// `cs` are, in map order, the characters of the save's character map.
pub(crate) closed spec fn save_characters(gvas: Seq<u8>, cs: Seq<Character>) -> bool {
    exists|cur: Cursor, es: Seq<MapEntry>|
        #![trigger char_map_cursor(gvas, cur), world_map_entries(gvas, CHARACTER_MAP@, es)]
        char_map_cursor(gvas, cur) && world_map_entries(gvas, CHARACTER_MAP@, es) && characters_in(cur, es, cs)
}

/// `at` are the positions in `es` of the entries that hold the characters `cs`, in
/// order.
pub(crate) closed spec fn positions_in(cur: Cursor, es: Seq<MapEntry>, cs: Seq<Character>, at: Seq<usize>) -> bool
    decreases es.len(),
{
    if es.len() == 0 {
        cs.len() == 0 && at.len() == 0
    } else {
        ||| cs.len() > 0 && at.len() > 0 && at.last() == es.len() - 1 && entry_character(cur, es.last(), cs.last())
            && positions_in(cur, es.drop_last(), cs.drop_last(), at.drop_last())
        ||| entry_no_character(cur, es.last()) && positions_in(cur, es.drop_last(), cs, at)
    }
}

/// `cs` are, in map order, the characters of the save's character map, and `at` the
/// positions of their entries in that map.
pub(crate) closed spec fn save_characters_at(gvas: Seq<u8>, cs: Seq<Character>, at: Seq<usize>) -> bool {
    exists|cur: Cursor, es: Seq<MapEntry>|
        #![trigger char_map_cursor(gvas, cur), world_map_entries(gvas, CHARACTER_MAP@, es)]
        char_map_cursor(gvas, cur) && world_map_entries(gvas, CHARACTER_MAP@, es) && positions_in(cur, es, cs, at)
}

/// Some entry of the save's character map holds a blob that does not decode.
pub closed spec fn character_blob_fails(gvas: Seq<u8>) -> bool {
    exists|cur: Cursor, es: Seq<MapEntry>, j: int, k: int, b: Vec<u8>|
        #![trigger char_map_cursor(gvas, cur), world_map_entries(gvas, CHARACTER_MAP@, es), es[j], cur.materializes(es[j].fields@[k], Value::Bytes(b))]
        {
            &&& char_map_cursor(gvas, cur)
            &&& world_map_entries(gvas, CHARACTER_MAP@, es)
            &&& 0 <= j < es.len()
            &&& first_named(es[j].fields@, "RawData"@, k)
            &&& cur.materializes(es[j].fields@[k], Value::Bytes(b))
            &&& character::character_end(b@, declares_property_guid(gvas)) != Some(b@.len() as int)
        }
}

/// `v` are, in order, the summaries of the players among `cs`, each counting the Pals
/// of `all` that it owns.
spec fn player_rows(cs: Seq<Character>, all: Seq<Character>, v: Seq<PlayerSummary>) -> bool
    decreases cs.len(),
{
    if cs.len() == 0 {
        v.len() == 0
    } else if cs.last().is_player {
        &&& v.len() > 0
        &&& player_view(cs.last(), v.last())
        &&& v.last().uid@ == match cs.last().player_uid {
            Some(u) => u@,
            None => Seq::<char>::empty(),
        }
        &&& v.last().pal_count == match cs.last().player_uid {
            Some(u) => count_owned(all, u@),
            None => 0,
        }
        &&& player_rows(cs.drop_last(), all, v.drop_last())
    } else {
        player_rows(cs.drop_last(), all, v)
    }
}

/// `v` are, in order, the summaries of the characters of `cs` that `keep` selects.
spec fn pal_rows(cs: Seq<Character>, keep: spec_fn(Character) -> bool, v: Seq<PalSummary>) -> bool
    decreases cs.len(),
{
    if cs.len() == 0 {
        v.len() == 0
    } else if keep(cs.last()) {
        v.len() > 0 && pal_view(cs.last(), v.last()) && text_view(v.last().owner_player_uid) == text_view(cs.last().owner)
            && pal_rows(cs.drop_last(), keep, v.drop_last())
    } else {
        pal_rows(cs.drop_last(), keep, v)
    }
}

/// `v` are, in map order, the summaries of every player of the save, each with the
/// number of Pals it owns.
pub closed spec fn lists_players(gvas: Seq<u8>, v: Seq<PlayerSummary>) -> bool {
    exists|cs: Seq<Character>| #[trigger] save_characters(gvas, cs) && player_rows(cs, cs, v)
}

/// `v` are, in map order, the summaries of every Pal (non-player) of the save.
pub closed spec fn lists_pals(gvas: Seq<u8>, v: Seq<PalSummary>) -> bool {
    exists|cs: Seq<Character>| #[trigger] save_characters(gvas, cs) && pal_rows(cs, |c: Character| !c.is_player, v)
}

/// `v` are, in map order, the summaries of every Pal of the save whose owner is `uid`.
pub closed spec fn lists_pals_of(gvas: Seq<u8>, uid: Seq<char>, v: Seq<PalSummary>) -> bool {
    exists|cs: Seq<Character>| #[trigger] save_characters(gvas, cs) && pal_rows(cs, |c: Character| owned_by(c, uid), v)
}

/// No player of the save has the uid `uid`.
pub closed spec fn no_player(gvas: Seq<u8>, uid: Seq<char>) -> bool {
    exists|cs: Seq<Character>|
        #[trigger] save_characters(gvas, cs) && forall|j: int|
            0 <= j < cs.len() ==> !((#[trigger] cs[j]).is_player && text_view(cs[j].player_uid) == Some(uid))
}

/// The first player of the save with the uid `uid` is summarized by `s`, with its Pal
/// count.
pub closed spec fn player_found(gvas: Seq<u8>, uid: Seq<char>, s: PlayerSummary) -> bool {
    exists|cs: Seq<Character>, k: int|
        #![trigger save_characters(gvas, cs), cs[k]]
        {
            &&& save_characters(gvas, cs)
            &&& 0 <= k < cs.len()
            &&& cs[k].is_player && text_view(cs[k].player_uid) == Some(uid)
            &&& forall|j: int| 0 <= j < k ==> !((#[trigger] cs[j]).is_player && text_view(cs[j].player_uid) == Some(uid))
            &&& player_view(cs[k], s)
            &&& s.pal_count == count_owned(cs, uid)
        }
}

/// The character that one entry of the character map holds: `None` when the entry
/// has no `RawData` byte array.
fn read_character(cursor: &Cursor, entry: &world::MapEntry) -> (r: Result<Option<Character>, CharacterError>)
    requires
        all_readable(cursor.source_view(), entry.fields@, cursor.guid_view()),
        props_readable(entry.key, cursor.source_view(), cursor.guid_view()),
        cursor.path_view() == child_path_of("worldSaveData"@, CHARACTER_MAP@),
        cursor.guid_view() == declares_property_guid(cursor.source_view()),
    ensures
        match r {
            Ok(Some(c)) => entry_character(*cursor, *entry, c),
            Ok(None) => none_named(entry.fields@, "RawData"@) || exists|i: int, v: Value|
                first_named(entry.fields@, "RawData"@, i) && cursor.materializes(entry.fields@[i], v) && !(v is Bytes),
            Err(e) => e is RawData && exists|i: int, b: Vec<u8>|
                first_named(entry.fields@, "RawData"@, i) && cursor.materializes(entry.fields@[i], Value::Bytes(b))
                    && character::character_end(b@, cursor.guid_view()) != Some(b@.len() as int),
        },
{
    let engine_major = cursor.engine_major();
    let g = cursor.has_property_guid();
    let (player_guid, instance_guid) = match entry.key.as_properties() {
        Some(key_props) => (
            key_guid_hex(cursor, key_props, "PlayerUId"),
            key_guid_hex(cursor, key_props, "InstanceId"),
        ),
        None => (None, None),
    };
    let raw_i = match find_index(entry.fields.as_slice(), "RawData") {
        Some(k) => k,
        None => {
            return Ok(None);
        },
    };
    proof {
        assert(entry_readable(cursor.source_view(), entry.fields@[raw_i as int], g));
    }
    let raw = match cursor.materialize(&entry.fields[raw_i]) {
        Ok(v) => v,
        Err(e) => {
            return Err(CharacterError::Gvas(e));
        },
    };
    let ghost raw_value = raw;
    let blob = match raw {
        Value::Bytes(b) => b,
        _ => {
            assert(first_named(entry.fields@, "RawData"@, raw_i as int) && cursor.materializes(
                entry.fields@[raw_i as int],
                raw_value,
            ));
            return Ok(None);
        },
    };
    let decoded = match character::decode(blob.as_slice(), g) {
        Ok(d) => d,
        Err(e) => {
            assert(first_named(entry.fields@, "RawData"@, raw_i as int) && cursor.materializes(
                entry.fields@[raw_i as int],
                Value::Bytes(blob),
            ));
            return Err(CharacterError::RawData(e));
        },
    };
    let blob_path = String::from_str(CHARACTER_RAW_DATA_PATH);
    let blob_cursor = cursor.rebase(blob.as_slice(), blob_path.as_str());
    proof {
        lemma_list_readable(
            blob@,
            decoded.object@,
            0,
            crate::gvas::value::property_list_terminator(blob@, 0, g),
            g,
        );
    }
    let save_parameter = save_parameters(&blob_cursor, decoded.object.as_slice());
    let is_player = player_flag(&blob_cursor, save_parameter.as_slice());
    let owner = read_owner(&blob_cursor, save_parameter.as_slice());
    let player_uid = match player_guid {
        Some(gd) => if guid_is_zero(&gd) {
            None
        } else {
            Some(guid_to_hex(&gd))
        },
        None => None,
    };
    let instance_id = match instance_guid {
        Some(gd) => guid_to_hex(&gd),
        None => String::new(),
    };
    proof {
        let gc = Character {
            player_uid,
            instance_id,
            is_player,
            owner,
            group_id: decoded.group_id,
            save_parameter,
            blob,
            blob_path,
            engine_major,
            has_property_guid: g,
        };
        let e = entry.fields@[raw_i as int];
        lemma_blob_from(cursor, gc, e);
        lemma_from_save(cursor.source_view(), &blob_cursor, gc, e, decoded);
    }
    let c = Character {
        player_uid,
        instance_id,
        is_player,
        owner,
        group_id: decoded.group_id,
        save_parameter,
        blob,
        blob_path,
        engine_major,
        has_property_guid: g,
    };
    Ok(Some(c))
}

/// Every character of the save's character map, in map order, with the position of
/// its entry in that map.
pub(crate) fn load(gvas: &[u8]) -> (r: Result<(Vec<Character>, Vec<usize>), CharacterError>)
    ensures
        match r {
            Ok((cs, at)) => parses(gvas@) && save_characters(gvas@, cs@) && save_characters_at(gvas@, cs@, at@)
                && at@.len() == cs@.len() && forall|i: int|
                0 <= i < cs@.len() ==> (#[trigger] cs@[i]).wf() && from_save(gvas@, cs@[i]),
            Err(CharacterError::World(WorldError::Gvas(e))) => !parses(gvas@) && e == crate::gvas::parse_failure(gvas@),
            Err(CharacterError::World(WorldError::NotALevelSave)) => parses(gvas@) && world::no_world(gvas@),
            Err(CharacterError::World(WorldError::MapNotFound { name })) => parses(gvas@) && name@ == CHARACTER_MAP@
                && world::no_world_map(gvas@, CHARACTER_MAP@),
            Err(CharacterError::RawData(_)) => parses(gvas@) && character_blob_fails(gvas@),
            Err(_) => false,
        },
{
    let map = match world::open_map(gvas, CHARACTER_MAP) {
        Ok(m) => m,
        Err(e) => {
            return Err(CharacterError::World(e));
        },
    };
    let engine_major = map.cursor.engine_major();
    let g = map.cursor.has_property_guid();
    let ghost es = map.entries@;
    let mut out: Vec<Character> = Vec::new();
    let mut at: Vec<usize> = Vec::new();
    let mut i: usize = 0;
    while i < map.entries.len()
        invariant
            i <= map.entries@.len(),
            es == map.entries@,
            char_map_cursor(gvas@, map.cursor),
            world_map_entries(gvas@, CHARACTER_MAP@, es),
            characters_in(map.cursor, es.subrange(0, i as int), out@),
            positions_in(map.cursor, es.subrange(0, i as int), out@, at@),
            at@.len() == out@.len(),
            map.wf(),
            parses(gvas@),
            map.cursor.source_view() == gvas@,
            g == map.cursor.guid_view(),
            engine_major == map.cursor.engine_major_view(),
            map.cursor.path_view() == child_path_of("worldSaveData"@, CHARACTER_MAP@),
            g == declares_property_guid(gvas@),
            forall|j: int| 0 <= j < out@.len() ==> (#[trigger] out@[j]).wf() && from_save(gvas@, out@[j]),
        decreases map.entries@.len() - i,
    {
        let entry = &map.entries[i];
        proof {
            assert(all_readable(gvas@, entry.fields@, g));
            assert(props_readable(entry.key, gvas@, g));
        }
        proof {
            assert(es.subrange(0, i + 1).drop_last() =~= es.subrange(0, i as int));
            assert(es.subrange(0, i + 1).last() == es[i as int]);
        }
        let ghost before = out@;
        let ghost before_at = at@;
        match read_character(&map.cursor, entry) {
            Ok(Some(c)) => {
                out.push(c);
                at.push(i);
                proof {
                    assert(out@.drop_last() =~= before);
                    assert(at@.drop_last() =~= before_at);
                }
            },
            Ok(None) => {},
            Err(e) => {
                proof {
                    let cur = map.cursor;
                    let (k, b) = choose|k: int, b: Vec<u8>|
                        first_named(entry.fields@, "RawData"@, k) && cur.materializes(entry.fields@[k], Value::Bytes(b))
                            && character::character_end(b@, cur.guid_view()) != Some(b@.len() as int);
                    assert(es[i as int] == *entry);
                    assert(character_blob_fails(gvas@)) by {
                        assert(cur.materializes(es[i as int].fields@[k], Value::Bytes(b)));
                    }
                }
                return Err(e);
            },
        }
        i = i + 1;
    }
    proof {
        assert(es.subrange(0, i as int) =~= es);
        assert(save_characters(gvas@, out@));
        assert(save_characters_at(gvas@, out@, at@));
    }
    Ok((out, at))
}

/// The Pals (non-players) whose owner is `uid`.
spec fn owned_by(c: Character, uid: Seq<char>) -> bool {
    !c.is_player && text_view(c.owner) == Some(uid)
}

spec fn count_owned(cs: Seq<Character>, uid: Seq<char>) -> nat
    decreases cs.len(),
{
    if cs.len() == 0 {
        0
    } else {
        count_owned(cs.drop_last(), uid) + if owned_by(cs.last(), uid) { 1nat } else { 0nat }
    }
}

fn owner_is(c: &Character, uid: &str) -> (r: bool)
    ensures
        r == owned_by(*c, uid@),
{
    if c.is_player {
        return false;
    }
    match &c.owner {
        Some(o) => *o == String::from_str(uid),
        None => false,
    }
}

fn pal_count_for(characters: &Vec<Character>, uid: &str) -> (n: usize)
    ensures
        n == count_owned(characters@, uid@),
{
    let mut n: usize = 0;
    let mut i: usize = 0;
    while i < characters.len()
        invariant
            i <= characters@.len(),
            n == count_owned(characters@.subrange(0, i as int), uid@),
            n <= i,
        decreases characters@.len() - i,
    {
        proof {
            assert(characters@.subrange(0, i + 1).drop_last() =~= characters@.subrange(0, i as int));
        }
        if owner_is(&characters[i], uid) {
            n = n + 1;
        }
        i = i + 1;
    }
    assert(characters@.subrange(0, i as int) =~= characters@);
    n
}

fn pals_owned_by(characters: &Vec<Character>, uid: &str, Ghost(gvas): Ghost<Seq<u8>>) -> (pals: Vec<PalSummary>)
    requires
        forall|i: int| 0 <= i < characters@.len() ==> (#[trigger] characters@[i]).wf() && from_save(gvas, characters@[i]),
    ensures
        pals@.len() == count_owned(characters@, uid@),
        pal_rows(characters@, |c: Character| owned_by(c, uid@), pals@),
        forall|i: int|
            0 <= i < pals@.len() ==> pal_in_save(gvas, #[trigger] pals@[i]) && (pals@[i].owner_player_uid matches Some(
                o,
            ) && o@ == uid@),
{
    let mut out: Vec<PalSummary> = Vec::new();
    let mut i: usize = 0;
    while i < characters.len()
        invariant
            i <= characters@.len(),
            forall|k: int| 0 <= k < characters@.len() ==> (#[trigger] characters@[k]).wf() && from_save(gvas, characters@[k]),
            out@.len() == count_owned(characters@.subrange(0, i as int), uid@),
            pal_rows(characters@.subrange(0, i as int), |c: Character| owned_by(c, uid@), out@),
            forall|j: int|
                0 <= j < out@.len() ==> pal_in_save(gvas, #[trigger] out@[j]) && (out@[j].owner_player_uid matches Some(
                    o,
                ) && o@ == uid@),
        decreases characters@.len() - i,
    {
        proof {
            assert(characters@.subrange(0, i + 1).drop_last() =~= characters@.subrange(0, i as int));
            assert(characters@.subrange(0, i + 1).last() == characters@[i as int]);
        }
        let ghost before = out@;
        if owner_is(&characters[i], uid) {
            let p = characters[i].to_pal();
            proof {
                assert(from_save(gvas, characters@[i as int]));
                assert(pal_in_save(gvas, p));
            }
            out.push(p);
            proof {
                assert(out@.drop_last() =~= before);
            }
        }
        i = i + 1;
    }
    assert(characters@.subrange(0, i as int) =~= characters@);
    out
}

/// Every player in the world, with how many Pals each owns.
pub fn list_players(gvas: &[u8]) -> (r: Result<Vec<PlayerSummary>, CharacterError>)
    ensures
        match r {
            Ok(v) => parses(gvas@) && lists_players(gvas@, v@) && forall|i: int| 0 <= i < v@.len() ==> player_in_save(gvas@, #[trigger] v@[i]),
            Err(CharacterError::World(WorldError::Gvas(e))) => !parses(gvas@) && e == crate::gvas::parse_failure(gvas@),
            Err(CharacterError::World(WorldError::NotALevelSave)) => parses(gvas@) && world::no_world(gvas@),
            Err(CharacterError::World(WorldError::MapNotFound { name })) => parses(gvas@) && name@ == CHARACTER_MAP@
                && world::no_world_map(gvas@, CHARACTER_MAP@),
            Err(CharacterError::RawData(_)) => parses(gvas@) && character_blob_fails(gvas@),
            Err(_) => false,
        },
{
    let (characters, _) = load(gvas)?;
    let mut out: Vec<PlayerSummary> = Vec::new();
    let mut i: usize = 0;
    while i < characters.len()
        invariant
            i <= characters@.len(),
            parses(gvas@),
            forall|k: int| 0 <= k < characters@.len() ==> (#[trigger] characters@[k]).wf() && from_save(gvas@, characters@[k]),
            forall|j: int| 0 <= j < out@.len() ==> player_in_save(gvas@, #[trigger] out@[j]),
            save_characters(gvas@, characters@),
            player_rows(characters@.subrange(0, i as int), characters@, out@),
        decreases characters@.len() - i,
    {
        proof {
            assert(characters@.subrange(0, i + 1).drop_last() =~= characters@.subrange(0, i as int));
            assert(characters@.subrange(0, i + 1).last() == characters@[i as int]);
        }
        let ghost before = out@;
        let c = &characters[i];
        if c.is_player {
            let count = match &c.player_uid {
                Some(uid) => pal_count_for(&characters, uid.as_str()),
                None => 0,
            };
            let p = c.to_player(count);
            proof {
                assert(from_save(gvas@, characters@[i as int]));
                assert(player_in_save(gvas@, p));
            }
            out.push(p);
            proof {
                assert(out@.drop_last() =~= before);
            }
        }
        i = i + 1;
    }
    proof {
        assert(characters@.subrange(0, i as int) =~= characters@);
        assert(lists_players(gvas@, out@));
    }
    Ok(out)
}

/// The Pals whose `OwnerPlayerUId` is `owner_uid`.
pub fn pals_of(gvas: &[u8], owner_uid: &str) -> (r: Result<Vec<PalSummary>, CharacterError>)
    ensures
        match r {
            Ok(v) => {
                &&& parses(gvas@)
                &&& guid_from_hex_groups(owner_uid.spec_bytes()) is Some
                &&& lists_pals_of(gvas@, owner_uid@, v@)
                &&& forall|i: int|
                    0 <= i < v@.len() ==> pal_in_save(gvas@, #[trigger] v@[i]) && (v@[i].owner_player_uid matches Some(
                        o,
                    ) && o@ == owner_uid@)
            },
            Err(CharacterError::MalformedUid { uid }) => uid@ == owner_uid@ && guid_from_hex_groups(
                owner_uid.spec_bytes(),
            ) is None,
            Err(CharacterError::World(WorldError::Gvas(e))) => !parses(gvas@) && e == crate::gvas::parse_failure(gvas@),
            Err(CharacterError::World(WorldError::NotALevelSave)) => parses(gvas@) && world::no_world(gvas@),
            Err(CharacterError::World(WorldError::MapNotFound { name })) => parses(gvas@) && name@ == CHARACTER_MAP@
                && world::no_world_map(gvas@, CHARACTER_MAP@),
            Err(CharacterError::RawData(_)) => parses(gvas@) && character_blob_fails(gvas@),
            Err(_) => false,
        },
{
    if hex_to_guid(owner_uid).is_none() {
        return Err(CharacterError::MalformedUid { uid: String::from_str(owner_uid) });
    }
    let (characters, _) = load(gvas)?;
    let v = pals_owned_by(&characters, owner_uid, Ghost(gvas@));
    proof {
        assert(lists_pals_of(gvas@, owner_uid@, v@));
    }
    Ok(v)
}

/// One player, with the Pals they own; the summary's Pal count is the list's length.
pub fn player(gvas: &[u8], uid: &str) -> (r: Result<PlayerDetail, CharacterError>)
    ensures
        match r {
            Ok(d) => {
                &&& parses(gvas@)
                &&& d.summary.uid@ == uid@
                &&& d.summary.pal_count == d.pals@.len()
                &&& player_in_save(gvas@, d.summary)
                &&& player_found(gvas@, uid@, d.summary)
                &&& lists_pals_of(gvas@, uid@, d.pals@)
                &&& forall|i: int|
                    0 <= i < d.pals@.len() ==> pal_in_save(gvas@, #[trigger] d.pals@[i]) && (
                    d.pals@[i].owner_player_uid matches Some(o) && o@ == uid@)
            },
            Err(CharacterError::MalformedUid { uid: u }) => u@ == uid@ && guid_from_hex_groups(uid.spec_bytes()) is None,
            Err(CharacterError::PlayerNotFound { uid: u }) => u@ == uid@ && parses(gvas@) && no_player(gvas@, uid@),
            Err(CharacterError::World(WorldError::Gvas(e))) => !parses(gvas@) && e == crate::gvas::parse_failure(gvas@),
            Err(CharacterError::World(WorldError::NotALevelSave)) => parses(gvas@) && world::no_world(gvas@),
            Err(CharacterError::World(WorldError::MapNotFound { name })) => parses(gvas@) && name@ == CHARACTER_MAP@
                && world::no_world_map(gvas@, CHARACTER_MAP@),
            Err(CharacterError::RawData(_)) => parses(gvas@) && character_blob_fails(gvas@),
            Err(_) => false,
        },
{
    if hex_to_guid(uid).is_none() {
        return Err(CharacterError::MalformedUid { uid: String::from_str(uid) });
    }
    let (characters, _) = load(gvas)?;
    let pals = pals_owned_by(&characters, uid, Ghost(gvas@));
    let target = String::from_str(uid);
    let mut i: usize = 0;
    while i < characters.len()
        invariant
            i <= characters@.len(),
            target@ == uid@,
            parses(gvas@),
            pals@.len() == count_owned(characters@, uid@),
            forall|j: int|
                0 <= j < pals@.len() ==> pal_in_save(gvas@, #[trigger] pals@[j]) && (pals@[j].owner_player_uid matches Some(
                    o,
                ) && o@ == uid@),
            forall|k: int| 0 <= k < characters@.len() ==> (#[trigger] characters@[k]).wf() && from_save(gvas@, characters@[k]),
            save_characters(gvas@, characters@),
            lists_pals_of(gvas@, uid@, pals@),
            forall|j: int|
                0 <= j < i ==> !((#[trigger] characters@[j]).is_player && text_view(characters@[j].player_uid) == Some(uid@)),
        decreases characters@.len() - i,
    {
        let c = &characters[i];
        if c.is_player {
            match &c.player_uid {
                Some(u) => {
                    if *u == target {
                        let n = pals.len();
                        let summary = c.to_player(n);
                        proof {
                            assert(from_save(gvas@, characters@[i as int]));
                            assert(player_in_save(gvas@, summary));
                            assert(player_found(gvas@, uid@, summary));
                        }
                        return Ok(PlayerDetail { summary, pals });
                    }
                },
                None => {},
            }
        }
        i = i + 1;
    }
    proof {
        assert(no_player(gvas@, uid@));
    }
    Err(CharacterError::PlayerNotFound { uid: String::from_str(uid) })
}

/// Every Pal in the world, whoever owns it.
pub fn list_all_pals(gvas: &[u8]) -> (r: Result<Vec<PalSummary>, CharacterError>)
    ensures
        match r {
            Ok(v) => parses(gvas@) && lists_pals(gvas@, v@) && forall|i: int| 0 <= i < v@.len() ==> pal_in_save(gvas@, #[trigger] v@[i]),
            Err(CharacterError::World(WorldError::Gvas(e))) => !parses(gvas@) && e == crate::gvas::parse_failure(gvas@),
            Err(CharacterError::World(WorldError::NotALevelSave)) => parses(gvas@) && world::no_world(gvas@),
            Err(CharacterError::World(WorldError::MapNotFound { name })) => parses(gvas@) && name@ == CHARACTER_MAP@
                && world::no_world_map(gvas@, CHARACTER_MAP@),
            Err(CharacterError::RawData(_)) => parses(gvas@) && character_blob_fails(gvas@),
            Err(_) => false,
        },
{
    let (characters, _) = load(gvas)?;
    let mut out: Vec<PalSummary> = Vec::new();
    let mut i: usize = 0;
    while i < characters.len()
        invariant
            i <= characters@.len(),
            parses(gvas@),
            forall|k: int| 0 <= k < characters@.len() ==> (#[trigger] characters@[k]).wf() && from_save(gvas@, characters@[k]),
            forall|j: int| 0 <= j < out@.len() ==> pal_in_save(gvas@, #[trigger] out@[j]),
            save_characters(gvas@, characters@),
            pal_rows(characters@.subrange(0, i as int), |c: Character| !c.is_player, out@),
        decreases characters@.len() - i,
    {
        proof {
            assert(characters@.subrange(0, i + 1).drop_last() =~= characters@.subrange(0, i as int));
            assert(characters@.subrange(0, i + 1).last() == characters@[i as int]);
        }
        let ghost before = out@;
        if !characters[i].is_player {
            let p = characters[i].to_pal();
            proof {
                assert(from_save(gvas@, characters@[i as int]));
                assert(pal_in_save(gvas@, p));
            }
            out.push(p);
            proof {
                assert(out@.drop_last() =~= before);
            }
        }
        i = i + 1;
    }
    proof {
        assert(characters@.subrange(0, i as int) =~= characters@);
        assert(lists_pals(gvas@, out@));
    }
    Ok(out)
}


/// The text of each item of an array that reads as text, in order.
pub open spec fn texts_in(items: Seq<Value>) -> Seq<Seq<char>> {
    items.filter_map(|x: Value| value_text(x))
}

/// The texts of a list of strings.
pub open spec fn texts_of(out: Seq<String>) -> Seq<Seq<char>> {
    out.map_values(|s: String| s@)
}

proof fn lemma_text_items_are_texts(items: Seq<Value>, out: Seq<String>)
    requires
        text_items(items, out),
    ensures
        texts_of(out) == texts_in(items),
    decreases items.len(),
{
    if items.len() == 0 {
        assert(texts_of(out) =~= Seq::<Seq<char>>::empty());
        assert(texts_in(items) =~= Seq::<Seq<char>>::empty());
    } else {
        match value_text(items.last()) {
            Some(t) => {
                lemma_text_items_are_texts(items.drop_last(), out.drop_last());
                assert(texts_of(out) =~= texts_of(out.drop_last()) + seq![t]);
            },
            None => {
                lemma_text_items_are_texts(items.drop_last(), out);
            },
        }
    }
}

proof fn lemma_field_present(c: Character, props: Seq<PropertyEntry>, name: Seq<char>, v: Value)
    requires
        field_in(c, props, name, v),
    ensures
        !none_named(props, name),
{
    let i = choose|i: int| first_named(props, name, i) && char_decodes(c, props[i], v);
    assert(props[i].name@ == name);
}

/// Law: a Pal's passive skills are exactly the text items, in order, of its
/// `PassiveSkillList` array whenever that field reads as an array.
proof fn pal_passive_skills_are_the_list(c: Character, p: PalSummary, ts: Seq<Seq<char>>)
    requires
        pal_view(c, p),
        exists|v: Value| field_in(c, c.save_parameter@, "PassiveSkillList"@, v),
        forall|v: Value|
            #[trigger] field_in(c, c.save_parameter@, "PassiveSkillList"@, v) ==> (v matches Value::Array(items)
                && texts_in(items@) == ts),
    ensures
        texts_of(p.passive_skills@) == ts,
{
    reveal(pal_view);
    let sp = c.save_parameter@;
    let name = "PassiveSkillList"@;
    let v0 = choose|v: Value| field_in(c, sp, name, v);
    lemma_field_present(c, sp, name, v0);
    if p.passive_skills@.len() > 0 {
        let v = choose|v: Value| field_in(c, sp, name, v) && (v matches Value::Array(items) && text_items(items@, p.passive_skills@));
        lemma_text_items_are_texts(v->Array_0@, p.passive_skills@);
    } else {
        if exists|v: Value| field_in(c, sp, name, v) && !(v is Array) {
            let v = choose|v: Value| field_in(c, sp, name, v) && !(v is Array);
            assert(v is Array);
        } else {
            let v = choose|v: Value| field_in(c, sp, name, v) && (v matches Value::Array(items) && text_items(items@, p.passive_skills@));
            lemma_text_items_are_texts(v->Array_0@, p.passive_skills@);
        }
    }
}

/// Law: a struct field holding a nested integer reads as that integer: whenever
/// every reading of the field `name` is a property list whose `Value` field reads as
/// the integer `x`, what was read is `Some(x)`.
proof fn fixed_point_is_the_nested_value(c: Character, name: Seq<char>, r: Option<i64>, x: i64)
    requires
        fixed_point_read(c, name, r),
        exists|v: Value| field_in(c, c.save_parameter@, name, v),
        forall|v: Value|
            #[trigger] field_in(c, c.save_parameter@, name, v) ==> (v matches Value::Struct(StructValue::Properties(pp)) && (
            exists|inner: Value| field_in(c, pp@, "Value"@, inner)) && forall|inner: Value|
                #[trigger] field_in(c, pp@, "Value"@, inner) ==> value_integer(inner) == Some(x)),
    ensures
        r == Some(x),
{
    let sp = c.save_parameter@;
    let v0 = choose|v: Value| field_in(c, sp, name, v);
    lemma_field_present(c, sp, name, v0);
    match r {
        Some(y) => {
            let v = choose|v: Value| field_in(c, sp, name, v) && nested_integer(c, v, y);
            let pp = v->Struct_0->Properties_0;
            let inner = choose|inner: Value| field_in(c, pp@, "Value"@, inner) && value_integer(inner) == Some(y);
            assert(value_integer(inner) == Some(x));
        },
        None => {
            let v = choose|v: Value| field_in(c, sp, name, v) && no_nested_integer(c, v);
            let pp = v->Struct_0->Properties_0;
            let i0 = choose|inner: Value| field_in(c, pp@, "Value"@, inner);
            lemma_field_present(c, pp@, "Value"@, i0);
            let inner = choose|inner: Value| field_in(c, pp@, "Value"@, inner) && value_integer(inner) is None;
            assert(value_integer(inner) == Some(x));
        },
    }
}

/// Law: a player's `hp` is the integer its `Hp` struct holds under `Value`: whenever
/// every reading of `Hp` is a property list whose `Value` reads as `x`, `hp` is
/// `Some(x)`; it is `None` only when `Hp` is absent or holds no such integer.
proof fn player_hp_is_the_nested_value(c: Character, p: PlayerSummary, x: i64)
    requires
        player_view(c, p),
        exists|v: Value| field_in(c, c.save_parameter@, "Hp"@, v),
        forall|v: Value|
            #[trigger] field_in(c, c.save_parameter@, "Hp"@, v) ==> (v matches Value::Struct(StructValue::Properties(pp)) && (
            exists|inner: Value| field_in(c, pp@, "Value"@, inner)) && forall|inner: Value|
                #[trigger] field_in(c, pp@, "Value"@, inner) ==> value_integer(inner) == Some(x)),
    ensures
        p.hp == Some(x),
{
    reveal(player_view);
    fixed_point_is_the_nested_value(c, "Hp"@, p.hp, x);
}

/// Law: the same for a Pal's `hp`.
proof fn pal_hp_is_the_nested_value(c: Character, p: PalSummary, x: i64)
    requires
        pal_view(c, p),
        exists|v: Value| field_in(c, c.save_parameter@, "Hp"@, v),
        forall|v: Value|
            #[trigger] field_in(c, c.save_parameter@, "Hp"@, v) ==> (v matches Value::Struct(StructValue::Properties(pp)) && (
            exists|inner: Value| field_in(c, pp@, "Value"@, inner)) && forall|inner: Value|
                #[trigger] field_in(c, pp@, "Value"@, inner) ==> value_integer(inner) == Some(x)),
    ensures
        p.hp == Some(x),
{
    reveal(pal_view);
    fixed_point_is_the_nested_value(c, "Hp"@, p.hp, x);
}

} // verus!
