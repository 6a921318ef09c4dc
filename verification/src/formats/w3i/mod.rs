//! `war3map.w3i` — map information file.
//!
//! The full version ladder v8 → v33 is supported: see [`FormatVersion`] for
//! what each version corresponds to. Single-precision floats are kept as the
//! IEEE-754 bit patterns stored in the file.

pub mod availability;
pub mod force;
pub mod player;
pub mod random_tables;
pub mod resolve;
pub mod version;

use crate::error::Error;
use crate::reader::{
    opt_view, parse_counted, read_counted, views, read_if, ByteReader, Read, ReaderView,
};
use availability::{
    TechAvailabilityChange, TechAvailabilityChangeView, UpgradeAvailabilityChange,
    UpgradeAvailabilityChangeView,
};
use force::{Force, ForceView};
use player::{Player, PlayerView};
use random_tables::{RandomItemTable, RandomItemTableView, RandomUnitTable, RandomUnitTableView};
use version::FormatVersion;
use vstd::prelude::*;

verus! {

/// Unknown legacy fields only present in v8 (Reign of Chaos beta) files.
/// `unk1`, `unk3`, `unk4` and `unk5` are single-precision floats, kept as bits.
#[derive(Debug, Clone, Copy)]
pub struct LegacyV8Fields {
    pub unk1: u32,
    pub unk2: i32,
    pub unk3: u32,
    pub unk4: u32,
    pub unk5: u32,
    pub unk6: i32,
    /// Read separately, after the playable map size.
    pub unk7: i32,
}

/// Parsed `war3map.w3i` map information.
///
/// Fields are declared in file order. `Option` fields only exist in the
/// version range noted on each field; everything else is present in all
/// supported versions (v8+). `camera_bounds`, `fog_height` and `fog_density`
/// hold single-precision floats as their bit patterns.
#[derive(Debug, Clone)]
pub struct War3MapW3i {
    pub version: FormatVersion,
    /// Save counter (v18+).
    pub saves: Option<u32>,
    /// World Editor version that saved the map (v18+).
    pub editor_version: Option<u32>,
    /// Game version `[major, minor, patch, build]` (v27+).
    pub build_version: Option<[u32; 4]>,
    pub name: String,
    pub author: String,
    pub description: String,
    pub recommended_players: String,
    /// Unknown legacy fields (v8 only).
    pub legacy_v8: Option<LegacyV8Fields>,
    pub camera_bounds: [u32; 8],
    /// Camera bounds complements (v15+).
    pub camera_bounds_complements: Option<[i32; 4]>,
    pub playable_size: [i32; 2],
    pub flags: u32,
    pub tileset: u8,
    /// Loading screen background index; -1 = imported model (v23+).
    pub loading_screen_background: Option<i32>,
    /// Campaign background index (v18–v22 only).
    pub campaign_background: Option<i32>,
    /// Path of an imported loading screen model (v15–v17, v23+).
    pub loading_screen_model: Option<String>,
    /// Loading screen text (v10+).
    pub loading_screen_text: Option<String>,
    /// Loading screen title (v10+).
    pub loading_screen_title: Option<String>,
    /// Loading screen subtitle (v15+).
    pub loading_screen_subtitle: Option<String>,
    /// Game data set: 0 = default, 1 = custom, 2 = melee (v23+).
    pub game_data_set: Option<i32>,
    /// Loading screen index (v18–v22 only).
    pub loading_screen_index: Option<i32>,
    /// Path of an imported prologue screen model (v15–v17, v23+).
    pub prologue_screen_model: Option<String>,
    /// Prologue screen text (v11+).
    pub prologue_screen_text: Option<String>,
    /// Prologue screen title (v11+).
    pub prologue_screen_title: Option<String>,
    /// Prologue screen subtitle (v15+).
    pub prologue_screen_subtitle: Option<String>,
    /// Terrain fog style: 0 = none, 1 = linear, … (v23+).
    pub fog_style: Option<i32>,
    /// Fog start / end Z (v23+).
    pub fog_height: Option<[u32; 2]>,
    /// Fog density (v23+).
    pub fog_density: Option<u32>,
    /// Fog color, file order BGRA (v23+).
    pub fog_color: Option<[u8; 4]>,
    /// Global weather rawcode, 0 = none (v25+).
    pub global_weather: Option<i32>,
    /// Custom sound environment (v23+).
    pub sound_environment: Option<String>,
    /// Tileset id of the light environment (v23+).
    pub light_environment_tileset: Option<u8>,
    /// Water tinting color, file order BGRA (v23+).
    pub water_vertex_color: Option<[u8; 4]>,
    /// Script language: 0 = JASS, 1 = Lua (v28+).
    pub script_mode: Option<u32>,
    /// Supported graphics modes: 1 = SD, 2 = HD, 3 = both (v31+).
    pub graphics_mode: Option<u32>,
    /// Game data version: 0 = ROC, 1 = TFT (v31+).
    pub game_data_version: Option<u32>,
    /// Forced default camera zoom (v32+).
    pub default_camera_zoom: Option<i32>,
    /// Forced maximum camera zoom (v32+).
    pub max_camera_zoom: Option<i32>,
    /// Forced minimum camera zoom (v33+).
    pub min_camera_zoom: Option<i32>,
    /// True when the trailing upgrade/tech/random sections were omitted via
    /// the `0xFF` marker (common on older / protected maps such as DotA).
    pub skipped_optional_sections: bool,
    pub players: Vec<Player>,
    pub forces: Vec<Force>,
    pub upgrade_availability_changes: Vec<UpgradeAvailabilityChange>,
    pub tech_availability_changes: Vec<TechAvailabilityChange>,
    /// Random unit tables (v15+).
    pub random_unit_tables: Vec<RandomUnitTable>,
    /// Random item tables (v24+).
    pub random_item_tables: Vec<RandomItemTable>,
}

/// Version, save counters and the four title strings.
pub struct HeadView {
    pub version: u32,
    pub saves: Option<u32>,
    pub editor_version: Option<u32>,
    pub build_version: Option<Seq<u32>>,
    pub name: Seq<char>,
    pub author: Seq<char>,
    pub description: Seq<char>,
    pub recommended_players: Seq<char>,
}

/// The six v8 legacy values that precede the camera bounds.
pub struct LegacyHeadView {
    pub unk1: u32,
    pub unk2: i32,
    pub unk3: u32,
    pub unk4: u32,
    pub unk5: u32,
    pub unk6: i32,
}

pub struct LegacyV8View {
    pub unk1: u32,
    pub unk2: i32,
    pub unk3: u32,
    pub unk4: u32,
    pub unk5: u32,
    pub unk6: i32,
    pub unk7: i32,
}

/// Camera, playable area, flags, tileset and the loading background.
pub struct GeometryView {
    pub legacy_v8: Option<LegacyV8View>,
    pub camera_bounds: Seq<u32>,
    pub camera_bounds_complements: Option<Seq<i32>>,
    pub playable_size: Seq<i32>,
    pub flags: u32,
    pub tileset: u8,
    pub loading_screen_background: Option<i32>,
    pub campaign_background: Option<i32>,
    pub loading_screen_model: Option<Seq<char>>,
}

/// Loading and prologue screens.
pub struct ScreensView {
    pub loading_screen_text: Option<Seq<char>>,
    pub loading_screen_title: Option<Seq<char>>,
    pub loading_screen_subtitle: Option<Seq<char>>,
    pub game_data_set: Option<i32>,
    pub loading_screen_index: Option<i32>,
    pub prologue_screen_model: Option<Seq<char>>,
    pub prologue_screen_text: Option<Seq<char>>,
    pub prologue_screen_title: Option<Seq<char>>,
    pub prologue_screen_subtitle: Option<Seq<char>>,
}

/// Fog, weather, sound, light, water, script mode, graphics and zoom.
pub struct EnvironmentView {
    pub fog_style: Option<i32>,
    pub fog_height: Option<Seq<u32>>,
    pub fog_density: Option<u32>,
    pub fog_color: Option<Seq<u8>>,
    pub global_weather: Option<i32>,
    pub sound_environment: Option<Seq<char>>,
    pub light_environment_tileset: Option<u8>,
    pub water_vertex_color: Option<Seq<u8>>,
    pub script_mode: Option<u32>,
    pub graphics_mode: Option<u32>,
    pub game_data_version: Option<u32>,
    pub default_camera_zoom: Option<i32>,
    pub max_camera_zoom: Option<i32>,
    pub min_camera_zoom: Option<i32>,
}

/// Players, forces and the optional availability / random-table sections.
pub struct SectionsView {
    pub players: Seq<PlayerView>,
    pub forces: Seq<ForceView>,
    pub skipped_optional_sections: bool,
    pub upgrade_availability_changes: Seq<UpgradeAvailabilityChangeView>,
    pub tech_availability_changes: Seq<TechAvailabilityChangeView>,
    pub random_unit_tables: Seq<RandomUnitTableView>,
    pub random_item_tables: Seq<RandomItemTableView>,
}

pub struct W3iView {
    pub head: HeadView,
    pub geometry: GeometryView,
    pub screens: ScreensView,
    pub environment: EnvironmentView,
    pub sections: SectionsView,
}

pub open spec fn legacy_view(l: LegacyV8Fields) -> LegacyV8View {
    LegacyV8View {
        unk1: l.unk1,
        unk2: l.unk2,
        unk3: l.unk3,
        unk4: l.unk4,
        unk5: l.unk5,
        unk6: l.unk6,
        unk7: l.unk7,
    }
}

impl View for War3MapW3i {
    type V = W3iView;

    open spec fn view(&self) -> W3iView {
        W3iView {
            head: HeadView {
                version: self.version.0,
                saves: self.saves,
                editor_version: self.editor_version,
                build_version: opt_view(self.build_version),
                name: self.name@,
                author: self.author@,
                description: self.description@,
                recommended_players: self.recommended_players@,
            },
            geometry: GeometryView {
                legacy_v8: match self.legacy_v8 {
                    Some(l) => Some(legacy_view(l)),
                    None => None,
                },
                camera_bounds: self.camera_bounds@,
                camera_bounds_complements: opt_view(self.camera_bounds_complements),
                playable_size: self.playable_size@,
                flags: self.flags,
                tileset: self.tileset,
                loading_screen_background: self.loading_screen_background,
                campaign_background: self.campaign_background,
                loading_screen_model: opt_view(self.loading_screen_model),
            },
            screens: ScreensView {
                loading_screen_text: opt_view(self.loading_screen_text),
                loading_screen_title: opt_view(self.loading_screen_title),
                loading_screen_subtitle: opt_view(self.loading_screen_subtitle),
                game_data_set: self.game_data_set,
                loading_screen_index: self.loading_screen_index,
                prologue_screen_model: opt_view(self.prologue_screen_model),
                prologue_screen_text: opt_view(self.prologue_screen_text),
                prologue_screen_title: opt_view(self.prologue_screen_title),
                prologue_screen_subtitle: opt_view(self.prologue_screen_subtitle),
            },
            environment: EnvironmentView {
                fog_style: self.fog_style,
                fog_height: opt_view(self.fog_height),
                fog_density: self.fog_density,
                fog_color: opt_view(self.fog_color),
                global_weather: self.global_weather,
                sound_environment: opt_view(self.sound_environment),
                light_environment_tileset: self.light_environment_tileset,
                water_vertex_color: opt_view(self.water_vertex_color),
                script_mode: self.script_mode,
                graphics_mode: self.graphics_mode,
                game_data_version: self.game_data_version,
                default_camera_zoom: self.default_camera_zoom,
                max_camera_zoom: self.max_camera_zoom,
                min_camera_zoom: self.min_camera_zoom,
            },
            sections: SectionsView {
                players: views(self.players@),
                forces: views(self.forces@),
                skipped_optional_sections: self.skipped_optional_sections,
                upgrade_availability_changes: views(self.upgrade_availability_changes@),
                tech_availability_changes: views(self.tech_availability_changes@),
                random_unit_tables: views(self.random_unit_tables@),
                random_item_tables: views(self.random_item_tables@),
            },
        }
    }
}

/// `war3map.w3i` from the version up to the recommended-players string.
pub open spec fn read_head(v: ReaderView) -> Read<HeadView> {
    match v.read_u32() {
        Err(e) => Err(e),
        Ok((version, v)) => match read_if(version >= 18, v, v.read_u32()) {
            Err(e) => Err(e),
            Ok((saves, v)) => match read_if(version >= 18, v, v.read_u32()) {
                Err(e) => Err(e),
                Ok((editor_version, v)) => match read_if(version >= 27, v, v.read_u32s(4)) {
                    Err(e) => Err(e),
                    Ok((build_version, v)) => match v.read_cstr() {
                        Err(e) => Err(e),
                        Ok((name, v)) => match v.read_cstr() {
                            Err(e) => Err(e),
                            Ok((author, v)) => match v.read_cstr() {
                                Err(e) => Err(e),
                                Ok((description, v)) => match v.read_cstr() {
                                    Err(e) => Err(e),
                                    Ok((recommended_players, v)) => Ok((
                                        HeadView {
                                            version,
                                            saves,
                                            editor_version,
                                            build_version,
                                            name,
                                            author,
                                            description,
                                            recommended_players,
                                        },
                                        v,
                                    )),
                                },
                            },
                        },
                    },
                },
            },
        },
    }
}

/// The six leading v8 legacy values.
pub open spec fn read_legacy_head(v: ReaderView) -> Read<LegacyHeadView> {
    match v.read_u32() {
        Err(e) => Err(e),
        Ok((unk1, v)) => match v.read_i32() {
            Err(e) => Err(e),
            Ok((unk2, v)) => match v.read_u32() {
                Err(e) => Err(e),
                Ok((unk3, v)) => match v.read_u32() {
                    Err(e) => Err(e),
                    Ok((unk4, v)) => match v.read_u32() {
                        Err(e) => Err(e),
                        Ok((unk5, v)) => match v.read_i32() {
                            Err(e) => Err(e),
                            Ok((unk6, v)) => Ok((LegacyHeadView { unk1, unk2, unk3, unk4, unk5, unk6 }, v)),
                        },
                    },
                },
            },
        },
    }
}

pub open spec fn join_legacy(head: Option<LegacyHeadView>, unk7: Option<i32>) -> Option<LegacyV8View> {
    match (head, unk7) {
        (Some(h), Some(u)) => Some(LegacyV8View {
            unk1: h.unk1,
            unk2: h.unk2,
            unk3: h.unk3,
            unk4: h.unk4,
            unk5: h.unk5,
            unk6: h.unk6,
            unk7: u,
        }),
        _ => None,
    }
}

/// The model path shared by the v15–v17 and v23+ layouts.
pub open spec fn model_gate(version: u32) -> bool {
    version >= 23 || (15 <= version && version < 18)
}

/// From the optional v8 legacy values to the loading screen model.
pub open spec fn read_geometry(v: ReaderView, version: u32) -> Read<GeometryView> {
    match read_if(version == 8, v, read_legacy_head(v)) {
        Err(e) => Err(e),
        Ok((legacy, v)) => match v.read_u32s(8) {
            Err(e) => Err(e),
            Ok((camera_bounds, v)) => match read_if(version >= 15, v, v.read_i32s(4)) {
                Err(e) => Err(e),
                Ok((camera_bounds_complements, v)) => match v.read_i32s(2) {
                    Err(e) => Err(e),
                    Ok((playable_size, v)) => match read_if(version == 8, v, v.read_i32()) {
                        Err(e) => Err(e),
                        Ok((unk7, v)) => match v.read_u32() {
                            Err(e) => Err(e),
                            Ok((flags, v)) => match v.read_u8() {
                                Err(e) => Err(e),
                                Ok((tileset, v)) => match read_if(version >= 23, v, v.read_i32()) {
                                    Err(e) => Err(e),
                                    Ok((loading_screen_background, v)) => match read_if(
                                        18 <= version && version < 23,
                                        v,
                                        v.read_i32(),
                                    ) {
                                        Err(e) => Err(e),
                                        Ok((campaign_background, v)) => match read_if(
                                            model_gate(version),
                                            v,
                                            v.read_cstr(),
                                        ) {
                                            Err(e) => Err(e),
                                            Ok((loading_screen_model, v)) => Ok((
                                                GeometryView {
                                                    legacy_v8: join_legacy(legacy, unk7),
                                                    camera_bounds,
                                                    camera_bounds_complements,
                                                    playable_size,
                                                    flags,
                                                    tileset,
                                                    loading_screen_background,
                                                    campaign_background,
                                                    loading_screen_model,
                                                },
                                                v,
                                            )),
                                        },
                                    },
                                },
                            },
                        },
                    },
                },
            },
        },
    }
}

/// The loading and prologue screen fields (v10+).
pub open spec fn read_screens(v: ReaderView, version: u32) -> Read<ScreensView> {
    match read_if(version >= 10, v, v.read_cstr()) {
        Err(e) => Err(e),
        Ok((loading_screen_text, v)) => match read_if(version >= 10, v, v.read_cstr()) {
            Err(e) => Err(e),
            Ok((loading_screen_title, v)) => match read_if(version >= 15, v, v.read_cstr()) {
                Err(e) => Err(e),
                Ok((loading_screen_subtitle, v)) => match read_if(version >= 23, v, v.read_i32()) {
                    Err(e) => Err(e),
                    Ok((game_data_set, v)) => match read_if(18 <= version && version < 23, v, v.read_i32()) {
                        Err(e) => Err(e),
                        Ok((loading_screen_index, v)) => match read_if(model_gate(version), v, v.read_cstr()) {
                            Err(e) => Err(e),
                            Ok((prologue_screen_model, v)) => match read_if(version >= 11, v, v.read_cstr()) {
                                Err(e) => Err(e),
                                Ok((prologue_screen_text, v)) => match read_if(version >= 11, v, v.read_cstr()) {
                                    Err(e) => Err(e),
                                    Ok((prologue_screen_title, v)) => match read_if(
                                        version >= 15,
                                        v,
                                        v.read_cstr(),
                                    ) {
                                        Err(e) => Err(e),
                                        Ok((prologue_screen_subtitle, v)) => Ok((
                                            ScreensView {
                                                loading_screen_text,
                                                loading_screen_title,
                                                loading_screen_subtitle,
                                                game_data_set,
                                                loading_screen_index,
                                                prologue_screen_model,
                                                prologue_screen_text,
                                                prologue_screen_title,
                                                prologue_screen_subtitle,
                                            },
                                            v,
                                        )),
                                    },
                                },
                            },
                        },
                    },
                },
            },
        },
    }
}

/// Fog, weather, sound, light and water (v23+).
pub open spec fn read_atmosphere(v: ReaderView, version: u32) -> Read<EnvironmentView> {
    match read_if(version >= 23, v, v.read_i32()) {
        Err(e) => Err(e),
        Ok((fog_style, v)) => match read_if(version >= 23, v, v.read_u32s(2)) {
            Err(e) => Err(e),
            Ok((fog_height, v)) => match read_if(version >= 23, v, v.read_u32()) {
                Err(e) => Err(e),
                Ok((fog_density, v)) => match read_if(version >= 23, v, v.take(4)) {
                    Err(e) => Err(e),
                    Ok((fog_color, v)) => match read_if(version >= 25, v, v.read_i32()) {
                        Err(e) => Err(e),
                        Ok((global_weather, v)) => match read_if(version >= 23, v, v.read_cstr()) {
                            Err(e) => Err(e),
                            Ok((sound_environment, v)) => match read_if(version >= 23, v, v.read_u8()) {
                                Err(e) => Err(e),
                                Ok((light_environment_tileset, v)) => match read_if(
                                    version >= 23,
                                    v,
                                    v.take(4),
                                ) {
                                    Err(e) => Err(e),
                                    Ok((water_vertex_color, v)) => Ok((
                                        EnvironmentView {
                                            fog_style,
                                            fog_height,
                                            fog_density,
                                            fog_color,
                                            global_weather,
                                            sound_environment,
                                            light_environment_tileset,
                                            water_vertex_color,
                                            script_mode: None,
                                            graphics_mode: None,
                                            game_data_version: None,
                                            default_camera_zoom: None,
                                            max_camera_zoom: None,
                                            min_camera_zoom: None,
                                        },
                                        v,
                                    )),
                                },
                            },
                        },
                    },
                },
            },
        },
    }
}

/// The atmosphere fields followed by script mode, graphics and zoom (v28+).
pub open spec fn read_environment(v: ReaderView, version: u32) -> Read<EnvironmentView> {
    match read_atmosphere(v, version) {
        Err(e) => Err(e),
        Ok((a, v)) => match read_if(version >= 28, v, v.read_u32()) {
            Err(e) => Err(e),
            Ok((script_mode, v)) => match read_if(version >= 31, v, v.read_u32()) {
                Err(e) => Err(e),
                Ok((graphics_mode, v)) => match read_if(version >= 31, v, v.read_u32()) {
                    Err(e) => Err(e),
                    Ok((game_data_version, v)) => match read_if(version >= 32, v, v.read_i32()) {
                        Err(e) => Err(e),
                        Ok((default_camera_zoom, v)) => match read_if(version >= 32, v, v.read_i32()) {
                            Err(e) => Err(e),
                            Ok((max_camera_zoom, v)) => match read_if(version >= 33, v, v.read_i32()) {
                                Err(e) => Err(e),
                                Ok((min_camera_zoom, v)) => Ok((
                                    EnvironmentView {
                                        script_mode,
                                        graphics_mode,
                                        game_data_version,
                                        default_camera_zoom,
                                        max_camera_zoom,
                                        min_camera_zoom,
                                        ..a
                                    },
                                    v,
                                )),
                            },
                        },
                    },
                },
            },
        },
    }
}

/// A counted list that is only present when `cond` holds; absent reads as
/// empty.
pub open spec fn counted_when<T: crate::reader::Record>(cond: bool, v: ReaderView, version: u32) -> Read<Seq<T::V>> {
    if cond {
        read_counted::<T>(v, version)
    } else {
        Ok((Seq::empty(), v))
    }
}

/// The sections after the forces, when the `0xFF` marker is absent and the
/// input continues past the upgrade section.
pub open spec fn read_tail(v: ReaderView, version: u32) -> Read<
    (Seq<TechAvailabilityChangeView>, Seq<RandomUnitTableView>, Seq<RandomItemTableView>),
> {
    match read_counted::<TechAvailabilityChange>(v, version) {
        Err(e) => Err(e),
        Ok((tech, v)) => match counted_when::<RandomUnitTable>(version >= 15, v, version) {
            Err(e) => Err(e),
            Ok((units, v)) => match counted_when::<RandomItemTable>(version >= 24, v, version) {
                Err(e) => Err(e),
                Ok((items, v)) => match read_if(
                    26 <= version && version < 28 && v.remaining() >= 4,
                    v,
                    v.read_i32(),
                ) {
                    Err(e) => Err(e),
                    Ok((_, v)) => Ok(((tech, units, items), v)),
                },
            },
        },
    }
}

/// Players, forces, then either the `0xFF` skip marker or the availability
/// and random-table sections.
pub open spec fn read_sections(v: ReaderView, version: u32) -> Read<SectionsView> {
    match read_counted::<Player>(v, version) {
        Err(e) => Err(e),
        Ok((players, v)) => match read_counted::<Force>(v, version) {
            Err(e) => Err(e),
            Ok((forces, v)) => if v.pos < v.data.len() && v.data[v.pos] == 0xFF {
                Ok((
                    SectionsView {
                        players,
                        forces,
                        skipped_optional_sections: true,
                        upgrade_availability_changes: Seq::empty(),
                        tech_availability_changes: Seq::empty(),
                        random_unit_tables: Seq::empty(),
                        random_item_tables: Seq::empty(),
                    },
                    v.at(v.pos + 1),
                ))
            } else {
                match read_counted::<UpgradeAvailabilityChange>(v, version) {
                    Err(e) => Err(e),
                    Ok((upgrades, v)) => if v.pos >= v.data.len() {
                        Ok((
                            SectionsView {
                                players,
                                forces,
                                skipped_optional_sections: false,
                                upgrade_availability_changes: upgrades,
                                tech_availability_changes: Seq::empty(),
                                random_unit_tables: Seq::empty(),
                                random_item_tables: Seq::empty(),
                            },
                            v,
                        ))
                    } else {
                        match read_tail(v, version) {
                            Err(e) => Err(e),
                            Ok(((tech, units, items), v)) => Ok((
                                SectionsView {
                                    players,
                                    forces,
                                    skipped_optional_sections: false,
                                    upgrade_availability_changes: upgrades,
                                    tech_availability_changes: tech,
                                    random_unit_tables: units,
                                    random_item_tables: items,
                                },
                                v,
                            )),
                        }
                    }
                }
            },
        },
    }
}

/// The sections read as the format prescribes; if that fails, read again
/// treating an empty string as taking no bytes. The error reported is the one
/// the conformant read ended with.
pub open spec fn read_sections_tolerant(v: ReaderView, version: u32) -> Read<SectionsView> {
    match read_sections(v, version) {
        Ok(x) => Ok(x),
        Err(strict) => match read_sections(ReaderView { lenient: true, ..v }, version) {
            Ok(x) => Ok(x),
            Err(_) => Err(strict),
        },
    }
}

/// A whole `war3map.w3i` read from the start of `v`.
pub open spec fn read_w3i(v: ReaderView) -> Read<W3iView> {
    match read_head(v) {
        Err(e) => Err(e),
        Ok((head, v)) => match read_geometry(v, head.version) {
            Err(e) => Err(e),
            Ok((geometry, v)) => match read_screens(v, head.version) {
                Err(e) => Err(e),
                Ok((screens, v)) => match read_environment(v, head.version) {
                    Err(e) => Err(e),
                    Ok((environment, v)) => match read_sections_tolerant(v, head.version) {
                        Err(e) => Err(e),
                        Ok((sections, v)) => Ok((W3iView { head, geometry, screens, environment, sections }, v)),
                    },
                },
            },
        },
    }
}

/// What parsing `data` as a `war3map.w3i` yields.
pub open spec fn spec_parse_w3i(data: Seq<u8>) -> Result<W3iView, Error> {
    match read_w3i(ReaderView { data, pos: 0, lenient: false }) {
        Ok((w, _)) => Ok(w),
        Err(e) => Err(e),
    }
}

struct Head {
    version: u32,
    saves: Option<u32>,
    editor_version: Option<u32>,
    build_version: Option<[u32; 4]>,
    name: String,
    author: String,
    description: String,
    recommended_players: String,
}

impl View for Head {
    type V = HeadView;

    closed spec fn view(&self) -> HeadView {
        HeadView {
            version: self.version,
            saves: self.saves,
            editor_version: self.editor_version,
            build_version: opt_view(self.build_version),
            name: self.name@,
            author: self.author@,
            description: self.description@,
            recommended_players: self.recommended_players@,
        }
    }
}

fn parse_head(r: &mut ByteReader<'_>) -> (res: Result<Head, Error>)
    requires
        old(r)@.wf(),
    ensures
        final(r)@.wf(),
        match res {
            Ok(x) => read_head(old(r)@) == Ok::<_, Error>((x@, final(r)@)),
            Err(e) => read_head(old(r)@) == Err::<(HeadView, ReaderView), _>(e),
        },
{
    let version = r.u32()?;
    let saves = r.opt_u32(version >= 18)?;
    let editor_version = r.opt_u32(version >= 18)?;
    let build_version = r.opt_u32s::<4>(version >= 27)?;
    let name = r.cstr_lossy()?;
    let author = r.cstr_lossy()?;
    let description = r.cstr_lossy()?;
    let recommended_players = r.cstr_lossy()?;
    Ok(Head { version, saves, editor_version, build_version, name, author, description, recommended_players })
}

fn parse_legacy_head(r: &mut ByteReader<'_>, cond: bool) -> (res: Result<Option<(u32, i32, u32, u32, u32, i32)>, Error>)
    requires
        old(r)@.wf(),
    ensures
        final(r)@.wf(),
        match res {
            Ok(x) => read_if(cond, old(r)@, read_legacy_head(old(r)@)) == Ok::<_, Error>((
                match x {
                    Some(t) => Some(LegacyHeadView { unk1: t.0, unk2: t.1, unk3: t.2, unk4: t.3, unk5: t.4, unk6: t.5 }),
                    None => None,
                },
                final(r)@,
            )),
            Err(e) => read_if(cond, old(r)@, read_legacy_head(old(r)@)) == Err::<(Option<LegacyHeadView>, ReaderView), _>(e),
        },
{
    if !cond {
        return Ok(None);
    }
    let unk1 = r.u32()?;
    let unk2 = r.i32()?;
    let unk3 = r.u32()?;
    let unk4 = r.u32()?;
    let unk5 = r.u32()?;
    let unk6 = r.i32()?;
    Ok(Some((unk1, unk2, unk3, unk4, unk5, unk6)))
}

struct Geometry {
    legacy_v8: Option<LegacyV8Fields>,
    camera_bounds: [u32; 8],
    camera_bounds_complements: Option<[i32; 4]>,
    playable_size: [i32; 2],
    flags: u32,
    tileset: u8,
    loading_screen_background: Option<i32>,
    campaign_background: Option<i32>,
    loading_screen_model: Option<String>,
}

impl View for Geometry {
    type V = GeometryView;

    closed spec fn view(&self) -> GeometryView {
        GeometryView {
            legacy_v8: match self.legacy_v8 {
                Some(l) => Some(legacy_view(l)),
                None => None,
            },
            camera_bounds: self.camera_bounds@,
            camera_bounds_complements: opt_view(self.camera_bounds_complements),
            playable_size: self.playable_size@,
            flags: self.flags,
            tileset: self.tileset,
            loading_screen_background: self.loading_screen_background,
            campaign_background: self.campaign_background,
            loading_screen_model: opt_view(self.loading_screen_model),
        }
    }
}

fn parse_geometry(r: &mut ByteReader<'_>, version: u32) -> (res: Result<Geometry, Error>)
    requires
        old(r)@.wf(),
    ensures
        final(r)@.wf(),
        match res {
            Ok(x) => read_geometry(old(r)@, version) == Ok::<_, Error>((x@, final(r)@)),
            Err(e) => read_geometry(old(r)@, version) == Err::<(GeometryView, ReaderView), _>(e),
        },
{
    let legacy = parse_legacy_head(r, version == 8)?;
    let camera_bounds = r.u32s::<8>()?;
    let camera_bounds_complements = r.opt_i32s::<4>(version >= 15)?;
    let playable_size = r.i32s::<2>()?;
    let unk7 = r.opt_i32(version == 8)?;
    let flags = r.u32()?;
    let tileset = r.u8()?;
    let loading_screen_background = r.opt_i32(version >= 23)?;
    let campaign_background = r.opt_i32(18 <= version && version < 23)?;
    let loading_screen_model = r.opt_cstr(version >= 23 || (15 <= version && version < 18))?;
    let legacy_v8 = match (legacy, unk7) {
        (Some((unk1, unk2, unk3, unk4, unk5, unk6)), Some(unk7)) => Some(
            LegacyV8Fields { unk1, unk2, unk3, unk4, unk5, unk6, unk7 },
        ),
        _ => None,
    };
    Ok(Geometry {
        legacy_v8,
        camera_bounds,
        camera_bounds_complements,
        playable_size,
        flags,
        tileset,
        loading_screen_background,
        campaign_background,
        loading_screen_model,
    })
}

struct Screens {
    loading_screen_text: Option<String>,
    loading_screen_title: Option<String>,
    loading_screen_subtitle: Option<String>,
    game_data_set: Option<i32>,
    loading_screen_index: Option<i32>,
    prologue_screen_model: Option<String>,
    prologue_screen_text: Option<String>,
    prologue_screen_title: Option<String>,
    prologue_screen_subtitle: Option<String>,
}

impl View for Screens {
    type V = ScreensView;

    closed spec fn view(&self) -> ScreensView {
        ScreensView {
            loading_screen_text: opt_view(self.loading_screen_text),
            loading_screen_title: opt_view(self.loading_screen_title),
            loading_screen_subtitle: opt_view(self.loading_screen_subtitle),
            game_data_set: self.game_data_set,
            loading_screen_index: self.loading_screen_index,
            prologue_screen_model: opt_view(self.prologue_screen_model),
            prologue_screen_text: opt_view(self.prologue_screen_text),
            prologue_screen_title: opt_view(self.prologue_screen_title),
            prologue_screen_subtitle: opt_view(self.prologue_screen_subtitle),
        }
    }
}

fn parse_screens(r: &mut ByteReader<'_>, version: u32) -> (res: Result<Screens, Error>)
    requires
        old(r)@.wf(),
    ensures
        final(r)@.wf(),
        match res {
            Ok(x) => read_screens(old(r)@, version) == Ok::<_, Error>((x@, final(r)@)),
            Err(e) => read_screens(old(r)@, version) == Err::<(ScreensView, ReaderView), _>(e),
        },
{
    let loading_screen_text = r.opt_cstr(version >= 10)?;
    let loading_screen_title = r.opt_cstr(version >= 10)?;
    let loading_screen_subtitle = r.opt_cstr(version >= 15)?;
    let game_data_set = r.opt_i32(version >= 23)?;
    let loading_screen_index = r.opt_i32(18 <= version && version < 23)?;
    let prologue_screen_model = r.opt_cstr(version >= 23 || (15 <= version && version < 18))?;
    let prologue_screen_text = r.opt_cstr(version >= 11)?;
    let prologue_screen_title = r.opt_cstr(version >= 11)?;
    let prologue_screen_subtitle = r.opt_cstr(version >= 15)?;
    Ok(Screens {
        loading_screen_text,
        loading_screen_title,
        loading_screen_subtitle,
        game_data_set,
        loading_screen_index,
        prologue_screen_model,
        prologue_screen_text,
        prologue_screen_title,
        prologue_screen_subtitle,
    })
}

struct Environment {
    fog_style: Option<i32>,
    fog_height: Option<[u32; 2]>,
    fog_density: Option<u32>,
    fog_color: Option<[u8; 4]>,
    global_weather: Option<i32>,
    sound_environment: Option<String>,
    light_environment_tileset: Option<u8>,
    water_vertex_color: Option<[u8; 4]>,
    script_mode: Option<u32>,
    graphics_mode: Option<u32>,
    game_data_version: Option<u32>,
    default_camera_zoom: Option<i32>,
    max_camera_zoom: Option<i32>,
    min_camera_zoom: Option<i32>,
}

impl View for Environment {
    type V = EnvironmentView;

    closed spec fn view(&self) -> EnvironmentView {
        EnvironmentView {
            fog_style: self.fog_style,
            fog_height: opt_view(self.fog_height),
            fog_density: self.fog_density,
            fog_color: opt_view(self.fog_color),
            global_weather: self.global_weather,
            sound_environment: opt_view(self.sound_environment),
            light_environment_tileset: self.light_environment_tileset,
            water_vertex_color: opt_view(self.water_vertex_color),
            script_mode: self.script_mode,
            graphics_mode: self.graphics_mode,
            game_data_version: self.game_data_version,
            default_camera_zoom: self.default_camera_zoom,
            max_camera_zoom: self.max_camera_zoom,
            min_camera_zoom: self.min_camera_zoom,
        }
    }
}

fn parse_atmosphere(r: &mut ByteReader<'_>, version: u32) -> (res: Result<Environment, Error>)
    requires
        old(r)@.wf(),
    ensures
        final(r)@.wf(),
        match res {
            Ok(x) => read_atmosphere(old(r)@, version) == Ok::<_, Error>((x@, final(r)@)),
            Err(e) => read_atmosphere(old(r)@, version) == Err::<(EnvironmentView, ReaderView), _>(e),
        },
{
    let fog_style = r.opt_i32(version >= 23)?;
    let fog_height = r.opt_u32s::<2>(version >= 23)?;
    let fog_density = r.opt_u32(version >= 23)?;
    let fog_color = r.opt_bytes::<4>(version >= 23)?;
    let global_weather = r.opt_i32(version >= 25)?;
    let sound_environment = r.opt_cstr(version >= 23)?;
    let light_environment_tileset = r.opt_u8(version >= 23)?;
    let water_vertex_color = r.opt_bytes::<4>(version >= 23)?;
    Ok(Environment {
        fog_style,
        fog_height,
        fog_density,
        fog_color,
        global_weather,
        sound_environment,
        light_environment_tileset,
        water_vertex_color,
        script_mode: None,
        graphics_mode: None,
        game_data_version: None,
        default_camera_zoom: None,
        max_camera_zoom: None,
        min_camera_zoom: None,
    })
}

fn parse_environment(r: &mut ByteReader<'_>, version: u32) -> (res: Result<Environment, Error>)
    requires
        old(r)@.wf(),
    ensures
        final(r)@.wf(),
        match res {
            Ok(x) => read_environment(old(r)@, version) == Ok::<_, Error>((x@, final(r)@)),
            Err(e) => read_environment(old(r)@, version) == Err::<(EnvironmentView, ReaderView), _>(e),
        },
{
    let mut env = parse_atmosphere(r, version)?;
    env.script_mode = r.opt_u32(version >= 28)?;
    env.graphics_mode = r.opt_u32(version >= 31)?;
    env.game_data_version = r.opt_u32(version >= 31)?;
    env.default_camera_zoom = r.opt_i32(version >= 32)?;
    env.max_camera_zoom = r.opt_i32(version >= 32)?;
    env.min_camera_zoom = r.opt_i32(version >= 33)?;
    Ok(env)
}

/// The string-delimited tail of a `w3i`: players, forces, and the optional
/// availability/random-table sections.
struct Sections {
    players: Vec<Player>,
    forces: Vec<Force>,
    skipped_optional_sections: bool,
    upgrade_availability_changes: Vec<UpgradeAvailabilityChange>,
    tech_availability_changes: Vec<TechAvailabilityChange>,
    random_unit_tables: Vec<RandomUnitTable>,
    random_item_tables: Vec<RandomItemTable>,
}

impl View for Sections {
    type V = SectionsView;

    closed spec fn view(&self) -> SectionsView {
        SectionsView {
            players: views(self.players@),
            forces: views(self.forces@),
            skipped_optional_sections: self.skipped_optional_sections,
            upgrade_availability_changes: views(self.upgrade_availability_changes@),
            tech_availability_changes: views(self.tech_availability_changes@),
            random_unit_tables: views(self.random_unit_tables@),
            random_item_tables: views(self.random_item_tables@),
        }
    }
}

fn parse_counted_when<T: crate::reader::Record>(r: &mut ByteReader<'_>, cond: bool, version: u32) -> (res: Result<Vec<T>, Error>)
    requires
        old(r)@.wf(),
    ensures
        final(r)@.wf(),
        match res {
            Ok(xs) => counted_when::<T>(cond, old(r)@, version) == Ok::<_, Error>((views(xs@), final(r)@)),
            Err(e) => counted_when::<T>(cond, old(r)@, version) == Err::<(Seq<T::V>, ReaderView), _>(e),
        },
{
    if cond {
        parse_counted::<T>(r, version)
    } else {
        let empty: Vec<T> = Vec::new();
        assert(views(empty@) =~= Seq::<T::V>::empty());
        Ok(empty)
    }
}

fn parse_tail(r: &mut ByteReader<'_>, version: u32) -> (res: Result<
    (Vec<TechAvailabilityChange>, Vec<RandomUnitTable>, Vec<RandomItemTable>),
    Error,
>)
    requires
        old(r)@.wf(),
    ensures
        final(r)@.wf(),
        match res {
            Ok(x) => read_tail(old(r)@, version) == Ok::<_, Error>(((views(x.0@), views(x.1@), views(x.2@)), final(r)@)),
            Err(e) => read_tail(old(r)@, version) == Err::<(
                (Seq<TechAvailabilityChangeView>, Seq<RandomUnitTableView>, Seq<RandomItemTableView>),
                ReaderView,
            ), _>(e),
        },
{
    let tech = parse_counted::<TechAvailabilityChange>(r, version)?;
    let units = parse_counted_when::<RandomUnitTable>(r, version >= 15, version)?;
    let items = parse_counted_when::<RandomItemTable>(r, version >= 24, version)?;
    // v26/v27 append a trailing zero int; read and ignore it.
    let cond = 26 <= version && version < 28 && r.remaining() >= 4;
    let _ = r.opt_i32(cond)?;
    Ok((tech, units, items))
}

impl Sections {
    fn parse(r: &mut ByteReader<'_>, version: u32) -> (res: Result<Self, Error>)
        requires
            old(r)@.wf(),
        ensures
            final(r)@.wf(),
            match res {
                Ok(x) => read_sections(old(r)@, version) == Ok::<_, Error>((x@, final(r)@)),
                Err(e) => read_sections(old(r)@, version) == Err::<(SectionsView, ReaderView), _>(e),
            },
    {
        let players = parse_counted::<Player>(r, version)?;
        let forces = parse_counted::<Force>(r, version)?;
        // A single 0xFF byte after the forces marks the remaining sections as
        // omitted (typical of protected maps).
        if r.peek_u8() == Some(0xFFu8) {
            r.skip(1)?;
            let ghost e1: Seq<UpgradeAvailabilityChangeView> = Seq::empty();
            let upgrade_availability_changes: Vec<UpgradeAvailabilityChange> = Vec::new();
            let tech_availability_changes: Vec<TechAvailabilityChange> = Vec::new();
            let random_unit_tables: Vec<RandomUnitTable> = Vec::new();
            let random_item_tables: Vec<RandomItemTable> = Vec::new();
            assert(views(upgrade_availability_changes@) =~= Seq::<UpgradeAvailabilityChangeView>::empty());
            assert(views(tech_availability_changes@) =~= Seq::<TechAvailabilityChangeView>::empty());
            assert(views(random_unit_tables@) =~= Seq::<RandomUnitTableView>::empty());
            assert(views(random_item_tables@) =~= Seq::<RandomItemTableView>::empty());
            return Ok(Self {
                players,
                forces,
                skipped_optional_sections: true,
                upgrade_availability_changes,
                tech_availability_changes,
                random_unit_tables,
                random_item_tables,
            });
        }
        let upgrade_availability_changes = parse_counted::<UpgradeAvailabilityChange>(r, version)?;
        // Some maps end right after the upgrade section.
        if r.is_at_end() {
            let tech_availability_changes: Vec<TechAvailabilityChange> = Vec::new();
            let random_unit_tables: Vec<RandomUnitTable> = Vec::new();
            let random_item_tables: Vec<RandomItemTable> = Vec::new();
            assert(views(tech_availability_changes@) =~= Seq::<TechAvailabilityChangeView>::empty());
            assert(views(random_unit_tables@) =~= Seq::<RandomUnitTableView>::empty());
            assert(views(random_item_tables@) =~= Seq::<RandomItemTableView>::empty());
            return Ok(Self {
                players,
                forces,
                skipped_optional_sections: false,
                upgrade_availability_changes,
                tech_availability_changes,
                random_unit_tables,
                random_item_tables,
            });
        }
        let (tech_availability_changes, random_unit_tables, random_item_tables) = parse_tail(r, version)?;
        Ok(Self {
            players,
            forces,
            skipped_optional_sections: false,
            upgrade_availability_changes,
            tech_availability_changes,
            random_unit_tables,
            random_item_tables,
        })
    }
}

impl War3MapW3i {
    /// Parse a complete `war3map.w3i` buffer.
    pub fn parse(data: &[u8]) -> (res: Result<Self, Error>)
        ensures
            match res {
                Ok(w) => spec_parse_w3i(data@) == Ok::<_, Error>(w@),
                Err(e) => spec_parse_w3i(data@) == Err::<W3iView, _>(e),
            },
    {
        let mut r = ByteReader::new(data);
        Self::parse_reader(&mut r)
    }

    fn parse_reader(r: &mut ByteReader<'_>) -> (res: Result<Self, Error>)
        requires
            old(r)@.wf(),
        ensures
            final(r)@.wf(),
            match res {
                Ok(w) => read_w3i(old(r)@) == Ok::<_, Error>((w@, final(r)@)),
                Err(e) => read_w3i(old(r)@) == Err::<(W3iView, ReaderView), _>(e),
            },
    {
        let head = parse_head(r)?;
        let v = head.version;
        let geometry = parse_geometry(r, v)?;
        let screens = parse_screens(r, v)?;
        let environment = parse_environment(r, v)?;

        // Everything from here on is length-delimited by embedded strings, so a
        // writer that mis-encodes one shifts every field after it. Parse on a
        // copy and retry leniently rather than let that surface as a truncated
        // file.
        let mut attempt = *r;
        let sections = match Sections::parse(&mut attempt, v) {
            Ok(sections) => {
                *r = attempt;
                sections
            },
            Err(strict_error) => {
                let mut retry = *r;
                retry.set_empty_strings_unterminated(true);
                match Sections::parse(&mut retry, v) {
                    Ok(sections) => {
                        *r = retry;
                        sections
                    },
                    // Report what the conformant read saw; the retry is an
                    // accommodation, not the standard we parse against.
                    Err(_) => return Err(strict_error),
                }
            },
        };

        Ok(Self {
            version: FormatVersion(head.version),
            saves: head.saves,
            editor_version: head.editor_version,
            build_version: head.build_version,
            name: head.name,
            author: head.author,
            description: head.description,
            recommended_players: head.recommended_players,
            legacy_v8: geometry.legacy_v8,
            camera_bounds: geometry.camera_bounds,
            camera_bounds_complements: geometry.camera_bounds_complements,
            playable_size: geometry.playable_size,
            flags: geometry.flags,
            tileset: geometry.tileset,
            loading_screen_background: geometry.loading_screen_background,
            campaign_background: geometry.campaign_background,
            loading_screen_model: geometry.loading_screen_model,
            loading_screen_text: screens.loading_screen_text,
            loading_screen_title: screens.loading_screen_title,
            loading_screen_subtitle: screens.loading_screen_subtitle,
            game_data_set: screens.game_data_set,
            loading_screen_index: screens.loading_screen_index,
            prologue_screen_model: screens.prologue_screen_model,
            prologue_screen_text: screens.prologue_screen_text,
            prologue_screen_title: screens.prologue_screen_title,
            prologue_screen_subtitle: screens.prologue_screen_subtitle,
            fog_style: environment.fog_style,
            fog_height: environment.fog_height,
            fog_density: environment.fog_density,
            fog_color: environment.fog_color,
            global_weather: environment.global_weather,
            sound_environment: environment.sound_environment,
            light_environment_tileset: environment.light_environment_tileset,
            water_vertex_color: environment.water_vertex_color,
            script_mode: environment.script_mode,
            graphics_mode: environment.graphics_mode,
            game_data_version: environment.game_data_version,
            default_camera_zoom: environment.default_camera_zoom,
            max_camera_zoom: environment.max_camera_zoom,
            min_camera_zoom: environment.min_camera_zoom,
            skipped_optional_sections: sections.skipped_optional_sections,
            players: sections.players,
            forces: sections.forces,
            upgrade_availability_changes: sections.upgrade_availability_changes,
            tech_availability_changes: sections.tech_availability_changes,
            random_unit_tables: sections.random_unit_tables,
            random_item_tables: sections.random_item_tables,
        })
    }

    /// Game build as `major * 100 + minor` (e.g. 1.32 → 132), 0 when absent.
    pub fn get_build_version(&self) -> (n: u32)
        requires
            self.build_version matches Some(b) ==> b[0] * 100 + b[1] <= u32::MAX,
        ensures
            n == match self.build_version {
                Some(b) => b[0] * 100 + b[1],
                None => 0,
            },
    {
        match self.build_version {
            Some(version) => version[0] * 100 + version[1],
            None => 0,
        }
    }
}

} // verus!
