use vstd::prelude::*;

use crate::json::{as_items, field, json_text_parse, parse_json, text_field, Json, JsonModel};
use crate::numbers::{as_i64, as_u64, int_in};
use crate::text::{concat, owned};
use crate::loader::{collect_strings, string_items, views};

verus! {

/// A tileset found under the game's graphics directory.
#[derive(Debug, Clone)]
pub struct TilesetInfo {
    pub name: String,
    pub path: String,
}

/// One or several ids.
#[derive(Debug, Clone)]
pub enum StringOrArray {
    Single(String),
    Multiple(Vec<String>),
}

/// A tile's sprite: one index, one per rotation, or weighted choices.
#[derive(Debug, Clone)]
pub enum SpriteIndex {
    Single(i32),
    Rotated(Vec<i32>),
    Weighted(Vec<WeightedSprite>),
}

#[derive(Debug, Clone)]
pub struct WeightedSprite {
    pub weight: i32,
    pub sprite: i32,
}

#[derive(Debug, Clone)]
pub struct AdditionalTile {
    pub id: String,
    pub fg: Option<SpriteIndex>,
    pub bg: Option<SpriteIndex>,
}

/// A tile as a tileset configuration describes it.
#[derive(Debug, Clone)]
pub struct TileEntry {
    pub id: StringOrArray,
    pub fg: Option<SpriteIndex>,
    pub bg: Option<SpriteIndex>,
    pub multitile: bool,
    pub additional_tiles: Option<Vec<AdditionalTile>>,
}

/// A sprite sheet of a tileset.
#[derive(Debug, Clone)]
pub struct SpriteSheet {
    pub file: String,
    pub sprite_width: u32,
    pub sprite_height: u32,
    pub sprite_offset_x: i32,
    pub sprite_offset_y: i32,
}

/// Where a tile's sprites are: indices local to the sheet `file`.
#[derive(Debug, Clone)]
pub struct TileMapping {
    pub id: String,
    pub fg: Option<i32>,
    pub bg: Option<i32>,
    pub file: String,
}

/// The global sprite indices `start_index..end_index` that a sheet holds.
#[derive(Debug, Clone)]
pub struct SpriteSheetRange {
    pub file: String,
    pub start_index: i32,
    pub end_index: i32,
    pub sprite_width: u32,
    pub sprite_height: u32,
}

/// A tileset's configuration, with local sprite indices.
#[derive(Debug)]
pub struct TilesetConfig {
    pub name: String,
    pub tile_width: u32,
    pub tile_height: u32,
    pub sprite_sheets: Vec<SpriteSheet>,
    /// One mapping per tile id; a later tile with the same id replaces an earlier one.
    pub mappings: Vec<TileMapping>,
}

/// The big-endian 32-bit value at `i`.
pub open spec fn be_u32(b: Seq<u8>, i: int) -> int {
    b[i] as int * 16777216 + b[i + 1] as int * 65536 + b[i + 2] as int * 256 + b[i + 3] as int
}

/// The eight bytes every PNG file starts with.
pub open spec fn png_signature(b: Seq<u8>) -> bool {
    b[0] == 0x89u8 && b[1] == 0x50u8 && b[2] == 0x4eu8 && b[3] == 0x47u8 && b[4] == 0x0du8 && b[5]
        == 0x0au8 && b[6] == 0x1au8 && b[7] == 0x0au8
}

/// Width and height of a PNG image, read from its header chunk.
pub fn get_png_dimensions(bytes: &Vec<u8>) -> (r: Result<(u32, u32), String>)
    ensures
        bytes@.len() < 24 ==> r is Err,
        bytes@.len() >= 24 ==> (png_signature(bytes@) <==> r is Ok),
        r matches Ok((w, h)) ==> w == be_u32(bytes@, 16) && h == be_u32(bytes@, 20),
{
    if bytes.len() < 24 {
        return Err(owned("PNG file too small"));
    }
    if !(bytes[0] == 0x89u8 && bytes[1] == 0x50u8 && bytes[2] == 0x4eu8 && bytes[3] == 0x47u8 && bytes[4]
        == 0x0du8 && bytes[5] == 0x0au8 && bytes[6] == 0x1au8 && bytes[7] == 0x0au8) {
        return Err(owned("Invalid PNG signature"));
    }
    let width = bytes[16] as u32 * 16777216 + bytes[17] as u32 * 65536 + bytes[18] as u32 * 256
        + bytes[19] as u32;
    let height = bytes[20] as u32 * 16777216 + bytes[21] as u32 * 65536 + bytes[22] as u32 * 256
        + bytes[23] as u32;
    Ok((width, height))
}

/// The first sprite index of a tile's `fg` or `bg`: a number, the first
/// number of an array, or the `sprite` of the first weighted choice.
pub open spec fn first_sprite_index(v: Option<JsonModel>) -> Option<i32> {
    match v {
        Some(JsonModel::Number(t)) => match int_in(JsonModel::Number(t), i64::MIN as int, i64::MAX as int) {
            Some(n) => Some(n as i32),
            None => None,
        },
        Some(JsonModel::Array(a)) => if a.len() == 0 {
            None
        } else {
            match int_in(a[0], i64::MIN as int, i64::MAX as int) {
                Some(n) => Some(n as i32),
                None => match a[0] {
                    JsonModel::Object(_) => match field(a[0], "sprite"@) {
                        Some(s) => match int_in(s, i64::MIN as int, i64::MAX as int) {
                            Some(n) => Some(n as i32),
                            None => None,
                        },
                        None => None,
                    },
                    _ => None,
                },
            }
        },
        _ => None,
    }
}

/// The first sprite index of a tile's `fg` or `bg`.
pub fn extract_first_sprite_index(value: Option<&Json>) -> (r: Option<i32>)
    ensures
        r == first_sprite_index(
            match value {
                Some(v) => Some(v@),
                None => None,
            },
        ),
{
    match value {
        Some(Json::Number(_)) => match as_i64(value.unwrap()) {
            Some(n) => Some(n as i32),
            None => None,
        },
        Some(Json::Array(items)) => {
            proof {
                crate::json::lemma_array_view(*value.unwrap());
            }
            if items.len() == 0 {
                return None;
            }
            let first = &items[0];
            if let Some(n) = as_i64(first) {
                return Some(n as i32);
            }
            if first.is_object() {
                return match first.get("sprite") {
                    Some(s) => match as_i64(s) {
                        Some(n) => Some(n as i32),
                        None => None,
                    },
                    None => None,
                };
            }
            None
        },
        _ => None,
    }
}

/// The first range that holds global index `g`.
pub open spec fn range_of(ranges: Seq<SpriteSheetRange>, g: int, i: int) -> Option<int>
    decreases ranges.len() - i,
{
    if i < 0 || i >= ranges.len() {
        None
    } else if ranges[i].start_index <= g < ranges[i].end_index {
        Some(i)
    } else {
        range_of(ranges, g, i + 1)
    }
}

/// A global sprite index as an index local to the sheet that holds it, with
/// that sheet's file; nothing for a negative index or one that no sheet holds.
pub fn convert_global_to_local(global_index: Option<i32>, ranges: &Vec<SpriteSheetRange>) -> (r: (
    Option<i32>,
    Option<String>,
))
    ensures
        match global_index {
            Some(g) => if g >= 0 {
                match range_of(ranges@, g as int, 0) {
                    Some(k) => r.0 == Some((g - ranges@[k].start_index) as i32) && r.1 == Some(
                        ranges@[k].file,
                    ),
                    None => r.0 is None && r.1 is None,
                }
            } else {
                r.0 is None && r.1 is None
            },
            None => r.0 is None && r.1 is None,
        },
{
    let global = match global_index {
        Some(idx) => {
            if idx >= 0 {
                idx
            } else {
                return (None, None);
            }
        },
        None => {
            return (None, None);
        },
    };
    let mut i: usize = 0;
    while i < ranges.len()
        invariant
            i <= ranges@.len(),
            global_index == Some(global),
            global >= 0,
            range_of(ranges@, global as int, 0) == range_of(ranges@, global as int, i as int),
        decreases ranges.len() - i,
    {
        let range = &ranges[i];
        if global >= range.start_index && global < range.end_index {
            assert(range_of(ranges@, global as int, i as int) == Some(i as int));
            let local = ((global as i64) - (range.start_index as i64)) as i32;
            return (Some(local), Some(range.file.clone()));
        }
        assert(range_of(ranges@, global as int, i as int) == range_of(ranges@, global as int, i + 1));
        i += 1;
    }
    (None, None)
}

/// The sprites a sheet holds: whole sprites across times whole sprites down,
/// wrapped to 32 bits; none where a sprite size is zero.
pub open spec fn sprite_count(img: (u32, u32), w: u32, h: u32) -> i32 {
    if w > 0 && h > 0 {
        (((img.0 / w) as int * (img.1 / h) as int) as u32) as i32
    } else {
        0
    }
}

/// A sheet of the configuration, with the defaults that apply.
pub open spec fn sheet_of(sheet: JsonModel, tile_w: u32, tile_h: u32) -> (Seq<char>, u32, u32, i32, i32) {
    (
        match text_field(sheet, "file"@) {
            Some(f) => f,
            None => "normal.png"@,
        },
        match field(sheet, "sprite_width"@) {
            Some(v) => match int_in(v, 0, u64::MAX as int) {
                Some(n) => n as u32,
                None => tile_w,
            },
            None => tile_w,
        },
        match field(sheet, "sprite_height"@) {
            Some(v) => match int_in(v, 0, u64::MAX as int) {
                Some(n) => n as u32,
                None => tile_h,
            },
            None => tile_h,
        },
        match field(sheet, "sprite_offset_x"@) {
            Some(v) => match int_in(v, i64::MIN as int, i64::MAX as int) {
                Some(n) => n as i32,
                None => 0,
            },
            None => 0,
        },
        match field(sheet, "sprite_offset_y"@) {
            Some(v) => match int_in(v, i64::MIN as int, i64::MAX as int) {
                Some(n) => n as i32,
                None => 0,
            },
            None => 0,
        },
    )
}

/// `s` is the sprite sheet `m` describes.
pub open spec fn sheet_matches(s: SpriteSheet, m: (Seq<char>, u32, u32, i32, i32)) -> bool {
    s.file@ == m.0 && s.sprite_width == m.1 && s.sprite_height == m.2 && s.sprite_offset_x == m.3
        && s.sprite_offset_y == m.4
}

/// A size field of `tile_info` cut to 32 bits, 32 where absent.
pub open spec fn tile_size(info: JsonModel, key: Seq<char>) -> u32 {
    (match field(info, key) {
        Some(v) => match int_in(v, 0, u64::MAX as int) {
            Some(n) => n as u64,
            None => 32u64,
        },
        None => 32u64,
    }) as u32
}

/// A size field of `tile_info`, 32 where absent.
fn size_or_default(info: &Json, key: &str, default: u64) -> (r: u64)
    ensures
        r == match field(info@, key@) {
            Some(v) => match int_in(v, 0, u64::MAX as int) {
                Some(n) => n as u64,
                None => default,
            },
            None => default,
        },
{
    match info.get(key) {
        Some(v) => match as_u64(v) {
            Some(n) => n,
            None => default,
        },
        None => default,
    }
}

/// An offset field of a sheet, 0 where absent.
fn offset_or_zero(sheet: &Json, key: &str) -> (r: i32)
    ensures
        r == match field(sheet@, key@) {
            Some(v) => match int_in(v, i64::MIN as int, i64::MAX as int) {
                Some(n) => n as i32,
                None => 0,
            },
            None => 0,
        },
{
    match sheet.get(key) {
        Some(v) => match as_i64(v) {
            Some(n) => n as i32,
            None => 0,
        },
        None => 0,
    }
}

/// The sheet that `sheet` describes, and the range of global indices it
/// holds from `offset` on, given its image's size.
fn read_sheet(sheet: &Json, tile_w: u32, tile_h: u32, img: (u32, u32), offset: i32) -> (r: (SpriteSheet, SpriteSheetRange))
    ensures
        sheet_matches(r.0, sheet_of(sheet@, tile_w, tile_h)),
        r.1.file@ == r.0.file@,
        r.1.start_index == offset,
        r.1.end_index == ((offset as int + sprite_count(img, r.0.sprite_width, r.0.sprite_height) as int) as i32),
{
    proof {
        reveal_strlit("normal.png");
    }
    let file = match sheet.get_str("file") {
        Some(f) => owned(f),
        None => owned("normal.png"),
    };
    let w = size_or_default(sheet, "sprite_width", tile_w as u64) as u32;
    let h = size_or_default(sheet, "sprite_height", tile_h as u64) as u32;
    let ox = offset_or_zero(sheet, "sprite_offset_x");
    let oy = offset_or_zero(sheet, "sprite_offset_y");
    let count: i32 = if w > 0 && h > 0 {
        let across = (img.0 / w) as u64;
        let down = (img.1 / h) as u64;
        assert(across * down <= u64::MAX) by (nonlinear_arith)
            requires
                across <= u32::MAX,
                down <= u32::MAX,
        ;
        ((across * down) as u32) as i32
    } else {
        0
    };
    let end = ((offset as i64) + (count as i64)) as i32;
    let range = SpriteSheetRange { file: file.clone(), start_index: offset, end_index: end, sprite_width: w, sprite_height: h };
    (SpriteSheet { file, sprite_width: w, sprite_height: h, sprite_offset_x: ox, sprite_offset_y: oy }, range)
}

/// The ids a tile names.
fn tile_ids(tile: &Json) -> (r: Option<Vec<String>>)
    ensures
        match tile_id_list(tile@) {
            Some(ids) => r matches Some(v) && views(v@) == ids,
            None => r is None,
        },
{
    match tile.get("id") {
        Some(Json::Str(s)) => {
            let v = vec![s.clone()];
            assert(views(v@) =~= seq![s@]);
            Some(v)
        },
        Some(Json::Array(items)) => Some(collect_strings(items)),
        _ => None,
    }
}

/// No tile id has two mappings.
pub open spec fn mapping_ids_unique(v: Seq<TileMapping>) -> bool {
    forall|i: int, j: int| #![trigger v[i], v[j]] 0 <= i < v.len() && 0 <= j < v.len() && i != j ==> v[i].id@ != v[j].id@
}

/// Records `m`: it replaces the mapping with the same id, else comes last.
fn put_mapping(mappings: &mut Vec<TileMapping>, m: TileMapping)
    requires
        mapping_ids_unique(old(mappings)@),
    ensures
        mapping_ids_unique(final(mappings)@),
        (exists|i: int| 0 <= i < old(mappings)@.len() && old(mappings)@[i].id@ == m.id@ && final(mappings)@
            == old(mappings)@.update(i, m)) || ((forall|i: int| 0 <= i < old(mappings)@.len() ==> old(mappings)@[i].id@
            != m.id@) && final(mappings)@ == old(mappings)@.push(m)),
{
    let mut i: usize = 0;
    while i < mappings.len()
        invariant
            i <= mappings@.len(),
            mappings@ == old(mappings)@,
            mapping_ids_unique(old(mappings)@),
            forall|k: int| 0 <= k < i ==> mappings@[k].id@ != m.id@,
        decreases mappings.len() - i,
    {
        if mappings[i].id == m.id {
            let ghost before = mappings@;
            assert(mapping_ids_unique(before));
            assert(before[i as int].id@ == m.id@);
            mappings.set(i, m);
            proof {
                assert forall|a: int, b: int| 0 <= a < mappings@.len() && 0 <= b < mappings@.len() && a != b implies #[trigger] mappings@[a].id@
                    != #[trigger] mappings@[b].id@ by {
                    if a == i {
                        assert(before[b].id@ != before[i as int].id@);
                    } else if b == i {
                        assert(before[a].id@ != before[i as int].id@);
                    }
                }
            }
            return;
        }
        i += 1;
    }
    let ghost before = mappings@;
    mappings.push(m);
    proof {
        assert forall|a: int, b: int| 0 <= a < mappings@.len() && 0 <= b < mappings@.len() && a != b implies #[trigger] mappings@[a].id@
            != #[trigger] mappings@[b].id@ by {
            if a < before.len() && b < before.len() {
                assert(mappings@[a] == before[a] && mappings@[b] == before[b]);
            }
        }
    }
}

/// The sheets of a configuration's `tiles-new` list.
pub open spec fn sheets_of(config: JsonModel) -> Seq<JsonModel> {
    match as_items(field(config, "tiles-new"@)) {
        Some(s) => s,
        None => Seq::empty(),
    }
}

/// The image files a tileset configuration names, one per sheet.
pub fn tileset_sheet_files(config_text: &str) -> (r: Result<Vec<String>, String>)
    ensures
        match json_text_parse(config_text@) {
            Ok(c) => r matches Ok(v) && v@.len() == sheets_of(c).len() && forall|k: int|
                0 <= k < v@.len() ==> (#[trigger] v@[k])@ == sheet_of(sheets_of(c)[k], 32, 32).0,
            Err(_) => r is Err,
        },
{
    proof {
        reveal_strlit("normal.png");
    }
    let config = match parse_json(config_text) {
        Ok(c) => c,
        Err(e) => {
            return Err(concat("Failed to parse config: ", e.as_str()));
        },
    };
    let mut files: Vec<String> = Vec::new();
    match config.get("tiles-new") {
        Some(Json::Array(sheets)) => {
            proof {
                crate::json::lemma_array_view(Json::Array(*sheets));
            }
            let ghost m = Json::Array(*sheets)@->Array_0;
            let mut i: usize = 0;
            while i < sheets.len()
                invariant
                    i <= sheets@.len(),
                    m.len() == sheets@.len(),
                    m == sheets_of(config@),
                    forall|k: int| 0 <= k < sheets@.len() ==> #[trigger] m[k] == sheets@[k]@,
                    files@.len() == i,
                    forall|k: int| 0 <= k < i ==> (#[trigger] files@[k])@ == sheet_of(m[k], 32, 32).0,
                decreases sheets.len() - i,
            {
                let f = match sheets[i].get_str("file") {
                    Some(f) => owned(f),
                    None => owned("normal.png"),
                };
                files.push(f);
                i += 1;
            }
        },
        _ => {},
    }
    Ok(files)
}

/// The size of the image of sheet `k`, nothing where it could not be read.
pub open spec fn image_at(images: Seq<Option<(u32, u32)>>, k: int) -> (u32, u32) {
    if 0 <= k < images.len() {
        match images[k] {
            Some(d) => d,
            None => (0, 0),
        }
    } else {
        (0, 0)
    }
}

/// The file and the global indices `start..end` of each of the first `n`
/// sheets: each starts where the one before ends.
pub open spec fn range_models(
    sheets: Seq<JsonModel>,
    images: Seq<Option<(u32, u32)>>,
    tw: u32,
    th: u32,
    n: int,
) -> Seq<(Seq<char>, i32, i32)>
    decreases n,
{
    if n <= 0 {
        Seq::empty()
    } else {
        let prev = range_models(sheets, images, tw, th, n - 1);
        let start: i32 = if prev.len() == 0 {
            0
        } else {
            prev.last().2
        };
        let sh = sheet_of(sheets[n - 1], tw, th);
        prev.push((sh.0, start, ((start as int + sprite_count(image_at(images, n - 1), sh.1, sh.2) as int) as i32)))
    }
}

proof fn lemma_range_models_len(sheets: Seq<JsonModel>, images: Seq<Option<(u32, u32)>>, tw: u32, th: u32, n: int)
    requires
        n >= 0,
    ensures
        range_models(sheets, images, tw, th, n).len() == n,
    decreases n,
{
    if n > 0 {
        lemma_range_models_len(sheets, images, tw, th, n - 1);
    }
}

/// The first model range from `i` on that holds `g`.
pub open spec fn model_range_of(models: Seq<(Seq<char>, i32, i32)>, g: int, i: int) -> Option<int>
    decreases models.len() - i,
{
    if i < 0 || i >= models.len() {
        None
    } else if models[i].1 <= g < models[i].2 {
        Some(i)
    } else {
        model_range_of(models, g, i + 1)
    }
}

proof fn lemma_model_range_bounds(models: Seq<(Seq<char>, i32, i32)>, g: int, i: int)
    ensures
        model_range_of(models, g, i) matches Some(k) ==> 0 <= i <= k < models.len() && models[k].1 <= g < models[k].2,
    decreases models.len() - i,
{
    if !(i < 0 || i >= models.len()) && !(models[i].1 <= g < models[i].2) {
        lemma_model_range_bounds(models, g, i + 1);
    }
}

/// A global sprite index as a local one with its sheet's file.
pub open spec fn local_of(models: Seq<(Seq<char>, i32, i32)>, g: Option<i32>) -> (Option<i32>, Option<Seq<char>>) {
    match g {
        Some(x) => if x >= 0 {
            match model_range_of(models, x as int, 0) {
                Some(k) => (Some((x - models[k].1) as i32), Some(models[k].0)),
                None => (None, None),
            }
        } else {
            (None, None)
        },
        None => (None, None),
    }
}

/// The ranges stand for the models.
pub open spec fn ranges_match(ranges: Seq<SpriteSheetRange>, models: Seq<(Seq<char>, i32, i32)>) -> bool {
    ranges.len() == models.len() && forall|k: int|
        0 <= k < ranges.len() ==> (#[trigger] ranges[k]).file@ == models[k].0 && ranges[k].start_index == models[k].1
            && ranges[k].end_index == models[k].2
}

proof fn lemma_range_of_models(ranges: Seq<SpriteSheetRange>, models: Seq<(Seq<char>, i32, i32)>, g: int, i: int)
    requires
        ranges_match(ranges, models),
        0 <= i <= ranges.len(),
    ensures
        range_of(ranges, g, i) == model_range_of(models, g, i),
    decreases ranges.len() - i,
{
    if i < ranges.len() {
        lemma_range_of_models(ranges, models, g, i + 1);
    }
}

/// The ids a tile names: one string, or the strings of an array.
pub open spec fn tile_id_list(tile: JsonModel) -> Option<Seq<Seq<char>>> {
    match field(tile, "id"@) {
        Some(JsonModel::Str(s)) => Some(seq![s]),
        Some(JsonModel::Array(a)) => Some(string_items(a, a.len() as int)),
        _ => None,
    }
}

/// A mapping as plain values: id, local foreground and background, file.
pub type MapModel = (Seq<char>, Option<i32>, Option<i32>, Seq<char>);

pub open spec fn map_view(m: TileMapping) -> MapModel {
    (m.id@, m.fg, m.bg, m.file@)
}

pub open spec fn maps_view(v: Seq<TileMapping>) -> Seq<MapModel> {
    v.map_values(|m: TileMapping| map_view(m))
}

/// Where a tile's sprites are: local foreground, local background, and the
/// foreground's file, else the background's.
pub open spec fn tile_place(tile: JsonModel, models: Seq<(Seq<char>, i32, i32)>) -> (Option<i32>, Option<i32>, Seq<char>) {
    let fg = local_of(models, first_sprite_index(field(tile, "fg"@)));
    let bg = local_of(models, first_sprite_index(field(tile, "bg"@)));
    (
        fg.0,
        bg.0,
        match fg.1 {
            Some(f) => f,
            None => match bg.1 {
                Some(f) => f,
                None => Seq::empty(),
            },
        },
    )
}

/// The mappings one tile records, one per id.
pub open spec fn tile_inserts(tile: JsonModel, models: Seq<(Seq<char>, i32, i32)>) -> Seq<MapModel> {
    match tile_id_list(tile) {
        Some(ids) => {
            let p = tile_place(tile, models);
            ids.map_values(|id: Seq<char>| (id, p.0, p.1, p.2))
        },
        None => Seq::empty(),
    }
}

/// The mappings the first `n` tiles record, in order.
pub open spec fn tiles_inserts(tiles: Seq<JsonModel>, models: Seq<(Seq<char>, i32, i32)>, n: int) -> Seq<MapModel>
    decreases n,
{
    if n <= 0 {
        Seq::empty()
    } else {
        tiles_inserts(tiles, models, n - 1) + tile_inserts(tiles[n - 1], models)
    }
}

/// The tiles of a sheet.
pub open spec fn tiles_of(sheet: JsonModel) -> Seq<JsonModel> {
    match as_items(field(sheet, "tiles"@)) {
        Some(t) => t,
        None => Seq::empty(),
    }
}

/// The mappings the tiles of the first `n` sheets record, in order.
pub open spec fn sheets_inserts(sheets: Seq<JsonModel>, models: Seq<(Seq<char>, i32, i32)>, n: int) -> Seq<MapModel>
    decreases n,
{
    if n <= 0 {
        Seq::empty()
    } else {
        sheets_inserts(sheets, models, n - 1) + tiles_inserts(
            tiles_of(sheets[n - 1]),
            models,
            tiles_of(sheets[n - 1]).len() as int,
        )
    }
}

/// The position of the mapping for `id`.
pub open spec fn find_id(v: Seq<MapModel>, id: Seq<char>) -> Option<int> {
    if exists|k: int| 0 <= k < v.len() && v[k].0 == id {
        Some(choose|k: int| 0 <= k < v.len() && v[k].0 == id)
    } else {
        None
    }
}

/// `v` with `x` recorded: replacing the mapping with its id, else last.
pub open spec fn upsert(v: Seq<MapModel>, x: MapModel) -> Seq<MapModel> {
    match find_id(v, x.0) {
        Some(k) => v.update(k, x),
        None => v.push(x),
    }
}

/// `v` with each of `xs` recorded in turn.
pub open spec fn upsert_all(v: Seq<MapModel>, xs: Seq<MapModel>) -> Seq<MapModel>
    decreases xs.len(),
{
    if xs.len() == 0 {
        v
    } else {
        upsert(upsert_all(v, xs.drop_last()), xs.last())
    }
}

proof fn lemma_upsert_all_append(v: Seq<MapModel>, a: Seq<MapModel>, b: Seq<MapModel>)
    ensures
        upsert_all(v, a + b) == upsert_all(upsert_all(v, a), b),
    decreases b.len(),
{
    if b.len() == 0 {
        assert(a + b =~= a);
    } else {
        assert((a + b).drop_last() =~= a + b.drop_last());
        assert((a + b).last() == b.last());
        lemma_upsert_all_append(v, a, b.drop_last());
    }
}

proof fn lemma_upsert_push(v: Seq<MapModel>, x: MapModel)
    ensures
        upsert_all(v, seq![x]) == upsert(v, x),
{
    assert(seq![x].drop_last() =~= Seq::<MapModel>::empty());
    assert(seq![x].last() == x);
    assert(upsert_all(v, Seq::<MapModel>::empty()) == v);
}

proof fn lemma_put_is_upsert(old: Seq<TileMapping>, new: Seq<TileMapping>, m: TileMapping)
    requires
        mapping_ids_unique(old),
        (exists|i: int| 0 <= i < old.len() && old[i].id@ == m.id@ && new == old.update(i, m)) || ((forall|i: int|
            0 <= i < old.len() ==> old[i].id@ != m.id@) && new == old.push(m)),
    ensures
        maps_view(new) == upsert(maps_view(old), map_view(m)),
{
    let ov = maps_view(old);
    if exists|i: int| 0 <= i < old.len() && old[i].id@ == m.id@ && new == old.update(i, m) {
        let i = choose|i: int| 0 <= i < old.len() && old[i].id@ == m.id@ && new == old.update(i, m);
        assert(ov[i].0 == m.id@);
        let k = choose|k: int| 0 <= k < ov.len() && ov[k].0 == m.id@;
        assert(ov[k].0 == old[k].id@);
        if k != i {
            assert(old[k].id@ != old[i].id@);
        }
        assert(maps_view(new) =~= ov.update(i, map_view(m)));
    } else {
        assert(forall|k: int| 0 <= k < ov.len() ==> ov[k].0 == old[k].id@);
        assert(!(exists|k: int| 0 <= k < ov.len() && ov[k].0 == m.id@));
        assert(maps_view(new) =~= ov.push(map_view(m)));
    }
}

/// Where a tile's sprites are, with local indices.
fn place_of(tile: &Json, ranges: &Vec<SpriteSheetRange>, Ghost(models): Ghost<Seq<(Seq<char>, i32, i32)>>) -> (r: (
    Option<i32>,
    Option<i32>,
    String,
))
    requires
        ranges_match(ranges@, models),
    ensures
        (r.0, r.1, r.2@) == tile_place(tile@, models),
{
    proof {
        lemma_range_of_models(ranges@, models, 0, 0);
        assert forall|g: int| range_of(ranges@, g, 0) == model_range_of(models, g, 0) by {
            lemma_range_of_models(ranges@, models, g, 0);
        }
    }
    let gf = extract_first_sprite_index(tile.get("fg"));
    let gb = extract_first_sprite_index(tile.get("bg"));
    assert(gf == first_sprite_index(field(tile@, "fg"@)));
    assert(gb == first_sprite_index(field(tile@, "bg"@)));
    let (fg, fg_file) = convert_global_to_local(gf, ranges);
    let (bg, bg_file) = convert_global_to_local(gb, ranges);
    proof {
        let lf = local_of(models, gf);
        let lb = local_of(models, gb);
        if gf is Some {
            let x = gf->0 as int;
            lemma_model_range_bounds(models, x, 0);
            if model_range_of(models, x, 0) is Some {
                let k = model_range_of(models, x, 0)->0;
                assert(ranges@[k].start_index == models[k].1);
            }
        }
        if gb is Some {
            let x = gb->0 as int;
            lemma_model_range_bounds(models, x, 0);
            if model_range_of(models, x, 0) is Some {
                let k = model_range_of(models, x, 0)->0;
                assert(ranges@[k].start_index == models[k].1);
            }
        }
        assert(fg == lf.0);
        assert(bg == lb.0);
        assert(match fg_file {
            Some(f) => Some(f@),
            None => None,
        } == lf.1);
        assert(match bg_file {
            Some(f) => Some(f@),
            None => None,
        } == lb.1);
    }
    let file = match fg_file {
        Some(f) => f,
        None => match bg_file {
            Some(f) => f,
            None => String::new(),
        },
    };
    (fg, bg, file)
}

/// Records the mappings of one tile.
fn apply_tile(
    tile: &Json,
    ranges: &Vec<SpriteSheetRange>,
    Ghost(models): Ghost<Seq<(Seq<char>, i32, i32)>>,
    mappings: &mut Vec<TileMapping>,
)
    requires
        ranges_match(ranges@, models),
        mapping_ids_unique(old(mappings)@),
    ensures
        mapping_ids_unique(final(mappings)@),
        maps_view(final(mappings)@) == upsert_all(maps_view(old(mappings)@), tile_inserts(tile@, models)),
{
    match tile_ids(tile) {
        None => {
            assert(tile_inserts(tile@, models).len() == 0);
        },
        Some(ids) => {
            let (fg, bg, file) = place_of(tile, ranges, Ghost(models));
            let ghost t = tile_inserts(tile@, models);
            let ghost start = maps_view(mappings@);
            assert(t.take(0).len() == 0);
            let mut k: usize = 0;
            while k < ids.len()
                invariant
                    k <= ids@.len(),
                    t == tile_inserts(tile@, models),
                    t.len() == ids@.len(),
                    forall|q: int| 0 <= q < ids@.len() ==> #[trigger] t[q] == (ids@[q]@, fg, bg, file@),
                    mapping_ids_unique(mappings@),
                    maps_view(mappings@) == upsert_all(start, t.take(k as int)),
                decreases ids.len() - k,
            {
                let ghost before = mappings@;
                let m = TileMapping { id: ids[k].clone(), fg, bg, file: file.clone() };
                assert(map_view(m) == t[k as int]);
                put_mapping(mappings, m);
                proof {
                    lemma_put_is_upsert(before, mappings@, m);
                    assert(t.take(k + 1).drop_last() =~= t.take(k as int));
                    assert(t.take(k + 1).last() == t[k as int]);
                }
                k += 1;
            }
            assert(t.take(ids@.len() as int) =~= t);
        },
    }
}

/// Reads a tileset configuration. `images` gives, per sheet of `tiles-new`
/// in order, its image's size where it could be read; a sheet without one
/// holds no sprites. Sprite indices in the configuration are global across
/// the sheets in order; the mappings hold them local to their sheet.
pub fn build_tileset_config(tileset_name: &str, config_text: &str, images: &Vec<Option<(u32, u32)>>) -> (r: Result<
    TilesetConfig,
    String,
>)
    ensures
        (json_text_parse(config_text@) matches Ok(cfg) && (as_items(field(cfg, "tile_info"@)) matches Some(t)
            && t.len() > 0)) <==> r is Ok,
        r matches Ok(c) ==> {
            let info = as_items(field(json_text_parse(config_text@)->Ok_0, "tile_info"@))->0[0];
            &&& c.tile_width == tile_size(info, "width"@)
            &&& c.tile_height == tile_size(info, "height"@)
        },
        r matches Ok(c) ==> {
            let cfg = json_text_parse(config_text@)->Ok_0;
            &&& c.name@ == tileset_name@
            &&& mapping_ids_unique(c.mappings@)
            &&& maps_view(c.mappings@) == upsert_all(
                Seq::empty(),
                sheets_inserts(
                    sheets_of(cfg),
                    range_models(sheets_of(cfg), images@, c.tile_width, c.tile_height, sheets_of(cfg).len() as int),
                    sheets_of(cfg).len() as int,
                ),
            )
            &&& c.sprite_sheets@.len() == sheets_of(cfg).len()
            &&& forall|k: int|
                0 <= k < c.sprite_sheets@.len() ==> sheet_matches(
                    #[trigger] c.sprite_sheets@[k],
                    sheet_of(sheets_of(cfg)[k], c.tile_width, c.tile_height),
                )
        },
{
    let config = match parse_json(config_text) {
        Ok(c) => c,
        Err(e) => {
            return Err(concat("Failed to parse config: ", e.as_str()));
        },
    };
    let info = match config.get("tile_info") {
        Some(Json::Array(items)) => {
            proof {
                crate::json::lemma_array_view(Json::Array(*items));
            }
            if items.len() == 0 {
                return Err(owned("Missing tile_info"));
            }
            &items[0]
        },
        _ => {
            return Err(owned("Missing tile_info"));
        },
    };
    let tile_width = size_or_default(info, "width", 32) as u32;
    let tile_height = size_or_default(info, "height", 32) as u32;
    let mut sprite_sheets: Vec<SpriteSheet> = Vec::new();
    let mut ranges: Vec<SpriteSheetRange> = Vec::new();
    let mut mappings: Vec<TileMapping> = Vec::new();
    if let Some(Json::Array(sheets)) = config.get("tiles-new") {
        proof {
            crate::json::lemma_array_view(Json::Array(*sheets));
        }
        let ghost m = Json::Array(*sheets)@->Array_0;
        let mut offset: i32 = 0;
        let mut i: usize = 0;
        while i < sheets.len()
            invariant
                i <= sheets@.len(),
                m.len() == sheets@.len(),
                m == sheets_of(config@),
                forall|k: int| 0 <= k < sheets@.len() ==> #[trigger] m[k] == sheets@[k]@,
                sprite_sheets@.len() == i,
                forall|k: int|
                    0 <= k < i ==> sheet_matches(#[trigger] sprite_sheets@[k], sheet_of(m[k], tile_width, tile_height)),
                ranges_match(ranges@, range_models(m, images@, tile_width, tile_height, i as int)),
                offset == (if i == 0 {
                    0i32
                } else {
                    range_models(m, images@, tile_width, tile_height, i as int).last().2
                }),
                mappings@.len() == 0,
            decreases sheets.len() - i,
        {
            proof {
                lemma_range_models_len(m, images@, tile_width, tile_height, i as int);
            }
            let img = if i < images.len() {
                match images[i] {
                    Some(d) => d,
                    None => (0, 0),
                }
            } else {
                (0, 0)
            };
            assert(img == image_at(images@, i as int));
            let (sheet, range) = read_sheet(&sheets[i], tile_width, tile_height, img, offset);
            let ghost before = ranges@;
            offset = range.end_index;
            sprite_sheets.push(sheet);
            ranges.push(range);
            proof {
                let rm = range_models(m, images@, tile_width, tile_height, i + 1);
                lemma_range_models_len(m, images@, tile_width, tile_height, i + 1);
                assert(rm.last() == (range.file@, range.start_index, range.end_index));
                assert forall|k: int| 0 <= k < ranges@.len() implies (#[trigger] ranges@[k]).file@ == rm[k].0
                    && ranges@[k].start_index == rm[k].1 && ranges@[k].end_index == rm[k].2 by {
                    if k < i {
                        assert(ranges@[k] == before[k]);
                    }
                }
            }
            i += 1;
        }
        let ghost models = range_models(m, images@, tile_width, tile_height, m.len() as int);
        assert(mappings@.len() == 0);
        assert(maps_view(mappings@) =~= upsert_all(Seq::empty(), sheets_inserts(m, models, 0)));
        let ghost built = sprite_sheets@;
        let mut s: usize = 0;
        while s < sheets.len()
            invariant
                s <= sheets@.len(),
                m.len() == sheets@.len(),
                m == sheets_of(config@),
                forall|k: int| 0 <= k < sheets@.len() ==> #[trigger] m[k] == sheets@[k]@,
                models == range_models(m, images@, tile_width, tile_height, m.len() as int),
                ranges_match(ranges@, models),
                mapping_ids_unique(mappings@),
                sprite_sheets@ == built,
                maps_view(mappings@) == upsert_all(Seq::empty(), sheets_inserts(m, models, s as int)),
            decreases sheets.len() - s,
        {
            let ghost done = sheets_inserts(m, models, s as int);
            match sheets[s].get("tiles") {
                Some(Json::Array(tiles)) => {
                    proof {
                        crate::json::lemma_array_view(Json::Array(*tiles));
                    }
                    let ghost tm = Json::Array(*tiles)@->Array_0;
                    assert(tm == tiles_of(m[s as int]));
                    let mut t: usize = 0;
                    assert(done + tiles_inserts(tm, models, 0) =~= done);
                    while t < tiles.len()
                        invariant
                            t <= tiles@.len(),
                            tm.len() == tiles@.len(),
                            forall|k: int| 0 <= k < tiles@.len() ==> #[trigger] tm[k] == tiles@[k]@,
                            ranges_match(ranges@, models),
                            mapping_ids_unique(mappings@),
                            maps_view(mappings@) == upsert_all(Seq::empty(), done + tiles_inserts(tm, models, t as int)),
                        decreases tiles.len() - t,
                    {
                        let ghost before = maps_view(mappings@);
                        apply_tile(&tiles[t], &ranges, Ghost(models), &mut mappings);
                        proof {
                            lemma_upsert_all_append(
                                Seq::empty(),
                                done + tiles_inserts(tm, models, t as int),
                                tile_inserts(tm[t as int], models),
                            );
                            assert(done + tiles_inserts(tm, models, t + 1) =~= (done + tiles_inserts(tm, models, t as int))
                                + tile_inserts(tm[t as int], models));
                        }
                        t += 1;
                    }
                },
                _ => {
                    assert(tiles_of(m[s as int]).len() == 0);
                    assert(tiles_inserts(tiles_of(m[s as int]), models, 0) =~= Seq::<MapModel>::empty());
                    assert(done + tiles_inserts(tiles_of(m[s as int]), models, 0) =~= done);
                },
            }
            s += 1;
        }
    }
    Ok(TilesetConfig { name: owned(tileset_name), tile_width, tile_height, sprite_sheets, mappings })
}

/// The standard base64 text of some bytes, with padding.
pub uninterp spec fn base64_of(b: Seq<u8>) -> Seq<char>;

/// Relies on `base64::engine::general_purpose::STANDARD.encode`: the
/// standard alphabet with `=` padding, four characters for each three bytes
/// begun.
#[verifier::external_body]
fn base64_encode(bytes: &Vec<u8>) -> (r: String)
    requires
        4 * ((bytes@.len() + 2) / 3) <= usize::MAX,
    ensures
        r@ == base64_of(bytes@),
        r@.len() == 4 * ((bytes@.len() + 2) / 3),
{
    base64::Engine::encode(&base64::engine::general_purpose::STANDARD, bytes)
}

/// An image's bytes as base64 text, for display.
pub fn encode_tileset_image(bytes: &Vec<u8>) -> (r: String)
    requires
        4 * ((bytes@.len() + 2) / 3) <= usize::MAX,
    ensures
        r@ == base64_of(bytes@),
        r@.len() == 4 * ((bytes@.len() + 2) / 3),
{
    base64_encode(bytes)
}

} // verus!
