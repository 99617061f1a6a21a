//! Maps of the Tiled editor: the map model, its conversion to levels, and
//! its checks. Tiled numbers tiles from one and writes zero for "no tile";
//! levels number tiles from zero and write 255.

use std::collections::HashMap;
use vstd::prelude::*;
use vstd::std_specs::hash::group_hash_axioms;
use vstd::string::StringExecFns;
use crate::constants::EMPTY_TILE;
use crate::error::LevelError;
use crate::level::{build_grid, LevelData, LevelView};
use crate::text::{decimal, push_decimal};

verus! {

broadcast use group_hash_axioms;

/// A JSON value of `serde_json`, carried along unread.
#[verifier::external_type_specification]
#[verifier::external_body]
pub struct ExJsonValue(serde_json::Value);

/// The error that `serde_json` reports for a text it cannot read.
#[verifier::external_type_specification]
#[verifier::external_body]
pub struct ExJsonError(serde_json::Error);

/// The error that reading or writing a file reports.
#[verifier::external_type_specification]
#[verifier::external_body]
pub struct ExIoError(std::io::Error);

/// A custom property of a map, a layer or a tileset.
#[derive(Debug)]
pub struct TiledProperty {
    pub name: String,
    pub property_type: String,
    pub value: serde_json::Value,
}

/// One layer of a map. `opacity_bits` holds the bits of the layer's opacity,
/// a 32-bit floating-point number.
#[derive(Debug)]
pub struct TiledLayer {
    pub name: String,
    pub layer_type: String,
    pub width: u32,
    pub height: u32,
    pub data: Vec<u32>,
    pub visible: bool,
    pub opacity_bits: u32,
    pub properties: Vec<TiledProperty>,
}

/// One tileset of a map.
#[derive(Debug)]
pub struct TiledTileset {
    pub firstgid: u32,
    pub name: String,
    pub tilewidth: u32,
    pub tileheight: u32,
    pub tilecount: u32,
    pub columns: u32,
    pub image: String,
    pub properties: Vec<TiledProperty>,
}

/// A map as Tiled exports it.
#[derive(Debug)]
pub struct TiledMap {
    pub width: u32,
    pub height: u32,
    pub tilewidth: u32,
    pub tileheight: u32,
    pub layers: Vec<TiledLayer>,
    pub tilesets: Vec<TiledTileset>,
    pub properties: Vec<TiledProperty>,
}

/// The name of an object layer of a map.
#[derive(Debug)]
pub struct TiledObjectLayer {
    pub name: String,
}

/// Why a Tiled map could not be loaded or used: the kind of error, and a
/// sentence that describes it.
#[derive(Debug)]
pub struct TiledLoadError {
    pub kind: LevelError,
    pub message: String,
}

// ---------------------------------------------------------------------------
// Errors
// ---------------------------------------------------------------------------

/// The text of `serde_json::Error`'s `Display`. Nothing is claimed of it.
#[verifier::external_body]
fn json_error_text(err: &serde_json::Error) -> (text: String) {
    err.to_string()
}

/// The text of `std::io::Error`'s `Display`. Nothing is claimed of it.
#[verifier::external_body]
fn io_error_text(err: &std::io::Error) -> (text: String) {
    err.to_string()
}

impl TiledLoadError {
    /// The sentence that a user is shown for this error.
    pub open spec fn display_text(&self) -> Seq<char> {
        "Tiled Load Error: "@ + self.message@
    }

    /// The sentence that a user is shown for this error.
    pub fn to_text(&self) -> (text: String)
        ensures
            text@ == self.display_text(),
    {
        let mut text = "Tiled Load Error: ".to_owned();
        text.append(self.message.as_str());
        text
    }

    /// The error with the given kind and message.
    fn with_message(kind: LevelError, message: &str) -> (error: TiledLoadError)
        ensures
            error.kind == kind,
            error.message@ == message@,
    {
        TiledLoadError { kind, message: message.to_owned() }
    }

    /// The error for a file that could not be read, with `detail` as what the
    /// system said.
    pub fn io_error(detail: &str) -> (error: TiledLoadError)
        ensures
            error.kind == LevelError::Io,
            error.message@ == "IO Error: "@ + detail@,
    {
        let mut message = "IO Error: ".to_owned();
        message.append(detail);
        TiledLoadError { kind: LevelError::Io, message }
    }

    /// The error for a text that is no Tiled map, with `detail` as what the
    /// JSON reader said.
    pub fn json_error(detail: &str) -> (error: TiledLoadError)
        ensures
            error.kind == LevelError::MalformedHeader,
            error.message@ == "JSON Parse Error: "@ + detail@,
    {
        let mut message = "JSON Parse Error: ".to_owned();
        message.append(detail);
        TiledLoadError { kind: LevelError::MalformedHeader, message }
    }

    /// The error for a file that could not be read.
    pub fn from_io_error(err: std::io::Error) -> (error: TiledLoadError)
        ensures
            error.kind == LevelError::Io,
            exists|detail: Seq<char>| error.message@ == "IO Error: "@ + detail,
    {
        let detail = io_error_text(&err);
        TiledLoadError::io_error(detail.as_str())
    }

    /// The error for a text that is no Tiled map.
    pub fn from_json_error(err: serde_json::Error) -> (error: TiledLoadError)
        ensures
            error.kind == LevelError::MalformedHeader,
            exists|detail: Seq<char>| error.message@ == "JSON Parse Error: "@ + detail,
    {
        let detail = json_error_text(&err);
        TiledLoadError::json_error(detail.as_str())
    }
}

// ---------------------------------------------------------------------------
// From a layer to a level
// ---------------------------------------------------------------------------

/// Whether a layer holds tiles.
pub open spec fn is_tile_layer(layer: TiledLayer) -> bool {
    layer.layer_type@ == "tilelayer"@
}

/// Whether a layer holds objects.
pub open spec fn is_object_layer(layer: TiledLayer) -> bool {
    layer.layer_type@ == "objectgroup"@
}

/// The level tile for the layer entry `raw`: zero is the empty tile, any
/// other entry is one more than the tile it names.
pub open spec fn shifted_tile(raw: u32) -> u32 {
    if raw == 0 {
        EMPTY_TILE
    } else {
        (raw - 1) as u32
    }
}

/// The level tile for the layer entry `raw` under a mapping of tile ids: the
/// shifted tile, replaced by what the mapping gives for it, if anything.
pub open spec fn mapped_tile(raw: u32, mapping: Map<u32, u32>) -> u32 {
    if raw == 0 {
        EMPTY_TILE
    } else if mapping.contains_key((raw - 1) as u32) {
        mapping[(raw - 1) as u32]
    } else {
        (raw - 1) as u32
    }
}

/// The level of the given size read from the entries `data`, taken row by
/// row; `tile_of` turns an entry into a level tile. A cell for which `data`
/// has no entry is empty.
pub open spec fn layer_level(data: Seq<u32>, width: nat, height: nat, tile_of: spec_fn(u32) -> u32) -> LevelView {
    LevelView {
        width,
        height,
        rows: Seq::new(
            height,
            |y: int|
                Seq::new(
                    width,
                    |x: int|
                        if y * width + x < data.len() {
                            tile_of(data[y * width + x])
                        } else {
                            EMPTY_TILE
                        },
                ),
        ),
    }
}

/// The position of the first tile layer, or the number of layers when none
/// holds tiles.
pub open spec fn first_tile_layer(layers: Seq<TiledLayer>) -> int
    decreases layers.len(),
{
    if layers.len() == 0 || is_tile_layer(layers[0]) {
        0
    } else {
        1 + first_tile_layer(layers.drop_first())
    }
}

/// Whether `a` and `b` are the same text.
fn same_text(a: &str, b: &str) -> (same: bool)
    ensures
        same == (a@ == b@),
{
    let x = a.to_owned();
    let y = b.to_owned();
    x == y
}

/// `first_tile_layer` finds exactly the first layer that holds tiles.
proof fn lemma_first_tile_layer(layers: Seq<TiledLayer>, k: int)
    requires
        0 <= k <= layers.len(),
        forall|i: int| 0 <= i < k ==> !is_tile_layer(#[trigger] layers[i]),
        k < layers.len() ==> is_tile_layer(layers[k]),
    ensures
        first_tile_layer(layers) == k,
    decreases k,
{
    if k > 0 {
        let rest = layers.drop_first();
        assert(!is_tile_layer(layers[0]));
        assert forall|i: int| 0 <= i < k - 1 implies !is_tile_layer(#[trigger] rest[i]) by {
            assert(rest[i] == layers[i + 1]);
        }
        lemma_first_tile_layer(rest, k - 1);
    }
}

/// The position of the first tile layer of `layers`, if there is one.
fn find_tile_layer(layers: &Vec<TiledLayer>) -> (found: Option<usize>)
    ensures
        match found {
            Some(k) => k < layers@.len() && first_tile_layer(layers@) == k,
            None => first_tile_layer(layers@) == layers@.len(),
        },
{
    let mut i: usize = 0;
    while i < layers.len()
        invariant
            i <= layers@.len(),
            forall|k: int| 0 <= k < i ==> !is_tile_layer(#[trigger] layers@[k]),
        decreases layers@.len() - i,
    {
        if same_text(layers[i].layer_type.as_str(), "tilelayer") {
            proof {
                lemma_first_tile_layer(layers@, i as int);
            }
            return Some(i);
        }
        i = i + 1;
    }
    proof {
        lemma_first_tile_layer(layers@, layers@.len() as int);
    }
    None
}

/// The level tile for the layer entry `raw`.
fn shift_tile(raw: u32) -> (tile: u32)
    ensures
        tile == shifted_tile(raw),
{
    if raw > 0 {
        raw - 1
    } else {
        EMPTY_TILE
    }
}

/// The level tile for the layer entry `raw` under `tile_mapping`.
fn map_tile(raw: u32, tile_mapping: &HashMap<u32, u32>) -> (tile: u32)
    ensures
        tile == mapped_tile(raw, tile_mapping@),
{
    if raw > 0 {
        let normalized: u32 = raw - 1;
        match tile_mapping.get(&normalized) {
            Some(mapped) => *mapped,
            None => normalized,
        }
    } else {
        EMPTY_TILE
    }
}

/// The level of the given size read from the entries `data` without any
/// mapping.
fn level_of_layer(data: &Vec<u32>, width: u32, height: u32) -> (level: LevelData)
    ensures
        level@ == layer_level(data@, width as nat, height as nat, |raw: u32| shifted_tile(raw)),
        level.well_formed(),
{
    let ghost cell_of = |x: int, y: int|
        if y * width + x < data@.len() {
            shifted_tile(data@[y * width + x])
        } else {
            EMPTY_TILE
        };
    let cell = |x: u32, y: u32| -> (tile: u32)
        ensures
            tile == cell_of(x as int, y as int),
        {
            assert(y * width <= 0xFFFF_FFFF * 0xFFFF_FFFF) by (nonlinear_arith)
                requires
                    y <= 0xFFFF_FFFF,
                    width <= 0xFFFF_FFFF,
            ;
            let index: u64 = y as u64 * width as u64 + x as u64;
            if index < data.len() as u64 {
                shift_tile(data[index as usize])
            } else {
                EMPTY_TILE
            }
        };
    let tiles = build_grid(width, height, cell, Ghost(cell_of));
    let level = LevelData { width, height, tiles };
    proof {
        let wanted = layer_level(data@, width as nat, height as nat, |raw: u32| shifted_tile(raw));
        assert forall|y: int| 0 <= y < height implies level@.rows[y] == wanted.rows[y] by {
            assert(level@.rows[y] == level.tiles@[y]@);
            assert(level@.rows[y] =~= wanted.rows[y]);
        }
        assert(level@.rows =~= wanted.rows);
    }
    level
}

/// The error for a map without a tile layer.
pub open spec fn no_tile_layer_text() -> Seq<char> {
    "No tile layer found in Tiled map"@
}

/// Converts a map to a level: the level has the map's size and the tiles of
/// the map's first tile layer, each entry shifted from Tiled's numbering to
/// the level's. A map without a tile layer is refused as `MissingData`.
pub fn tiled_map_to_level_data(tiled_map: &TiledMap) -> (level: Result<LevelData, TiledLoadError>)
    ensures
        level is Ok <==> first_tile_layer(tiled_map.layers@) < tiled_map.layers@.len(),
        level is Ok ==> level->Ok_0@ == layer_level(
            tiled_map.layers@[first_tile_layer(tiled_map.layers@)].data@,
            tiled_map.width as nat,
            tiled_map.height as nat,
            |raw: u32| shifted_tile(raw),
        ) && level->Ok_0.well_formed(),
        level is Err ==> level->Err_0.kind == LevelError::MissingData && level->Err_0.message@
            == no_tile_layer_text(),
{
    match find_tile_layer(&tiled_map.layers) {
        None => Err(
            TiledLoadError::with_message(LevelError::MissingData, "No tile layer found in Tiled map"),
        ),
        Some(k) => Ok(level_of_layer(&tiled_map.layers[k].data, tiled_map.width, tiled_map.height)),
    }
}

/// Converts a map to a level as `tiled_map_to_level_data` does, and then
/// replaces each tile that `tile_mapping` knows by what it maps to. The empty
/// tile is never replaced.
pub fn tiled_map_to_level_data_with_mapping(tiled_map: &TiledMap, tile_mapping: &HashMap<u32, u32>) -> (level:
    Result<LevelData, TiledLoadError>)
    ensures
        level is Ok <==> first_tile_layer(tiled_map.layers@) < tiled_map.layers@.len(),
        level is Ok ==> level->Ok_0@ == layer_level(
            tiled_map.layers@[first_tile_layer(tiled_map.layers@)].data@,
            tiled_map.width as nat,
            tiled_map.height as nat,
            |raw: u32| mapped_tile(raw, tile_mapping@),
        ) && level->Ok_0.well_formed(),
        level is Err ==> level->Err_0.kind == LevelError::MissingData && level->Err_0.message@
            == no_tile_layer_text(),
{
    match find_tile_layer(&tiled_map.layers) {
        None => Err(
            TiledLoadError::with_message(LevelError::MissingData, "No tile layer found in Tiled map"),
        ),
        Some(k) => {
            let data = &tiled_map.layers[k].data;
            let width = tiled_map.width;
            let height = tiled_map.height;
            let ghost cell_of = |x: int, y: int|
                if y * width + x < data@.len() {
                    mapped_tile(data@[y * width + x], tile_mapping@)
                } else {
                    EMPTY_TILE
                };
            let cell = |x: u32, y: u32| -> (tile: u32)
                ensures
                    tile == cell_of(x as int, y as int),
                {
                    assert(y * width <= 0xFFFF_FFFF * 0xFFFF_FFFF) by (nonlinear_arith)
                        requires
                            y <= 0xFFFF_FFFF,
                            width <= 0xFFFF_FFFF,
                    ;
                    let index: u64 = y as u64 * width as u64 + x as u64;
                    if index < data.len() as u64 {
                        map_tile(data[index as usize], tile_mapping)
                    } else {
                        EMPTY_TILE
                    }
                };
            let tiles = build_grid(width, height, cell, Ghost(cell_of));
            let level = LevelData { width, height, tiles };
            proof {
                let wanted = layer_level(
                    data@,
                    width as nat,
                    height as nat,
                    |raw: u32| mapped_tile(raw, tile_mapping@),
                );
                assert forall|y: int| 0 <= y < height implies level@.rows[y] == wanted.rows[y] by {
                    assert(level@.rows[y] == level.tiles@[y]@);
                    assert(level@.rows[y] =~= wanted.rows[y]);
                }
                assert(level@.rows =~= wanted.rows);
            }
            Ok(level)
        },
    }
}

/// The tile layers among `layers`, in order.
pub open spec fn tile_layers(layers: Seq<TiledLayer>) -> Seq<TiledLayer>
    decreases layers.len(),
{
    if layers.len() == 0 {
        Seq::empty()
    } else {
        let rest = tile_layers(layers.drop_last());
        if is_tile_layer(layers.last()) {
            rest.push(layers.last())
        } else {
            rest
        }
    }
}

/// A copy of `text`.
fn copy_text(text: &String) -> (copy: String)
    ensures
        copy@ == text@,
{
    text.as_str().to_owned()
}

/// Converts every tile layer of a map to a level of its own, in the order
/// of the layers: each with the layer's name, the layer's own size and the
/// layer's tiles, shifted from Tiled's numbering to the level's.
pub fn load_tiled_layers(tiled_map: &TiledMap) -> (loaded: Result<Vec<(String, LevelData)>, TiledLoadError>)
    ensures
        loaded is Ok,
        loaded->Ok_0@.len() == tile_layers(tiled_map.layers@).len(),
        forall|i: int|
            0 <= i < loaded->Ok_0@.len() ==> {
                let layer = tile_layers(tiled_map.layers@)[i];
                let entry = #[trigger] loaded->Ok_0@[i];
                &&& entry.0@ == layer.name@
                &&& entry.1.well_formed()
                &&& entry.1@ == layer_level(
                    layer.data@,
                    layer.width as nat,
                    layer.height as nat,
                    |raw: u32| shifted_tile(raw),
                )
            },
{
    let ghost all = tiled_map.layers@;
    let mut layers: Vec<(String, LevelData)> = Vec::new();
    let mut i: usize = 0;
    assert(all.take(0) =~= Seq::<TiledLayer>::empty());
    while i < tiled_map.layers.len()
        invariant
            i <= all.len(),
            all == tiled_map.layers@,
            layers@.len() == tile_layers(all.take(i as int)).len(),
            forall|k: int|
                0 <= k < layers@.len() ==> {
                    let layer = tile_layers(all.take(i as int))[k];
                    let entry = #[trigger] layers@[k];
                    &&& entry.0@ == layer.name@
                    &&& entry.1.well_formed()
                    &&& entry.1@ == layer_level(
                        layer.data@,
                        layer.width as nat,
                        layer.height as nat,
                        |raw: u32| shifted_tile(raw),
                    )
                },
        decreases all.len() - i,
    {
        let layer = &tiled_map.layers[i];
        proof {
            assert(all.take(i + 1).drop_last() =~= all.take(i as int));
            assert(all.take(i + 1).last() == *layer);
        }
        if same_text(layer.layer_type.as_str(), "tilelayer") {
            let level_data = level_of_layer(&layer.data, layer.width, layer.height);
            layers.push((copy_text(&layer.name), level_data));
        }
        i = i + 1;
    }
    assert(all.take(all.len() as int) =~= all);
    Ok(layers)
}

/// A mapping from the first eight tiles of a Tiled tileset to the usual
/// level tiles: grass, stone, brick, platform, wood, flower, tree, crystal.
pub open spec fn default_tile_mapping() -> Map<u32, u32> {
    Map::<u32, u32>::empty().insert(0, 180).insert(1, 176).insert(2, 184).insert(3, 181).insert(
        4,
        182,
    ).insert(5, 183).insert(6, 185).insert(7, 187)
}

/// A mapping from the first eight tiles of a Tiled tileset to the usual
/// level tiles.
pub fn create_tile_mapping() -> (mapping: HashMap<u32, u32>)
    ensures
        mapping@ == default_tile_mapping(),
{
    let mut mapping: HashMap<u32, u32> = HashMap::new();
    mapping.insert(0, 180);
    mapping.insert(1, 176);
    mapping.insert(2, 184);
    mapping.insert(3, 181);
    mapping.insert(4, 182);
    mapping.insert(5, 183);
    mapping.insert(6, 185);
    mapping.insert(7, 187);
    mapping
}

/// The names of the object layers among `layers`, in order.
pub open spec fn object_layer_names(layers: Seq<TiledLayer>) -> Seq<Seq<char>>
    decreases layers.len(),
{
    if layers.len() == 0 {
        Seq::empty()
    } else {
        let rest = object_layer_names(layers.drop_last());
        if is_object_layer(layers.last()) {
            rest.push(layers.last().name@)
        } else {
            rest
        }
    }
}

/// The object layers of a map, by name, in the order of the layers.
pub fn extract_object_layers(tiled_map: &TiledMap) -> (found: Vec<TiledObjectLayer>)
    ensures
        found@.map_values(|layer: TiledObjectLayer| layer.name@) == object_layer_names(
            tiled_map.layers@,
        ),
{
    let ghost all = tiled_map.layers@;
    let mut found: Vec<TiledObjectLayer> = Vec::new();
    let mut i: usize = 0;
    proof {
        assert(all.take(0) =~= Seq::<TiledLayer>::empty());
        assert(found@.map_values(|layer: TiledObjectLayer| layer.name@) =~= object_layer_names(
            all.take(0),
        ));
    }
    while i < tiled_map.layers.len()
        invariant
            i <= all.len(),
            all == tiled_map.layers@,
            found@.map_values(|layer: TiledObjectLayer| layer.name@) == object_layer_names(
                all.take(i as int),
            ),
        decreases all.len() - i,
    {
        let layer = &tiled_map.layers[i];
        let ghost before = found@.map_values(|layer: TiledObjectLayer| layer.name@);
        proof {
            assert(all.take(i + 1).drop_last() =~= all.take(i as int));
            assert(all.take(i + 1).last() == *layer);
        }
        if same_text(layer.layer_type.as_str(), "objectgroup") {
            let object_layer = TiledObjectLayer { name: copy_text(&layer.name) };
            proof {
                assert(found@.push(object_layer).map_values(|layer: TiledObjectLayer| layer.name@)
                    =~= before.push(object_layer.name@));
            }
            found.push(object_layer);
        }
        i = i + 1;
    }
    assert(all.take(all.len() as int) =~= all);
    found
}

// ---------------------------------------------------------------------------
// Checking a map
// ---------------------------------------------------------------------------

/// The sentence for a tile layer whose size is not the map's.
pub open spec fn wrong_size_text(name: Seq<char>) -> Seq<char> {
    "Layer '"@ + name + "' has inconsistent dimensions"@
}

/// The sentence for a tile layer whose number of entries is not its width
/// times its height.
pub open spec fn wrong_length_text(name: Seq<char>) -> Seq<char> {
    "Layer '"@ + name + "' has incorrect data length"@
}

/// The sentence for a map without a tile layer.
pub open spec fn needs_tile_layer_text() -> Seq<char> {
    "Map must contain at least one tile layer"@
}

/// What is wrong with one layer of a map, if anything: a tile layer must
/// have the map's width and height, and as many entries as it has cells.
/// `position` is the layer's place among the layers, from one.
pub open spec fn layer_problem(layer: TiledLayer, map_width: u32, map_height: u32, position: u64) -> Option<
    (LevelError, Seq<char>),
> {
    if !is_tile_layer(layer) {
        None
    } else if layer.width != map_width {
        Some(
            (
                LevelError::ShapeMismatch {
                    expected: map_width as u64,
                    got: layer.width as u64,
                    line: position,
                },
                wrong_size_text(layer.name@),
            ),
        )
    } else if layer.height != map_height {
        Some(
            (
                LevelError::ShapeMismatch {
                    expected: map_height as u64,
                    got: layer.height as u64,
                    line: position,
                },
                wrong_size_text(layer.name@),
            ),
        )
    } else if layer.data@.len() != layer.width * layer.height {
        Some(
            (
                LevelError::ShapeMismatch {
                    expected: (layer.width * layer.height) as u64,
                    got: layer.data@.len() as u64,
                    line: position,
                },
                wrong_length_text(layer.name@),
            ),
        )
    } else {
        None
    }
}

/// What is wrong with the first `count` layers of a map, taken in order.
pub open spec fn layers_problem(layers: Seq<TiledLayer>, count: nat, map_width: u32, map_height: u32) -> Option<
    (LevelError, Seq<char>),
>
    decreases count,
{
    if count == 0 {
        None
    } else {
        match layers_problem(layers, (count - 1) as nat, map_width, map_height) {
            Some(problem) => Some(problem),
            None => layer_problem(layers[count - 1], map_width, map_height, count as u64),
        }
    }
}

/// What is wrong with a map, if anything: it must hold a tile layer, and no
/// layer may have a problem.
pub open spec fn map_problem(tiled_map: TiledMap) -> Option<(LevelError, Seq<char>)> {
    if first_tile_layer(tiled_map.layers@) >= tiled_map.layers@.len() {
        Some((LevelError::MissingData, needs_tile_layer_text()))
    } else {
        layers_problem(tiled_map.layers@, tiled_map.layers@.len(), tiled_map.width, tiled_map.height)
    }
}

/// Once a layer has a problem, checking more layers reports the same one.
proof fn lemma_layers_problem_stays(layers: Seq<TiledLayer>, k: nat, n: nat, map_width: u32, map_height: u32)
    requires
        k <= n,
        layers_problem(layers, k, map_width, map_height) is Some,
    ensures
        layers_problem(layers, n, map_width, map_height) == layers_problem(
            layers,
            k,
            map_width,
            map_height,
        ),
    decreases n,
{
    if k < n {
        lemma_layers_problem_stays(layers, k, (n - 1) as nat, map_width, map_height);
    }
}

/// When the first `count` layers have no problem, none of them has one.
proof fn lemma_checked_layers(layers: Seq<TiledLayer>, count: nat, map_width: u32, map_height: u32, k: int)
    requires
        layers_problem(layers, count, map_width, map_height) is None,
        0 <= k < count,
    ensures
        layer_problem(layers[k], map_width, map_height, (k + 1) as u64) is None,
    decreases count,
{
    if k < count - 1 {
        lemma_checked_layers(layers, (count - 1) as nat, map_width, map_height, k);
    }
}

/// The first tile layer is a tile layer, when there is one.
proof fn lemma_first_tile_layer_holds_tiles(layers: Seq<TiledLayer>)
    ensures
        0 <= first_tile_layer(layers) <= layers.len(),
        first_tile_layer(layers) < layers.len() ==> is_tile_layer(layers[first_tile_layer(layers)]),
    decreases layers.len(),
{
    if layers.len() > 0 && !is_tile_layer(layers[0]) {
        lemma_first_tile_layer_holds_tiles(layers.drop_first());
    }
}

/// A map that passes the check is converted without loss: it has a tile
/// layer, and its first tile layer has the map's size and one entry for each
/// cell, so that no cell of the level is left without an entry.
pub proof fn lemma_checked_map_converts(tiled_map: TiledMap)
    requires
        map_problem(tiled_map) is None,
    ensures
        first_tile_layer(tiled_map.layers@) < tiled_map.layers@.len(),
        ({
            let layer = tiled_map.layers@[first_tile_layer(tiled_map.layers@)];
            &&& layer.width == tiled_map.width
            &&& layer.height == tiled_map.height
            &&& layer.data@.len() == tiled_map.width * tiled_map.height
        }),
{
    let layers = tiled_map.layers@;
    let k = first_tile_layer(layers);
    lemma_first_tile_layer_holds_tiles(layers);
    lemma_checked_layers(layers, layers.len(), tiled_map.width, tiled_map.height, k);
}

/// The error for a layer with the sentence `"Layer '<name>'" + ending`.
fn layer_error(kind: LevelError, name: &String, ending: &str) -> (error: TiledLoadError)
    ensures
        error.kind == kind,
        error.message@ == "Layer '"@ + name@ + ending@,
{
    let mut message = "Layer '".to_owned();
    message.append(name.as_str());
    message.append(ending);
    TiledLoadError { kind, message }
}

/// Checks one layer of a map.
fn check_layer(layer: &TiledLayer, map_width: u32, map_height: u32, position: u64) -> (checked: Result<
    (),
    TiledLoadError,
>)
    ensures
        match layer_problem(*layer, map_width, map_height, position) {
            None => checked is Ok,
            Some((kind, text)) => checked is Err && checked->Err_0.kind == kind
                && checked->Err_0.message@ == text,
        },
{
    if !same_text(layer.layer_type.as_str(), "tilelayer") {
        return Ok(());
    }
    if layer.width != map_width {
        return Err(
            layer_error(
                LevelError::ShapeMismatch {
                    expected: map_width as u64,
                    got: layer.width as u64,
                    line: position,
                },
                &layer.name,
                "' has inconsistent dimensions",
            ),
        );
    }
    if layer.height != map_height {
        return Err(
            layer_error(
                LevelError::ShapeMismatch {
                    expected: map_height as u64,
                    got: layer.height as u64,
                    line: position,
                },
                &layer.name,
                "' has inconsistent dimensions",
            ),
        );
    }
    assert(layer.width * layer.height <= 0xFFFF_FFFF * 0xFFFF_FFFF) by (nonlinear_arith)
        requires
            layer.width <= 0xFFFF_FFFF,
            layer.height <= 0xFFFF_FFFF,
    ;
    let expected: u64 = layer.width as u64 * layer.height as u64;
    if layer.data.len() as u64 != expected {
        return Err(
            layer_error(
                LevelError::ShapeMismatch { expected, got: layer.data.len() as u64, line: position },
                &layer.name,
                "' has incorrect data length",
            ),
        );
    }
    Ok(())
}

/// Checks a map before it is converted. It is accepted when it holds a tile
/// layer, and every tile layer has the map's width and height and as many
/// entries as it has cells. Otherwise the first problem is reported: a map
/// without a tile layer as `MissingData`, a layer of the wrong size or length
/// as `ShapeMismatch`, with the layer's place among the layers as its line.
pub fn validate_tiled_map(tiled_map: &TiledMap) -> (checked: Result<(), TiledLoadError>)
    ensures
        match map_problem(*tiled_map) {
            None => checked is Ok,
            Some((kind, text)) => checked is Err && checked->Err_0.kind == kind
                && checked->Err_0.message@ == text,
        },
{
    if find_tile_layer(&tiled_map.layers).is_none() {
        return Err(
            TiledLoadError::with_message(
                LevelError::MissingData,
                "Map must contain at least one tile layer",
            ),
        );
    }
    let ghost layers = tiled_map.layers@;
    let mut i: usize = 0;
    while i < tiled_map.layers.len()
        invariant
            i <= layers.len(),
            layers == tiled_map.layers@,
            first_tile_layer(layers) < layers.len(),
            layers_problem(layers, i as nat, tiled_map.width, tiled_map.height) is None,
        decreases layers.len() - i,
    {
        match check_layer(&tiled_map.layers[i], tiled_map.width, tiled_map.height, i as u64 + 1) {
            Ok(_) => {},
            Err(e) => {
                proof {
                    assert(layers_problem(layers, (i + 1) as nat, tiled_map.width, tiled_map.height)
                        == layer_problem(
                        layers[i as int],
                        tiled_map.width,
                        tiled_map.height,
                        (i + 1) as u64,
                    ));
                    lemma_layers_problem_stays(
                        layers,
                        (i + 1) as nat,
                        layers.len(),
                        tiled_map.width,
                        tiled_map.height,
                    );
                }
                return Err(e);
            },
        }
        i = i + 1;
    }
    Ok(())
}

// ---------------------------------------------------------------------------
// A map in words
// ---------------------------------------------------------------------------

/// The first lines of a map's description: its size, its tile size and how
/// many layers and tilesets it has.
pub open spec fn map_info_heading(tiled_map: TiledMap) -> Seq<char> {
    "Tiled Map Information:\n"@ + "  Size: "@ + decimal(tiled_map.width as nat) + "x"@ + decimal(
        tiled_map.height as nat,
    ) + "\n"@ + "  Tile Size: "@ + decimal(tiled_map.tilewidth as nat) + "x"@ + decimal(
        tiled_map.tileheight as nat,
    ) + "\n"@ + "  Layers: "@ + decimal(tiled_map.layers@.len()) + "\n"@ + "  Tilesets: "@ + decimal(
        tiled_map.tilesets@.len(),
    ) + "\n"@
}

/// The line that describes one layer; `number` is its place, from one.
pub open spec fn layer_info_line(layer: TiledLayer, number: nat) -> Seq<char> {
    "  "@ + decimal(number) + ": "@ + layer.name@ + " ("@ + decimal(layer.width as nat) + "x"@
        + decimal(layer.height as nat) + ") - "@ + layer.layer_type@ + "\n"@
}

/// The line that describes one tileset; `number` is its place, from one.
pub open spec fn tileset_info_line(tileset: TiledTileset, number: nat) -> Seq<char> {
    "  "@ + decimal(number) + ": "@ + tileset.name@ + " (GID: "@ + decimal(tileset.firstgid as nat)
        + ", Tiles: "@ + decimal(tileset.tilecount as nat) + ")\n"@
}

/// The lines that describe the first `count` layers.
pub open spec fn layer_info_lines(layers: Seq<TiledLayer>, count: nat) -> Seq<char>
    decreases count,
{
    if count == 0 {
        Seq::empty()
    } else {
        layer_info_lines(layers, (count - 1) as nat) + layer_info_line(layers[count - 1], count)
    }
}

/// The lines that describe the first `count` tilesets.
pub open spec fn tileset_info_lines(tilesets: Seq<TiledTileset>, count: nat) -> Seq<char>
    decreases count,
{
    if count == 0 {
        Seq::empty()
    } else {
        tileset_info_lines(tilesets, (count - 1) as nat) + tileset_info_line(
            tilesets[count - 1],
            count,
        )
    }
}

/// A map's description: the heading, then one line for each layer and one
/// for each tileset.
pub open spec fn map_info_text(tiled_map: TiledMap) -> Seq<char> {
    map_info_heading(tiled_map) + "\nLayers:\n"@ + layer_info_lines(
        tiled_map.layers@,
        tiled_map.layers@.len(),
    ) + "\nTilesets:\n"@ + tileset_info_lines(tiled_map.tilesets@, tiled_map.tilesets@.len())
}

/// Appends the line that describes one layer.
fn push_layer_info(info: &mut String, layer: &TiledLayer, number: u64)
    ensures
        final(info)@ == old(info)@ + layer_info_line(*layer, number as nat),
{
    let ghost start = info@;
    info.append("  ");
    push_decimal(info, number);
    info.append(": ");
    info.append(layer.name.as_str());
    info.append(" (");
    push_decimal(info, layer.width as u64);
    info.append("x");
    push_decimal(info, layer.height as u64);
    info.append(") - ");
    info.append(layer.layer_type.as_str());
    info.append("\n");
    assert(info@ =~= start + layer_info_line(*layer, number as nat));
}

/// Appends the line that describes one tileset.
fn push_tileset_info(info: &mut String, tileset: &TiledTileset, number: u64)
    ensures
        final(info)@ == old(info)@ + tileset_info_line(*tileset, number as nat),
{
    let ghost start = info@;
    info.append("  ");
    push_decimal(info, number);
    info.append(": ");
    info.append(tileset.name.as_str());
    info.append(" (GID: ");
    push_decimal(info, tileset.firstgid as u64);
    info.append(", Tiles: ");
    push_decimal(info, tileset.tilecount as u64);
    info.append(")\n");
    assert(info@ =~= start + tileset_info_line(*tileset, number as nat));
}

/// A description of a map in words: its size, its tile size, and its layers
/// and tilesets, each on a line of its own.
pub fn get_tiled_map_info(tiled_map: &TiledMap) -> (info: String)
    ensures
        info@ == map_info_text(*tiled_map),
{
    let mut info = "Tiled Map Information:\n".to_owned();
    info.append("  Size: ");
    push_decimal(&mut info, tiled_map.width as u64);
    info.append("x");
    push_decimal(&mut info, tiled_map.height as u64);
    info.append("\n");
    info.append("  Tile Size: ");
    push_decimal(&mut info, tiled_map.tilewidth as u64);
    info.append("x");
    push_decimal(&mut info, tiled_map.tileheight as u64);
    info.append("\n");
    info.append("  Layers: ");
    push_decimal(&mut info, tiled_map.layers.len() as u64);
    info.append("\n");
    info.append("  Tilesets: ");
    push_decimal(&mut info, tiled_map.tilesets.len() as u64);
    info.append("\n");
    assert(info@ =~= map_info_heading(*tiled_map));
    info.append("\nLayers:\n");
    let ghost before_layers = info@;
    let mut i: usize = 0;
    assert(info@ =~= before_layers + layer_info_lines(tiled_map.layers@, 0));
    while i < tiled_map.layers.len()
        invariant
            i <= tiled_map.layers@.len(),
            info@ == before_layers + layer_info_lines(tiled_map.layers@, i as nat),
        decreases tiled_map.layers@.len() - i,
    {
        push_layer_info(&mut info, &tiled_map.layers[i], i as u64 + 1);
        i = i + 1;
        assert(info@ =~= before_layers + layer_info_lines(tiled_map.layers@, i as nat));
    }
    info.append("\nTilesets:\n");
    let ghost before_tilesets = info@;
    let mut k: usize = 0;
    assert(info@ =~= before_tilesets + tileset_info_lines(tiled_map.tilesets@, 0));
    while k < tiled_map.tilesets.len()
        invariant
            k <= tiled_map.tilesets@.len(),
            info@ == before_tilesets + tileset_info_lines(tiled_map.tilesets@, k as nat),
        decreases tiled_map.tilesets@.len() - k,
    {
        push_tileset_info(&mut info, &tiled_map.tilesets[k], k as u64 + 1);
        k = k + 1;
        assert(info@ =~= before_tilesets + tileset_info_lines(tiled_map.tilesets@, k as nat));
    }
    assert(info@ =~= map_info_text(*tiled_map));
    info
}

// ---------------------------------------------------------------------------
// A sample map
// ---------------------------------------------------------------------------

/// The entries of the sample map's layer: a row of tile 1, a lone tile 2 in
/// the middle, a row of tile 2.
pub open spec fn sample_layer_data() -> Seq<u32> {
    seq![
        1u32, 1u32, 1u32, 1u32, 1u32,
        0u32, 0u32, 0u32, 0u32, 0u32,
        0u32, 0u32, 2u32, 0u32, 0u32,
        0u32, 0u32, 0u32, 0u32, 0u32,
        2u32, 2u32, 2u32, 2u32, 2u32,
    ]
}

/// A small map to try things on: five by five tiles of sixteen pixels, one
/// visible tile layer named "Ground" at full opacity, and one tileset.
pub fn create_sample_tiled_map() -> (sample: TiledMap)
    ensures
        sample.width == 5,
        sample.height == 5,
        sample.tilewidth == 16,
        sample.tileheight == 16,
        sample.properties@.len() == 0,
        sample.layers@.len() == 1,
        sample.layers@[0].name@ == "Ground"@,
        is_tile_layer(sample.layers@[0]),
        sample.layers@[0].width == 5,
        sample.layers@[0].height == 5,
        sample.layers@[0].data@ == sample_layer_data(),
        sample.layers@[0].visible,
        sample.layers@[0].opacity_bits == 0x3F80_0000,
        sample.layers@[0].properties@.len() == 0,
        sample.tilesets@.len() == 1,
        sample.tilesets@[0].firstgid == 1,
        sample.tilesets@[0].name@ == "Sample Tileset"@,
        sample.tilesets@[0].tilewidth == 16,
        sample.tilesets@[0].tileheight == 16,
        sample.tilesets@[0].tilecount == 256,
        sample.tilesets@[0].columns == 16,
        sample.tilesets@[0].image@ == "tileset.png"@,
        sample.tilesets@[0].properties@.len() == 0,
        map_problem(sample) is None,
{
    let sample_data: Vec<u32> = vec![
        1, 1, 1, 1, 1,
        0, 0, 0, 0, 0,
        0, 0, 2, 0, 0,
        0, 0, 0, 0, 0,
        2, 2, 2, 2, 2,
    ];
    assert(sample_data@ =~= sample_layer_data());
    let layer = TiledLayer {
        name: "Ground".to_owned(),
        layer_type: "tilelayer".to_owned(),
        width: 5,
        height: 5,
        data: sample_data,
        visible: true,
        opacity_bits: 0x3F80_0000,
        properties: Vec::new(),
    };
    let tileset = TiledTileset {
        firstgid: 1,
        name: "Sample Tileset".to_owned(),
        tilewidth: 16,
        tileheight: 16,
        tilecount: 256,
        columns: 16,
        image: "tileset.png".to_owned(),
        properties: Vec::new(),
    };
    let mut layers: Vec<TiledLayer> = Vec::new();
    layers.push(layer);
    let mut tilesets: Vec<TiledTileset> = Vec::new();
    tilesets.push(tileset);
    let sample = TiledMap {
        width: 5,
        height: 5,
        tilewidth: 16,
        tileheight: 16,
        layers,
        tilesets,
        properties: Vec::new(),
    };
    proof {
        lemma_first_tile_layer(sample.layers@, 0);
        assert(layers_problem(sample.layers@, 0, 5, 5) is None);
    }
    sample
}

// ---------------------------------------------------------------------------
// Tiled cells and world coordinates
// ---------------------------------------------------------------------------

/// The value `v`, brought into the range of an unsigned 32-bit number.
pub open spec fn saturated(v: int) -> u32 {
    if v < 0 {
        0
    } else if v > u32::MAX {
        u32::MAX
    } else {
        v as u32
    }
}

/// World coordinates of the origin of the Tiled cell `(tiled_x, tiled_y)`
/// for tiles of edge `tile_size`: x grows to the right, y shrinks downward.
pub fn tiled_to_world_coords(tiled_x: u32, tiled_y: u32, tile_size: u32) -> (world: (i64, i64))
    requires
        tile_size <= 0x7FFF_FFFF,
    ensures
        world.0 == tiled_x * tile_size,
        world.1 == -(tiled_y * tile_size),
{
    assert(tiled_x * tile_size <= 0xFFFF_FFFF * 0x7FFF_FFFF) by (nonlinear_arith)
        requires
            tiled_x <= 0xFFFF_FFFF,
            tile_size <= 0x7FFF_FFFF,
    ;
    assert(tiled_y * tile_size <= 0xFFFF_FFFF * 0x7FFF_FFFF) by (nonlinear_arith)
        requires
            tiled_y <= 0xFFFF_FFFF,
            tile_size <= 0x7FFF_FFFF,
    ;
    let world_x: i64 = tiled_x as i64 * tile_size as i64;
    let world_y: i64 = -(tiled_y as i64 * tile_size as i64);
    (world_x, world_y)
}

/// The Tiled cell that holds the world point `(world_x, world_y)` for tiles
/// of edge `tile_size`. Both quotients round toward minus infinity and are
/// then brought into the range of an unsigned 32-bit number: a point left
/// of or above the origin gives zero.
pub fn world_to_tiled_coords(world_x: i64, world_y: i64, tile_size: u32) -> (cell: (u32, u32))
    requires
        tile_size > 0,
    ensures
        cell.0 == saturated(world_x as int / tile_size as int),
        cell.1 == saturated((-(world_y as int)) / tile_size as int),
{
    let size: i64 = tile_size as i64;
    let tiled_x: u32 = if world_x < 0 {
        proof {
            lemma_negative_quotient(world_x as int, size as int);
        }
        0
    } else {
        let q: i64 = world_x / size;
        if q > u32::MAX as i64 {
            u32::MAX
        } else {
            q as u32
        }
    };
    let tiled_y: u32 = if world_y > 0 {
        proof {
            lemma_negative_quotient(-(world_y as int), size as int);
        }
        0
    } else {
        let below: i128 = -(world_y as i128);
        let q: i128 = below / (size as i128);
        if q > u32::MAX as i128 {
            u32::MAX
        } else {
            q as u32
        }
    };
    (tiled_x, tiled_y)
}

/// A negative number divided by a positive one, rounding toward minus
/// infinity, is negative.
proof fn lemma_negative_quotient(v: int, d: int)
    requires
        v < 0,
        d > 0,
    ensures
        v / d < 0,
{
    vstd::arithmetic::div_mod::lemma_fundamental_div_mod(v, d);
    vstd::arithmetic::div_mod::lemma_mod_bound(v, d);
    let q = v / d;
    let r = v % d;
    assert(q < 0) by (nonlinear_arith)
        requires
            v == d * q + r,
            0 <= r < d,
            v < 0,
            d > 0,
    ;
}

} // verus!
