//! The symbol alphabet: which character stands for which tile, and which
//! character is written for a tile.

use std::collections::HashMap;
use vstd::prelude::*;
use vstd::std_specs::hash::group_hash_axioms;
use crate::constants::EMPTY_TILE;
use crate::text::{char_code, lemma_char_range};

verus! {

broadcast use group_hash_axioms;

/// Mathematical model of a symbol map: the tile that each character stands
/// for, and the character that is written for each tile.
pub ghost struct SymbolMapView {
    pub forward: Map<char, u32>,
    pub reverse: Map<u32, char>,
}

impl SymbolMapView {
    /// Whether every tile with a character to write reads back as itself.
    pub open spec fn consistent(self) -> bool {
        forall|tile: u32| #[trigger]
            self.reverse.contains_key(tile) ==> self.forward.contains_key(self.reverse[tile])
                && self.forward[self.reverse[tile]] == tile
    }
}

/// The tile that each character stands for, given the pairs in the order in
/// which they were listed: a later pair replaces an earlier one for the same
/// character.
pub open spec fn forward_of(pairs: Seq<(char, u32)>) -> Map<char, u32>
    decreases pairs.len(),
{
    if pairs.len() == 0 {
        Map::empty()
    } else {
        forward_of(pairs.drop_last()).insert(pairs.last().0, pairs.last().1)
    }
}

/// The character that is written for each tile, given the pairs in the order
/// in which they were listed and the tiles that the characters stand for: of
/// the characters that stand for a tile, the one listed first.
pub open spec fn reverse_of(pairs: Seq<(char, u32)>, forward: Map<char, u32>) -> Map<u32, char>
    decreases pairs.len(),
{
    if pairs.len() == 0 {
        Map::empty()
    } else {
        let rest = reverse_of(pairs.drop_last(), forward);
        let (symbol, tile) = pairs.last();
        if forward.contains_key(symbol) && forward[symbol] == tile && !rest.contains_key(tile) {
            rest.insert(tile, symbol)
        } else {
            rest
        }
    }
}

/// The model of the map made from `pairs`.
pub open spec fn symbol_map_of(pairs: Seq<(char, u32)>) -> SymbolMapView {
    SymbolMapView { forward: forward_of(pairs), reverse: reverse_of(pairs, forward_of(pairs)) }
}

/// The default alphabet, in the order in which it is listed.
pub open spec fn default_mappings() -> Seq<(char, u32)> {
    seq![
        ('.', 255u32),
        ('G', 180u32),
        ('S', 176u32),
        ('B', 184u32),
        ('R', 177u32),
        ('P', 181u32),
        ('W', 182u32),
        ('M', 183u32),
        ('F', 183u32),
        ('T', 185u32),
        ('C', 187u32),
        ('^', 188u32),
        ('~', 189u32),
        ('L', 190u32),
        ('#', 176u32),
        ('=', 181u32),
        ('|', 176u32),
        ('+', 184u32),
        ('*', 187u32),
    ]
}

/// The pairs of a custom alphabet: the empty tile's `'.'`, then `mappings`.
pub open spec fn custom_mappings(mappings: Seq<(char, u32)>) -> Seq<(char, u32)> {
    seq![('.', EMPTY_TILE)] + mappings
}

/// Every character that `reverse_of` writes for a tile stands for that tile.
pub proof fn lemma_reverse_of_consistent(pairs: Seq<(char, u32)>, forward: Map<char, u32>)
    ensures
        forall|tile: u32| #[trigger]
            reverse_of(pairs, forward).contains_key(tile) ==> forward.contains_key(
                reverse_of(pairs, forward)[tile],
            ) && forward[reverse_of(pairs, forward)[tile]] == tile,
    decreases pairs.len(),
{
    if pairs.len() > 0 {
        lemma_reverse_of_consistent(pairs.drop_last(), forward);
        let rest = reverse_of(pairs.drop_last(), forward);
        let whole = reverse_of(pairs, forward);
        assert forall|tile: u32| #[trigger] whole.contains_key(tile) implies forward.contains_key(
            whole[tile],
        ) && forward[whole[tile]] == tile by {
            if rest.contains_key(tile) {
                assert(whole[tile] == rest[tile]);
            }
        }
    }
}

/// Every tile that a listed character stands for has a character to write.
pub proof fn lemma_reverse_of_complete(pairs: Seq<(char, u32)>, symbol: char)
    requires
        forward_of(pairs).contains_key(symbol),
    ensures
        reverse_of(pairs, forward_of(pairs)).contains_key(forward_of(pairs)[symbol]),
{
    lemma_forward_of_listed(pairs, symbol);
    let i = choose|i: int| 0 <= i < pairs.len() && pairs[i] == (symbol, forward_of(pairs)[symbol]);
    lemma_reverse_of_covers(pairs, forward_of(pairs), i);
}

/// What a character stands for is one of its listed pairs.
proof fn lemma_forward_of_listed(pairs: Seq<(char, u32)>, symbol: char)
    requires
        forward_of(pairs).contains_key(symbol),
    ensures
        exists|i: int| 0 <= i < pairs.len() && pairs[i] == (symbol, forward_of(pairs)[symbol]),
    decreases pairs.len(),
{
    if pairs.len() > 0 {
        let n = pairs.len() - 1;
        if pairs.last().0 == symbol {
            assert(pairs[n] == (symbol, forward_of(pairs)[symbol]));
        } else {
            lemma_forward_of_listed(pairs.drop_last(), symbol);
            let i = choose|i: int|
                0 <= i < n && pairs.drop_last()[i] == (
                    symbol,
                    forward_of(pairs.drop_last())[symbol],
                );
            assert(pairs[i] == (symbol, forward_of(pairs)[symbol]));
        }
    }
}

/// A listed pair that is still in force gives its tile a character to write.
proof fn lemma_reverse_of_covers(pairs: Seq<(char, u32)>, forward: Map<char, u32>, i: int)
    requires
        0 <= i < pairs.len(),
        forward.contains_key(pairs[i].0),
        forward[pairs[i].0] == pairs[i].1,
    ensures
        reverse_of(pairs, forward).contains_key(pairs[i].1),
    decreases pairs.len(),
{
    if i < pairs.len() - 1 {
        lemma_reverse_of_covers(pairs.drop_last(), forward, i);
    }
}

/// The symbol alphabet. The keys of `symbols` are the characters' code
/// points.
#[derive(Debug, Clone)]
pub struct LevelSymbolMap {
    pub symbols: HashMap<u32, u32>,
    pub reverse_map: HashMap<u32, char>,
}

impl View for LevelSymbolMap {
    type V = SymbolMapView;

    open spec fn view(&self) -> SymbolMapView {
        SymbolMapView {
            forward: Map::new(
                |symbol: char| self.symbols@.contains_key(symbol as u32),
                |symbol: char| self.symbols@[symbol as u32],
            ),
            reverse: self.reverse_map@,
        }
    }
}

impl LevelSymbolMap {
    /// The map made from `pairs`, taken in order.
    fn from_pairs(pairs: &Vec<(char, u32)>) -> (map: LevelSymbolMap)
        ensures
            map@ == symbol_map_of(pairs@),
    {
        let mut symbols: HashMap<u32, u32> = HashMap::new();
        let mut i: usize = 0;
        while i < pairs.len()
            invariant
                i <= pairs@.len(),
                forall|symbol: char|
                    forward_of(pairs@.take(i as int)).contains_key(symbol) <==> #[trigger] symbols@.contains_key(
                        symbol as u32,
                    ),
                forall|symbol: char| #[trigger]
                    symbols@.contains_key(symbol as u32) ==> symbols@[symbol as u32] == forward_of(
                        pairs@.take(i as int),
                    )[symbol],
            decreases pairs@.len() - i,
        {
            let (symbol, tile) = pairs[i];
            let code = char_code(symbol);
            symbols.insert(code, tile);
            proof {
                lemma_char_range(symbol);
                assert(pairs@.take(i + 1).drop_last() =~= pairs@.take(i as int));
                assert(pairs@.take(i + 1).last() == (symbol, tile));
            }
            i = i + 1;
        }
        assert(pairs@.take(pairs@.len() as int) =~= pairs@);
        let ghost forward = forward_of(pairs@);
        let mut reverse_map: HashMap<u32, char> = HashMap::new();
        let mut k: usize = 0;
        while k < pairs.len()
            invariant
                k <= pairs@.len(),
                forward == forward_of(pairs@),
                forall|symbol: char|
                    forward.contains_key(symbol) <==> #[trigger] symbols@.contains_key(symbol as u32),
                forall|symbol: char| #[trigger]
                    symbols@.contains_key(symbol as u32) ==> symbols@[symbol as u32] == forward[symbol],
                reverse_map@ == reverse_of(pairs@.take(k as int), forward),
            decreases pairs@.len() - k,
        {
            let (symbol, tile) = pairs[k];
            let code = char_code(symbol);
            proof {
                lemma_char_range(symbol);
                assert(pairs@.take(k + 1).drop_last() =~= pairs@.take(k as int));
                assert(pairs@.take(k + 1).last() == (symbol, tile));
            }
            let live = match symbols.get(&code) {
                Some(found) => *found == tile,
                None => false,
            };
            proof {
                assert(symbols@.contains_key(symbol as u32) == forward.contains_key(symbol));
                assert(live == (forward.contains_key(symbol) && forward[symbol] == tile));
            }
            if live && !reverse_map.contains_key(&tile) {
                reverse_map.insert(tile, symbol);
            }
            k = k + 1;
        }
        let map = LevelSymbolMap { symbols, reverse_map };
        proof {
            assert(pairs@.take(pairs@.len() as int) =~= pairs@);
            assert forall|symbol: char| map@.forward.contains_key(symbol) == forward.contains_key(
                symbol,
            ) by {
                lemma_char_range(symbol);
                assert(map@.forward.contains_key(symbol) == symbols@.contains_key(symbol as u32));
            }
            assert forall|symbol: char| map@.forward.contains_key(symbol) implies map@.forward[symbol]
                == forward[symbol] by {
                lemma_char_range(symbol);
                assert(symbols@.contains_key(symbol as u32));
            }
            assert(map@.forward =~= forward);
        }
        map
    }

    /// The default alphabet: `'.'` for the empty tile, letters for terrain,
    /// platforms, decorations and hazards, and a few signs for structures.
    pub fn new() -> (map: LevelSymbolMap)
        ensures
            map@ == symbol_map_of(default_mappings()),
            map@.consistent(),
    {
        let pairs: Vec<(char, u32)> = vec![
            ('.', 255u32),
            ('G', 180u32),
            ('S', 176u32),
            ('B', 184u32),
            ('R', 177u32),
            ('P', 181u32),
            ('W', 182u32),
            ('M', 183u32),
            ('F', 183u32),
            ('T', 185u32),
            ('C', 187u32),
            ('^', 188u32),
            ('~', 189u32),
            ('L', 190u32),
            ('#', 176u32),
            ('=', 181u32),
            ('|', 176u32),
            ('+', 184u32),
            ('*', 187u32),
        ];
        assert(pairs@ =~= default_mappings());
        proof {
            lemma_reverse_of_consistent(pairs@, forward_of(pairs@));
        }
        LevelSymbolMap::from_pairs(&pairs)
    }

    /// An alphabet of the caller's own: `'.'` for the empty tile, then
    /// `mappings` in order, a later pair replacing an earlier one for the
    /// same character. Where several characters stand for one tile, the one
    /// listed first is written for it.
    pub fn custom(mappings: Vec<(char, u32)>) -> (map: LevelSymbolMap)
        ensures
            map@ == symbol_map_of(custom_mappings(mappings@)),
            map@.consistent(),
    {
        let mut pairs: Vec<(char, u32)> = Vec::new();
        pairs.push(('.', EMPTY_TILE));
        let mut i: usize = 0;
        while i < mappings.len()
            invariant
                i <= mappings@.len(),
                pairs@ == seq![('.', EMPTY_TILE)] + mappings@.take(i as int),
            decreases mappings@.len() - i,
        {
            pairs.push(mappings[i]);
            i = i + 1;
            assert(pairs@ =~= seq![('.', EMPTY_TILE)] + mappings@.take(i as int));
        }
        assert(mappings@.take(mappings@.len() as int) =~= mappings@);
        proof {
            lemma_reverse_of_consistent(pairs@, forward_of(pairs@));
        }
        LevelSymbolMap::from_pairs(&pairs)
    }

    /// The tile that `symbol` stands for, if it stands for one.
    pub fn get_tile(&self, symbol: char) -> (tile: Option<u32>)
        ensures
            tile == if self@.forward.contains_key(symbol) {
                Some(self@.forward[symbol])
            } else {
                None
            },
    {
        let code = char_code(symbol);
        match self.symbols.get(&code) {
            Some(tile) => Some(*tile),
            None => None,
        }
    }

    /// The character that is written for `tile_index`, if there is one.
    pub fn get_symbol(&self, tile_index: u32) -> (symbol: Option<char>)
        ensures
            symbol == if self@.reverse.contains_key(tile_index) {
                Some(self@.reverse[tile_index])
            } else {
                None
            },
    {
        match self.reverse_map.get(&tile_index) {
            Some(symbol) => Some(*symbol),
            None => None,
        }
    }

    /// Makes `symbol` stand for `tile_index`, and writes `symbol` for
    /// `tile_index` from now on. Nothing else changes: a tile for which
    /// `symbol` was written before keeps it.
    pub fn add_mapping(&mut self, symbol: char, tile_index: u32)
        ensures
            final(self)@.forward == old(self)@.forward.insert(symbol, tile_index),
            final(self)@.reverse == old(self)@.reverse.insert(tile_index, symbol),
    {
        let code = char_code(symbol);
        self.symbols.insert(code, tile_index);
        self.reverse_map.insert(tile_index, symbol);
        proof {
            let before = old(self)@.forward;
            let after = self@.forward;
            assert forall|other: char| after.contains_key(other) == before.insert(
                symbol,
                tile_index,
            ).contains_key(other) by {
                lemma_char_range(other);
                lemma_char_range(symbol);
                assert(after.contains_key(other) == self.symbols@.contains_key(other as u32));
                assert(before.contains_key(other) == old(self).symbols@.contains_key(other as u32));
            }
            assert forall|other: char| after.contains_key(other) implies after[other] == before.insert(
                symbol,
                tile_index,
            )[other] by {
                lemma_char_range(other);
                lemma_char_range(symbol);
                assert(before.contains_key(other) == old(self).symbols@.contains_key(other as u32));
            }
            assert(after =~= before.insert(symbol, tile_index));
        }
    }
}

impl Default for LevelSymbolMap {
    fn default() -> (map: LevelSymbolMap)
        ensures
            map@ == symbol_map_of(default_mappings()),
    {
        LevelSymbolMap::new()
    }
}

} // verus!
