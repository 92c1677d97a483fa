//! Wang sets: terrain brushes made of Wang tiles and colors.

use vstd::prelude::*;
use vstd::string::*;

use crate::error::{Error, ErrorView};
use crate::properties::{Color, Properties};
use crate::text::{fold_decimal_digits, parse_decimal, parse_u8};
use crate::tile::TileId;

verus! {

/// Wang set's terrain brush connection type.
#[derive(Debug, PartialEq, Eq, Clone, Copy, Structural)]
pub enum WangSetType {
    Corner,
    Edge,
    Mixed,
}

impl Default for WangSetType {
    fn default() -> (r: Self)
        ensures
            r == WangSetType::Mixed,
    {
        WangSetType::Mixed
    }
}

/// Stores the data of the Wang color.
#[derive(Debug, PartialEq, Clone)]
pub struct WangColor {
    /// The name of this color.
    pub name: String,
    pub color: Color,
    /// The tile ID of the tile representing this color.
    pub tile: Option<TileId>,
    /// The relative probability that this color is chosen over others in
    /// case of multiple options, as the bits of an `f32` (defaults to 0).
    pub probability: u32,
    /// The custom properties of this color.
    pub properties: Properties,
}

/// The Wang ID, stored as an array of 8 u8 values.
#[derive(Debug, PartialEq, Eq, Clone, Copy)]
pub struct WangId(pub [u8; 8]);

/// Stores the Wang ID.
#[derive(Debug, PartialEq, Eq, Clone, Copy)]
pub struct WangTile {
    pub wang_id: WangId,
}

/// The Wang tiles of a Wang set, by local tile ID.
#[verifier::external_body]
#[derive(Debug, PartialEq)]
pub struct WangTiles {
    map: hashbrown::HashMap<TileId, WangTile>,
}

/// The entries of a Wang tile map.
pub uninterp spec fn wang_tile_entries(m: WangTiles) -> Map<TileId, WangTile>;

/// Makes an empty map with `hashbrown::HashMap::new`, which holds no entries.
#[verifier::external_body]
fn wang_tiles_new() -> (r: WangTiles)
    ensures
        wang_tile_entries(r).dom().is_empty(),
{
    WangTiles { map: hashbrown::HashMap::new() }
}

/// Calls `hashbrown::HashMap::insert`, which maps `id` to `tile`, replacing
/// any tile that `id` had, and leaves every other entry as it was.
#[verifier::external_body]
fn wang_tiles_insert(m: &mut WangTiles, id: TileId, tile: WangTile)
    ensures
        final(m).entries() == old(m).entries().insert(id, tile),
{
    m.map.insert(id, tile);
}

/// Calls `hashbrown::HashMap::get`, which returns the tile mapped to `id`, if
/// there is one.
#[verifier::external_body]
fn wang_tiles_get<'a>(m: &'a WangTiles, id: TileId) -> (r: Option<&'a WangTile>)
    ensures
        match r {
            Some(t) => wang_tile_entries(*m).contains_key(id) && *t == wang_tile_entries(*m)[id],
            None => !wang_tile_entries(*m).contains_key(id),
        },
{
    m.map.get(&id)
}

/// Calls `hashbrown::HashMap::clone`, which clones every entry; Wang tiles
/// are copied as they are.
#[verifier::external_body]
fn wang_tiles_clone(m: &WangTiles) -> (r: WangTiles)
    ensures
        wang_tile_entries(r) == wang_tile_entries(*m),
{
    WangTiles { map: m.map.clone() }
}

impl Clone for WangTiles {
    /// A copy with the same entries.
    fn clone(&self) -> (r: WangTiles)
        ensures
            r.entries() == self.entries(),
    {
        wang_tiles_clone(self)
    }
}

impl WangTiles {
    /// The entries of this map.
    pub open spec fn entries(self) -> Map<TileId, WangTile> {
        wang_tile_entries(self)
    }

    /// An empty map.
    pub fn new() -> (r: WangTiles)
        ensures
            r.entries().dom().is_empty(),
    {
        wang_tiles_new()
    }

    /// Sets the Wang tile of the tile `id`.
    pub fn insert(&mut self, id: TileId, tile: WangTile)
        ensures
            final(self).entries() == old(self).entries().insert(id, tile),
    {
        wang_tiles_insert(self, id, tile)
    }

    /// The Wang tile of the tile `id`, if it has one.
    pub fn get(&self, id: TileId) -> (r: Option<&WangTile>)
        ensures
            match r {
                Some(t) => self.entries().contains_key(id) && *t == self.entries()[id],
                None => !self.entries().contains_key(id),
            },
    {
        wang_tiles_get(self, id)
    }
}

/// Raw data belonging to a WangSet.
#[derive(Debug, PartialEq, Clone)]
pub struct WangSet {
    /// The name of the Wang set.
    pub name: String,
    /// Type of Wang set.
    pub wang_set_type: WangSetType,
    /// The tile ID of the tile representing this Wang set.
    pub tile: Option<TileId>,
    /// The colors color that can be used to define the corner and/or edge of each Wang tile.
    pub wang_colors: Vec<WangColor>,
    ///  All the Wang tiles present in this Wang set, indexed by their local IDs.
    pub wang_tiles: WangTiles,
    /// The custom properties of this Wang set.
    pub properties: Properties,
}

/// `s` without the `[` characters that it starts with.
pub open spec fn trim_start_brackets(s: Seq<char>) -> Seq<char>
    decreases s.len(),
{
    if s.len() > 0 && s[0] == '[' {
        trim_start_brackets(s.drop_first())
    } else {
        s
    }
}

/// `s` without the `]` characters that it ends with.
pub open spec fn trim_end_brackets(s: Seq<char>) -> Seq<char>
    decreases s.len(),
{
    if s.len() > 0 && s.last() == ']' {
        trim_end_brackets(s.drop_last())
    } else {
        s
    }
}

/// The pieces of `s` between its commas, in order: one more than the number
/// of commas.
pub open spec fn split_commas(s: Seq<char>) -> Seq<Seq<char>>
    decreases s.len(),
{
    if s.len() == 0 {
        seq![Seq::<char>::empty()]
    } else {
        let rest = split_commas(s.drop_last());
        if s.last() == ',' {
            rest.push(Seq::<char>::empty())
        } else {
            rest.update(rest.len() - 1, rest.last().push(s.last()))
        }
    }
}

/// The value of one piece of a Wang ID: the piece read as a `u8`, or 0 if it
/// is none.
pub open spec fn wang_value(piece: Seq<char>) -> u8 {
    match parse_decimal(piece, false, 0, u8::MAX as int) {
        Ok(v) => v as u8,
        Err(_) => 0,
    }
}

/// The eight values that a Wang ID written as `[a,b,c,d,e,f,g,h]` holds:
/// leading `[` and trailing `]` are dropped, and the rest must split at its
/// commas into exactly eight pieces.
pub open spec fn wang_id_from_text(s: Seq<char>) -> Option<Seq<u8>> {
    let parts = split_commas(trim_end_brackets(trim_start_brackets(s)));
    if parts.len() == 8 {
        Some(Seq::new(8, |i: int| wang_value(parts[i])))
    } else {
        None
    }
}

proof fn lemma_split_commas_nonempty(s: Seq<char>)
    ensures
        split_commas(s).len() >= 1,
    decreases s.len(),
{
    if s.len() > 0 {
        lemma_split_commas_nonempty(s.drop_last());
    }
}

/// The decimal digit `d`.
pub open spec fn digit_char(d: int) -> char {
    ((d + 48) as u8) as char
}

/// The decimal digits of a byte, without leading zeros.
pub open spec fn decimal_text(n: u8) -> Seq<char> {
    if n < 10 {
        seq![digit_char(n as int)]
    } else if n < 100 {
        seq![digit_char(n as int / 10), digit_char(n as int % 10)]
    } else {
        seq![digit_char(n as int / 100), digit_char((n as int / 10) % 10), digit_char(n as int % 10)]
    }
}

/// The bytes of `w` written in decimal and joined by commas.
pub open spec fn joined_decimals(w: Seq<u8>) -> Seq<char>
    decreases w.len(),
{
    if w.len() == 0 {
        Seq::<char>::empty()
    } else if w.len() == 1 {
        decimal_text(w[0])
    } else {
        joined_decimals(w.drop_last()) + seq![','] + decimal_text(w.last())
    }
}

/// A Wang ID written as `[a,b,c,d,e,f,g,h]`, its values in decimal.
pub open spec fn wang_id_text(w: Seq<u8>) -> Seq<char> {
    seq!['['] + joined_decimals(w) + seq![']']
}

proof fn lemma_decimal_text(n: u8)
    ensures
        wang_value(decimal_text(n)) == n,
        forall|i: int| 0 <= i < decimal_text(n).len() ==> '0' <= #[trigger] decimal_text(n)[i] <= '9',
        decimal_text(n).len() >= 1,
{
    reveal_with_fuel(fold_decimal_digits, 4);
    let t = decimal_text(n);
    if n < 10 {
        assert(t.drop_first() =~= Seq::<char>::empty());
    } else if n < 100 {
        assert(t.drop_first() =~= seq![digit_char(n as int % 10)]);
        assert(t.drop_first().drop_first() =~= Seq::<char>::empty());
    } else {
        assert(t.drop_first() =~= seq![digit_char((n as int / 10) % 10), digit_char(n as int % 10)]);
        assert(t.drop_first().drop_first() =~= seq![digit_char(n as int % 10)]);
        assert(t.drop_first().drop_first().drop_first() =~= Seq::<char>::empty());
    }
}

proof fn lemma_split_without_commas(s: Seq<char>)
    requires
        forall|i: int| 0 <= i < s.len() ==> #[trigger] s[i] != ',',
    ensures
        split_commas(s) == seq![s],
    decreases s.len(),
{
    if s.len() > 0 {
        assert forall|i: int| 0 <= i < s.drop_last().len() implies #[trigger] s.drop_last()[i] != ',' by {
            assert(s.drop_last()[i] == s[i]);
        }
        lemma_split_without_commas(s.drop_last());
        assert(s.drop_last().push(s.last()) =~= s);
        assert(s[s.len() - 1] != ',');
        assert(seq![s.drop_last()].update(0, s.drop_last().push(s.last())) =~= seq![s]);
    } else {
        assert(s =~= Seq::<char>::empty());
    }
}

proof fn lemma_split_at_comma(x: Seq<char>, y: Seq<char>)
    ensures
        split_commas(x + seq![','] + y) == split_commas(x) + split_commas(y),
    decreases y.len(),
{
    lemma_split_commas_nonempty(y);
    if y.len() == 0 {
        assert(x + seq![','] + y =~= x + seq![',']);
        assert((x + seq![',']).drop_last() =~= x);
        assert(split_commas(x).push(Seq::<char>::empty()) =~= split_commas(x) + seq![Seq::<char>::empty()]);
    } else {
        let z = x + seq![','] + y;
        assert(z.drop_last() =~= x + seq![','] + y.drop_last());
        lemma_split_at_comma(x, y.drop_last());
        lemma_split_commas_nonempty(y.drop_last());
        let a = split_commas(x);
        let b = split_commas(y.drop_last());
        if y.last() == ',' {
            assert((a + b).push(Seq::<char>::empty()) =~= a + b.push(Seq::<char>::empty()));
        } else {
            assert((a + b).update((a + b).len() - 1, (a + b).last().push(y.last())) =~= a + b.update(
                b.len() - 1,
                b.last().push(y.last()),
            ));
        }
    }
}

proof fn lemma_split_joined(w: Seq<u8>)
    requires
        w.len() >= 1,
    ensures
        split_commas(joined_decimals(w)) == Seq::new(w.len(), |i: int| decimal_text(w[i])),
        joined_decimals(w).len() >= 1,
        '0' <= joined_decimals(w)[0] <= '9',
        '0' <= joined_decimals(w).last() <= '9',
    decreases w.len(),
{
    lemma_decimal_text(w.last());
    if w.len() == 1 {
        assert forall|i: int| 0 <= i < decimal_text(w[0]).len() implies #[trigger] decimal_text(w[0])[i] != ',' by {
            lemma_decimal_text(w[0]);
        }
        lemma_split_without_commas(decimal_text(w[0]));
        assert(seq![decimal_text(w[0])] =~= Seq::new(w.len(), |i: int| decimal_text(w[i])));
    } else {
        lemma_split_joined(w.drop_last());
        let x = joined_decimals(w.drop_last());
        let y = decimal_text(w.last());
        assert forall|i: int| 0 <= i < y.len() implies #[trigger] y[i] != ',' by {}
        lemma_split_without_commas(y);
        lemma_split_at_comma(x, y);
        assert(Seq::new((w.len() - 1) as nat, |i: int| decimal_text(w.drop_last()[i])) + seq![y] =~= Seq::new(
            w.len(),
            |i: int| decimal_text(w[i]),
        ));
        assert((x + seq![','] + y)[0] == x[0]);
        assert((x + seq![','] + y).last() == y.last());
    }
}

/// A Wang ID written as `[a,b,c,d,e,f,g,h]` with its values in decimal
/// reads back as those values.
pub proof fn lemma_wang_id_text_roundtrip(w: Seq<u8>)
    requires
        w.len() == 8,
    ensures
        wang_id_from_text(wang_id_text(w)) == Some(w),
{
    lemma_split_joined(w);
    let j = joined_decimals(w);
    let s = wang_id_text(w);
    assert(s.drop_first() =~= j + seq![']']);
    assert((j + seq![']'])[0] == j[0]);
    reveal_with_fuel(trim_start_brackets, 2);
    reveal_with_fuel(trim_end_brackets, 2);
    assert(trim_start_brackets(s) == j + seq![']']);
    assert((j + seq![']']).drop_last() =~= j);
    assert(trim_end_brackets(j + seq![']']) == j);
    let parts = split_commas(j);
    assert forall|i: int| 0 <= i < 8 implies wang_value(#[trigger] parts[i]) == w[i] by {
        lemma_decimal_text(w[i]);
    }
    assert(Seq::new(8, |i: int| wang_value(parts[i])) =~= w);
}

/// A Wang ID written as `[a,b,...]` with any number of decimal values other
/// than eight is refused.
pub proof fn lemma_wang_id_needs_eight_values(w: Seq<u8>)
    requires
        w.len() >= 1,
        w.len() != 8,
    ensures
        wang_id_from_text(wang_id_text(w)) is None,
{
    lemma_split_joined(w);
    let j = joined_decimals(w);
    let s = wang_id_text(w);
    assert(s.drop_first() =~= j + seq![']']);
    assert((j + seq![']'])[0] == j[0]);
    lemma_decimal_text(w[0]);
    reveal_with_fuel(trim_start_brackets, 2);
    reveal_with_fuel(trim_end_brackets, 2);
    assert(trim_start_brackets(s) == j + seq![']']);
    assert((j + seq![']']).drop_last() =~= j);
    assert(trim_end_brackets(j + seq![']']) == j);
}

/// The pieces of `s` that `ranges` and the last piece `[cur, k)` stand for.
pub open spec fn pieces_of(s: Seq<char>, ranges: Seq<(usize, usize)>, cur: int, k: int) -> Seq<Seq<char>> {
    Seq::new(ranges.len(), |i: int| s.subrange(ranges[i].0 as int, ranges[i].1 as int)).push(
        s.subrange(cur, k),
    )
}

impl WangId {
    /// Reads a Wang ID written as `[a,b,c,d,e,f,g,h]`; a piece that is no
    /// `u8` counts as 0.
    #[verifier::spinoff_prover]
    #[verifier::rlimit(40)]
    pub fn parse_text(s: &str) -> (r: Result<WangId, Error>)
        ensures
            match wang_id_from_text(s@) {
                Some(v) => r matches Ok(w) && w.0@ == v,
                None => r matches Err(e) && e@ == ErrorView::InvalidWangIdEncoding {
                    read_string: s@,
                },
            },
    {
        let n = s.unicode_len();
        let mut a: usize = 0;
        assert(s@.skip(0) =~= s@);
        while a < n && s.get_char(a) == '['
            invariant
                a <= n,
                n == s@.len(),
                trim_start_brackets(s@) == trim_start_brackets(s@.skip(a as int)),
            decreases n - a,
        {
            assert(s@.skip(a as int).drop_first() =~= s@.skip(a + 1));
            a = a + 1;
        }
        let ghost t = s@.skip(a as int);
        assert(trim_start_brackets(s@) == t);
        let mut b: usize = n;
        assert(t =~= s@.subrange(a as int, n as int));
        while b > a && s.get_char(b - 1) == ']'
            invariant
                a <= b <= n,
                n == s@.len(),
                trim_end_brackets(t) == trim_end_brackets(s@.subrange(a as int, b as int)),
            decreases b,
        {
            assert(s@.subrange(a as int, b as int).drop_last() =~= s@.subrange(a as int, b - 1));
            b = b - 1;
        }
        let ghost u = s@.subrange(a as int, b as int);
        assert(trim_end_brackets(t) == u);
        let mut ranges: Vec<(usize, usize)> = Vec::new();
        let mut cur: usize = a;
        let mut k: usize = a;
        assert(s@.subrange(a as int, a as int) =~= Seq::<char>::empty());
        assert(pieces_of(s@, ranges@, cur as int, k as int) =~= seq![Seq::<char>::empty()]);
        while k < b
            invariant
                a <= cur <= k <= b <= n,
                n == s@.len(),
                u == s@.subrange(a as int, b as int),
                forall|i: int| 0 <= i < ranges@.len() ==> a <= #[trigger] ranges@[i].0 <= ranges@[i].1 <= k,
                split_commas(s@.subrange(a as int, k as int)) == pieces_of(s@, ranges@, cur as int, k as int),
            decreases b - k,
        {
            let c = s.get_char(k);
            let ghost before = pieces_of(s@, ranges@, cur as int, k as int);
            assert(s@.subrange(a as int, k + 1).drop_last() =~= s@.subrange(a as int, k as int));
            assert(s@.subrange(a as int, k + 1).last() == c);
            if c == ',' {
                let ghost old_ranges = ranges@;
                let ghost old_cur = cur as int;
                let ghost old_k = k as int;
                ranges.push((cur, k));
                cur = k + 1;
                k = k + 1;
                let ghost after = pieces_of(s@, ranges@, cur as int, k as int);
                assert(s@.subrange(cur as int, k as int) =~= Seq::<char>::empty());
                assert forall|j: int| 0 <= j < after.len() implies after[j] == before.push(
                    Seq::<char>::empty(),
                )[j] by {
                    if j < old_ranges.len() {
                        assert(ranges@[j] == old_ranges[j]);
                    } else if j == old_ranges.len() {
                        assert(ranges@[j] == (old_cur as usize, old_k as usize));
                    }
                }
                assert(after =~= before.push(Seq::<char>::empty()));
            } else {
                k = k + 1;
                assert(s@.subrange(cur as int, k as int) =~= s@.subrange(cur as int, k - 1).push(c));
                assert(pieces_of(s@, ranges@, cur as int, k as int) =~= before.update(
                    before.len() - 1,
                    before.last().push(c),
                ));
            }
        }
        let ghost parts = pieces_of(s@, ranges@, cur as int, k as int);
        assert(split_commas(u) == parts);
        if ranges.len() != 7 {
            return Err(Error::InvalidWangIdEncoding { read_string: String::from_str(s) });
        }
        let mut values: Vec<u8> = Vec::new();
        let mut i: usize = 0;
        while i < 8
            invariant
                i <= 8,
                ranges@.len() == 7,
                parts == pieces_of(s@, ranges@, cur as int, k as int),
                a <= cur <= k <= n,
                n == s@.len(),
                forall|j: int| 0 <= j < ranges@.len() ==> a <= #[trigger] ranges@[j].0 <= ranges@[j].1 <= k,
                values@.len() == i,
                forall|j: int| 0 <= j < i ==> values@[j] == wang_value(#[trigger] parts[j]),
            decreases 8 - i,
        {
            let (from, to) = if i < 7 {
                ranges[i]
            } else {
                (cur, k)
            };
            let piece = s.substring_char(from, to);
            assert(piece@ == parts[i as int]);
            proof {
                crate::text::lemma_parse_decimal_in_range(piece@, false, 0, u8::MAX as int);
            }
            let v = match parse_u8(piece) {
                Ok(v) => v,
                Err(_) => 0,
            };
            values.push(v);
            i = i + 1;
        }
        let ret = [values[0], values[1], values[2], values[3], values[4], values[5], values[6], values[7]];
        assert(ret@ =~= Seq::new(8, |j: int| wang_value(parts[j])));
        Ok(WangId(ret))
    }
}

impl core::str::FromStr for WangId {
    type Err = Error;

    fn from_str(s: &str) -> (r: Result<WangId, Error>)
        ensures
            match wang_id_from_text(s@) {
                Some(v) => r matches Ok(w) && w.0@ == v,
                None => r matches Err(e) && e@ == ErrorView::InvalidWangIdEncoding {
                    read_string: s@,
                },
            },
    {
        WangId::parse_text(s)
    }
}

} // verus!
