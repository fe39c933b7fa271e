//! The content-addressable tile store: tiles are generated on the first
//! request for their key and reused on every later one.

use vstd::prelude::*;
use vstd::arithmetic::power2::{pow2, lemma_pow2_pos, lemma_pow2_strictly_increases, lemma2_to64};
use vstd::arithmetic::div_mod::lemma_fundamental_div_mod;
use vstd::arithmetic::mul::{lemma_mul_inequality, lemma_mul_inequality_converse};
use crate::fixed::{Fix, SCALE, abs1};
use crate::space::{
    Point, TileSpace, ComplexSpace, SampleSpace, corner_ok, tile_index_of, tile_offset_of,
};
use crate::tile::{
    Tile, TileKey, GeneratorConfig, key_of, tile_value, gen_tile_ok, sample_cell,
};

verus! {

/// One stored tile together with the key that identifies its content.
pub struct CacheEntry {
    pub key: TileKey,
    pub tile: Tile,
}

/// A store of generated tiles keyed by content: append-only, no eviction,
/// growing for the life of the session; the store owns every tile it holds.
pub struct TileStorage {
    pub generator: GeneratorConfig,
    pub storage: Vec<CacheEntry>,
}

/// The tile address a key was generated for.
pub open spec fn tile_of_key(k: TileKey) -> TileSpace {
    TileSpace { index: Point { x: k.x, y: k.y }, zoom: k.zoom }
}

/// The pixel resolution a key was generated with.
pub open spec fn size_of_key(k: TileKey) -> Point<usize> {
    Point { x: k.width, y: k.height }
}

/// The data a key demands: exactly what generation with the key's own
/// parameters produces. A key pins its content completely, so any two
/// entries under equal keys hold equal data.
pub open spec fn key_data_ok(k: TileKey, data: Seq<u64>) -> bool {
    &&& data.len() == k.width * k.height
    &&& forall|x: int, y: int|
        0 <= x < k.width && 0 <= y < k.height ==> data[y * k.width + x] == #[trigger] tile_value(
            tile_of_key(k),
            size_of_key(k),
            k.max_iter,
            x,
            y,
        )
}

/// The tile covering a complex point at a zoom level.
pub open spec fn tile_at(location: ComplexSpace, zoom: usize) -> TileSpace {
    TileSpace {
        index: Point {
            x: tile_index_of(location.0.re.raw as int, zoom as nat) as i64,
            y: tile_index_of(location.0.im.raw as int, zoom as nat) as i64,
        },
        zoom,
    }
}

/// The escape count sampled for a complex point: a pure function of the
/// point, the zoom level and the generation parameters alone — the state of
/// the store never shows through.
pub open spec fn sample_spec(g: GeneratorConfig, location: ComplexSpace, zoom: usize) -> u64 {
    tile_value(
        tile_at(location, zoom),
        g.size,
        g.max_iter,
        sample_cell(tile_offset_of(location.0.re.raw as int, zoom as nat), g.size.x as int),
        sample_cell(tile_offset_of(location.0.im.raw as int, zoom as nat), g.size.y as int),
    )
}

/// A coordinate magnitude small enough to sample at any zoom up to 32.
pub open spec fn coord_in_range(raw: int) -> bool {
    abs1(raw) <= 0x1000_0000_0000_0000
}

/// A point and zoom level the store can sample without overflow.
pub open spec fn sample_args_ok(location: ComplexSpace, zoom: usize) -> bool {
    &&& zoom <= 32
    &&& coord_in_range(location.0.re.raw as int)
    &&& coord_in_range(location.0.im.raw as int)
}

impl TileStorage {
    /// Whether some entry holds the key.
    pub open spec fn has_key(self, k: TileKey) -> bool {
        exists|i: int| 0 <= i < self.storage@.len() && self.storage@[i as int].key == k
    }

    /// Well-formed store: sane generation parameters, every entry holding
    /// exactly the data its key demands, and no key stored twice.
    pub open spec fn wf(self) -> bool {
        &&& self.generator.size.x >= 1
        &&& self.generator.size.y >= 1
        &&& self.generator.size.x * self.generator.size.y <= usize::MAX
        &&& forall|i: int|
            0 <= i < self.storage@.len() ==> key_data_ok(
                #[trigger] self.storage@[i].key,
                self.storage@[i].tile.data@,
            )
        &&& forall|i: int, j: int|
            0 <= i < j < self.storage@.len() ==> self.storage@[i].key != self.storage@[j].key
    }

    /// An empty store for the given generation parameters.
    pub fn new(generator: GeneratorConfig) -> (s: TileStorage)
        requires
            generator.size.x >= 1,
            generator.size.y >= 1,
            generator.size.x * generator.size.y <= usize::MAX,
        ensures
            s.wf(),
            s.generator == generator,
            s.storage@.len() == 0,
    {
        TileStorage { generator, storage: Vec::new() }
    }

    /// How many tiles have been generated so far: the store is append-only
    /// and inserts exactly one entry per generation.
    pub fn len(&self) -> (n: usize)
        ensures
            n == self.storage@.len(),
    {
        self.storage.len()
    }

    /// The position of a key's entry, if the key is stored.
    fn find(&self, k: &TileKey) -> (r: Option<usize>)
        ensures
            match r {
                Some(i) => 0 <= i < self.storage@.len() && self.storage@[i as int].key == *k,
                None => !self.has_key(*k),
            },
    {
        let n = self.storage.len();
        let mut i: usize = 0;
        while i < n
            invariant
                i <= n == self.storage@.len(),
                forall|j: int| 0 <= j < i ==> self.storage@[j].key != *k,
            decreases n - i,
        {
            if self.storage[i].key == *k {
                return Some(i);
            }
            i = i + 1;
        }
        None
    }

    /// Returns the position of the tile for the given address, generating it
    /// only if no entry holds its key yet: a repeated request finds the key
    /// stored and leaves the store untouched — for a fixed parameter set,
    /// the tile's data is computed once, on the first request, and reused by
    /// every later one.
    pub fn get_or_generate(&mut self, tile: &TileSpace) -> (idx: usize)
        requires
            old(self).wf(),
            gen_tile_ok(*tile),
        ensures
            final(self).wf(),
            final(self).generator == old(self).generator,
            idx < final(self).storage@.len(),
            final(self).storage@[idx as int].key == key_of(
                old(self).generator.size,
                old(self).generator.max_iter,
                *tile,
            ),
            old(self).has_key(
                key_of(old(self).generator.size, old(self).generator.max_iter, *tile),
            ) ==> final(self).storage@ == old(self).storage@,
            !old(self).has_key(
                key_of(old(self).generator.size, old(self).generator.max_iter, *tile),
            ) ==> {
                &&& final(self).storage@.len() == old(self).storage@.len() + 1
                &&& idx == old(self).storage@.len()
                &&& forall|i: int|
                    0 <= i < old(self).storage@.len() ==> final(self).storage@[i]
                        == old(self).storage@[i]
            },
    {
        let hash = self.generator.hash(tile);
        match self.find(&hash) {
            Some(i) => i,
            None => {
                let generated = self.generator.generate(tile);
                let idx = self.storage.len();
                self.storage.push(CacheEntry { key: hash, tile: generated });
                proof {
                    assert(tile_of_key(hash) == *tile);
                    assert(size_of_key(hash) == self.generator.size);
                    assert forall|i: int|
                        0 <= i < self.storage@.len() implies key_data_ok(
                        #[trigger] self.storage@[i].key,
                        self.storage@[i].tile.data@,
                    ) by {
                        if i < self.storage@.len() - 1 {
                            assert(self.storage@[i] == old(self).storage@[i]);
                        }
                    }
                    assert forall|i: int, j: int|
                        0 <= i < j < self.storage@.len() implies self.storage@[i].key
                        != self.storage@[j].key by {
                        assert(self.storage@[i] == old(self).storage@[i]);
                        if j < self.storage@.len() - 1 {
                            assert(self.storage@[j] == old(self).storage@[j]);
                        } else {
                            assert(!old(self).has_key(hash));
                            assert(!(0 <= i < old(self).storage@.len()
                                && old(self).storage@[i].key == hash));
                        }
                    }
                }
                idx
            },
        }
    }

    /// The escape count for a complex point at a zoom level, fetching the
    /// owning tile from the store (generating it on a miss) and sampling it
    /// at the point's in-tile offset.
    pub fn sample(&mut self, location: ComplexSpace, zoom: usize) -> (r: u64)
        requires
            old(self).wf(),
            sample_args_ok(location, zoom),
        ensures
            final(self).wf(),
            final(self).generator == old(self).generator,
            r == sample_spec(old(self).generator, location, zoom),
            final(self).storage@.len() == old(self).storage@.len() || final(self).storage@.len()
                == old(self).storage@.len() + 1,
            old(self).has_key(
                key_of(old(self).generator.size, old(self).generator.max_iter, tile_at(location, zoom)),
            ) ==> final(self).storage@ == old(self).storage@,
    {
        proof {
            lemma_split_tile_ok(location.0.re.raw as int, zoom as nat);
            lemma_split_tile_ok(location.0.im.raw as int, zoom as nat);
        }
        let sample = SampleSpace::from_complex(&location, zoom);
        proof {
            assert(tile_at(location, zoom) == sample.tile);
        }
        let idx = self.get_or_generate(&sample.tile);
        let g = self.generator;
        let entry = &self.storage[idx];
        proof {
            let k = self.storage@[idx as int].key;
            assert(key_data_ok(k, entry.tile.data@));
            assert(k.width == g.size.x && k.height == g.size.y);
            crate::tile::lemma_cell_in_range(sample.coord.x.raw as int, g.size.x as int);
            crate::tile::lemma_cell_in_range(sample.coord.y.raw as int, g.size.y as int);
        }
        let r = g.sample(&entry.tile, &sample.coord);
        proof {
            let k = self.storage@[idx as int].key;
            let cx = sample_cell(sample.coord.x.raw as int, g.size.x as int);
            let cy = sample_cell(sample.coord.y.raw as int, g.size.y as int);
            assert(entry.tile.data@[cy * k.width + cx] == tile_value(
                tile_of_key(k),
                size_of_key(k),
                k.max_iter,
                cx,
                cy,
            ));
            assert(tile_of_key(k) == sample.tile);
            assert(size_of_key(k) == g.size);
        }
        r
    }
}

/// A coordinate within range splits at any zoom up to 32 into a tile index
/// whose whole tile is representable, so the tile can be generated.
proof fn lemma_split_tile_ok(raw: int, z: nat)
    requires
        z <= 32,
        coord_in_range(raw),
    ensures
        corner_ok(tile_index_of(raw, z), z),
        corner_ok(tile_index_of(raw, z) + 1, z),
        -0x4000_0000_0000_0000 <= tile_index_of(raw, z) <= 0x4000_0000_0000_0000,
        abs1(raw) * (pow2(z) as int) <= i64::MAX * (SCALE as int),
{
    let s = SCALE as int;
    let p = pow2(z) as int;
    let bound = 0x1000_0000_0000_0000int;
    lemma_pow2_pos(z);
    if z < 32 {
        lemma_pow2_strictly_increases(z, 32);
    }
    lemma2_to64();
    assert(1 <= p <= s);
    let q = tile_index_of(raw, z);
    lemma_fundamental_div_mod(raw * p, s);
    let r = (raw * p) % s;
    assert(raw * p == s * q + r && 0 <= r < s);
    assert(-(bound * p) <= raw * p <= bound * p) by (nonlinear_arith)
        requires
            -bound <= raw <= bound,
            p >= 1,
            bound > 0,
    ;
    assert(q * s == raw * p - r) by (nonlinear_arith)
        requires
            raw * p == s * q + r,
    ;
    assert(q * s <= bound * p);
    assert((-q) * s <= bound * p + s) by (nonlinear_arith)
        requires
            q * s >= -(bound * p) - s,
    ;
    // abs1(q) * s <= bound * p + s <= (bound + s) * p <= i64::MAX * p
    assert(bound * p + s <= (bound + s) * p && (bound + s) * p <= i64::MAX * p)
        by (nonlinear_arith)
        requires
            p >= 1,
            s == 0x1_0000_0000,
            bound == 0x1000_0000_0000_0000,
    ;
    assert(abs1(q) * s <= (bound + s) * p) by {
        if q >= 0 {
            assert(abs1(q) * s == q * s);
        } else {
            assert(abs1(q) * s == (-q) * s);
        }
    }
    // the two corners
    assert(corner_ok(q, z)) by {
        assert(abs1(q) * s <= i64::MAX * p);
    }
    assert(corner_ok(q + 1, z)) by {
        assert(abs1(q + 1) <= abs1(q) + 1);
        assert((abs1(q) + 1) * s == abs1(q) * s + s) by (nonlinear_arith);
        assert(abs1(q + 1) * s <= abs1(q) * s + s) by {
            lemma_mul_inequality(abs1(q + 1), abs1(q) + 1, s);
        }
        assert(abs1(q) * s + s <= (bound + 2 * s) * p) by (nonlinear_arith)
            requires
                abs1(q) * s <= (bound + s) * p,
                p >= 1,
                s > 0,
        ;
        assert((bound + 2 * s) * p <= i64::MAX * p) by {
            lemma_mul_inequality(bound + 2 * s, i64::MAX as int, p);
            assert((bound + 2 * s) * p == p * (bound + 2 * s) && i64::MAX * p == p * i64::MAX)
                by (nonlinear_arith);
        }
    }
    // |q| itself is small
    assert(abs1(q) * s <= (bound + s) * s) by {
        lemma_mul_inequality(p, s, bound + s);
        assert((bound + s) * p == p * (bound + s) && (bound + s) * s == s * (bound + s))
            by (nonlinear_arith);
    }
    assert(abs1(q) <= bound + s) by {
        lemma_mul_inequality_converse(abs1(q), bound + s, s);
    }
    // the from_complex bound
    assert(abs1(raw) * p <= bound * s) by (nonlinear_arith)
        requires
            abs1(raw) <= bound,
            1 <= p <= s,
            bound > 0,
    ;
    assert(bound * s <= i64::MAX * s) by {
        lemma_mul_inequality(bound, i64::MAX as int, s);
    }
}

} // verus!
