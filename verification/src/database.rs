//! The tile database: the candidate tiles, filed under their representative
//! colours.

use std::collections::HashMap;
use vstd::prelude::*;
use vstd::relations::injective_on;
use vstd::set_lib::lemma_map_size;
use crate::average::{average_of, mean_color};
use crate::codec::{decode, picture_of};
use crate::color::{lemma_of_rank, lemma_rank_injective, of_rank, MyColor};
use crate::raster::{Picture, Raster};

verus! {

/// A candidate tile as it comes in: where it was found, the extension of
/// its file's name (empty where the name has none), and the contents of its
/// file.
#[derive(Debug)]
pub struct TileFile {
    pub path: String,
    pub extension: String,
    pub bytes: Vec<u8>,
}

/// A candidate tile in the database: where it was found and its picture.
#[derive(Debug)]
pub struct Tile {
    pub path: String,
    pub image: Raster,
}

/// The mathematical model of a tile.
pub struct TileModel {
    pub path: Seq<char>,
    pub image: Picture,
}

impl View for Tile {
    type V = TileModel;

    open spec fn view(&self) -> TileModel {
        TileModel { path: self.path@, image: self.image@ }
    }
}

/// The models of a sequence of tiles, in the same order.
pub open spec fn tile_models(tiles: Seq<Tile>) -> Seq<TileModel> {
    Seq::new(tiles.len(), |j: int| tiles[j]@)
}

/// The mathematical model of a tile database: a map from each colour that
/// is the representative colour of some tile to the tiles that have it, in
/// the order in which they came in.
pub type Catalog = Map<MyColor, Seq<TileModel>>;

/// The catalog `m` with the tile `t` filed under the colour `c`, behind the
/// tiles that are already there.
pub open spec fn file_under(m: Catalog, c: MyColor, t: TileModel) -> Catalog {
    m.insert(
        c,
        if m.contains_key(c) {
            m[c].push(t)
        } else {
            seq![t]
        },
    )
}

/// The picture that a tile file holds, if it can be decoded.
pub open spec fn picture_in(file: TileFile) -> Option<Picture> {
    picture_of(file.extension@, file.bytes@)
}

/// The catalog of a sequence of tile files: each file whose contents can be
/// decoded is filed, in turn, under the representative colour of its
/// picture; the others are passed over.
pub open spec fn catalog(files: Seq<TileFile>) -> Catalog
    decreases files.len(),
{
    if files.len() == 0 {
        Map::empty()
    } else {
        let rest = catalog(files.drop_last());
        let file = files.last();
        match picture_in(file) {
            Some(p) => file_under(rest, mean_color(p), TileModel { path: file.path@, image: p }),
            None => rest,
        }
    }
}

/// What holds of every catalog of tile files: no colour is there without a
/// tile, every picture is well formed, and every tile stands under its own
/// representative colour.
pub open spec fn catalog_ok(m: Catalog) -> bool {
    forall|c: MyColor| #[trigger]
        m.contains_key(c) ==> {
            &&& m[c].len() > 0
            &&& forall|j: int|
                0 <= j < m[c].len() ==> (#[trigger] m[c][j]).image.wf() && mean_color(
                    m[c][j].image,
                ) == c
        }
}

/// Whether any of the files can be decoded.
pub open spec fn any_decodable(files: Seq<TileFile>) -> bool {
    exists|i: int| 0 <= i < files.len() && picture_in(#[trigger] files[i]) is Some
}

/// The catalog of a sequence of files is empty exactly when none of the
/// files can be decoded, and it is a catalog as `catalog_ok` describes it.
pub proof fn lemma_catalog(files: Seq<TileFile>)
    ensures
        catalog_ok(catalog(files)),
        catalog(files).dom().finite(),
        catalog(files).dom().is_empty() <==> !any_decodable(files),
    decreases files.len(),
{
    if files.len() > 0 {
        let init = files.drop_last();
        lemma_catalog(init);
        let file = files.last();
        match picture_in(file) {
            Some(p) => {
                let c = mean_color(p);
                assert(catalog(files).contains_key(c));
                assert(picture_in(files[files.len() - 1]) is Some);
            },
            None => {
                if any_decodable(files) {
                    let i = choose|i: int|
                        0 <= i < files.len() && picture_in(#[trigger] files[i]) is Some;
                    assert(init[i] == files[i]);
                }
                if any_decodable(init) {
                    let i = choose|i: int|
                        0 <= i < init.len() && picture_in(#[trigger] init[i]) is Some;
                    assert(init[i] == files[i]);
                }
            },
        }
    }
}

/// What holds of the tiles filed under the colour `c`: there is at least
/// one, every picture is well formed, and `c` is the representative colour
/// of each.
spec fn bucket_ok(tiles: Seq<Tile>, c: MyColor) -> bool {
    &&& tiles.len() > 0
    &&& forall|j: int|
        0 <= j < tiles.len() ==> (#[trigger] tiles[j]).image.wf() && mean_color(tiles[j].image@)
            == c
}

/// The tile database: every tile that could be decoded, filed under its
/// representative colour. It is built once and only read afterwards.
///
/// The tiles are held in a hash map whose key is the rank of the colour. No
/// colour is held without a tile.
#[derive(Debug)]
pub struct TileDb {
    buckets: HashMap<u32, Vec<Tile>>,
}

impl View for TileDb {
    type V = Catalog;

    closed spec fn view(&self) -> Catalog {
        Map::new(
            |c: MyColor| self.buckets@.contains_key(c.rank() as u32),
            |c: MyColor| tile_models(self.buckets@[c.rank() as u32]@),
        )
    }
}

impl TileDb {
    /// The hash map behind the database: the tiles of each colour under the
    /// rank of the colour.
    pub closed spec fn table(&self) -> Map<u32, Vec<Tile>> {
        self.buckets@
    }

    /// The number of colours in the database.
    pub open spec fn count(&self) -> nat {
        self.table().len()
    }

    /// What holds of the database at every moment, also while it is built.
    pub closed spec fn inv(&self) -> bool {
        forall|k: u32| #[trigger]
            self.buckets@.contains_key(k) ==> k <= 0xff_ffff && bucket_ok(
                self.buckets@[k]@,
                of_rank(k as int),
            )
    }

    /// A finished database holds at least one tile.
    pub open spec fn wf(&self) -> bool {
        self.inv() && self.count() > 0
    }

    /// How the hash map behind the database relates to the model: each key
    /// is the rank of a colour of the model, under which the same tiles
    /// stand, and each colour of the model has its rank for a key.
    pub proof fn lemma_table(&self)
        requires
            self.inv(),
        ensures
            self.table().dom().finite(),
            forall|k: u32| #[trigger]
                self.table().contains_key(k) ==> {
                    &&& k <= 0xff_ffff
                    &&& self@.contains_key(of_rank(k as int))
                    &&& self@[of_rank(k as int)] == tile_models(self.table()[k]@)
                },
            forall|c: MyColor| #[trigger]
                self@.contains_key(c) <==> self.table().contains_key(c.rank() as u32),
    {
        assert forall|k: u32| #[trigger] self.table().contains_key(k) implies k <= 0xff_ffff
            && self@.contains_key(of_rank(k as int)) && self@[of_rank(k as int)] == tile_models(
            self.table()[k]@,
        ) by {
            lemma_of_rank(of_rank(k as int), k as int);
        }
    }

    /// What holds of the model of a database, and how many colours it has.
    pub proof fn lemma_model(&self)
        requires
            self.inv(),
        ensures
            catalog_ok(self@),
            self@.dom().finite(),
            self@.dom().len() == self.count(),
    {
        self.lemma_table();
        assert forall|c: MyColor| #[trigger] self@.contains_key(c) implies self@[c].len() > 0
            && forall|j: int|
            0 <= j < self@[c].len() ==> (#[trigger] self@[c][j]).image.wf() && mean_color(
                self@[c][j].image,
            ) == c by {
            let k = c.rank() as u32;
            lemma_of_rank(c, 0);
            assert(self.buckets@.contains_key(k));
            let tiles = self.buckets@[k]@;
            assert(bucket_ok(tiles, c));
            assert forall|j: int| 0 <= j < self@[c].len() implies (#[trigger] self@[c][j]).image.wf()
                && mean_color(self@[c][j].image) == c by {
                assert(tiles[j].image.wf());
            }
        }
        let colour_of = |k: u32| of_rank(k as int);
        let keys = self.buckets@.dom();
        assert(injective_on(colour_of, keys)) by {
            assert forall|j: u32, k: u32|
                keys.contains(j) && keys.contains(k) && colour_of(j) == colour_of(k) implies j
                == k by {
                lemma_of_rank(of_rank(0), j as int);
                lemma_of_rank(of_rank(0), k as int);
            }
        }
        assert(keys.map(colour_of) =~= self@.dom()) by {
            assert forall|c: MyColor| self@.dom().contains(c) implies keys.map(colour_of).contains(
                c,
            ) by {
                lemma_of_rank(c, 0);
                assert(keys.contains(c.rank() as u32) && colour_of(c.rank() as u32) == c);
            }
            assert forall|c: MyColor| keys.map(colour_of).contains(c) implies self@.dom().contains(
                c,
            ) by {
                let k = choose|k: u32| keys.contains(k) && c == colour_of(k);
                lemma_of_rank(c, k as int);
            }
        }
        lemma_map_size(keys, self@.dom(), colour_of);
    }

    /// A database without tiles, to be filled with `add`.
    pub fn new() -> (db: TileDb)
        ensures
            db.inv(),
            db@ == Map::<MyColor, Seq<TileModel>>::empty(),
            db.count() == 0,
    {
        let db = TileDb { buckets: HashMap::new() };
        assert(db@ =~= Map::<MyColor, Seq<TileModel>>::empty());
        db
    }

    /// Whether the database holds no tile yet.
    pub fn is_empty(&self) -> (empty: bool)
        ensures
            empty == (self.count() == 0),
    {
        self.buckets.len() == 0
    }

    /// The number of colours in the database.
    pub fn len(&self) -> (n: usize)
        ensures
            n == self.count(),
    {
        self.buckets.len()
    }

    /// The hash map behind the database, to walk through its colours.
    pub fn as_table(&self) -> (table: &HashMap<u32, Vec<Tile>>)
        ensures
            table@ == self.table(),
    {
        &self.buckets
    }

    /// The tiles filed under `color`, if there are any.
    pub fn get(&self, color: &MyColor) -> (r: Option<&Vec<Tile>>)
        requires
            self.inv(),
        ensures
            match r {
                Some(tiles) => {
                    &&& self@.contains_key(*color)
                    &&& tile_models(tiles@) == self@[*color]
                    &&& tiles@.len() > 0
                    &&& forall|j: int| 0 <= j < tiles@.len() ==> (#[trigger] tiles@[j]).image.wf()
                },
                None => !self@.contains_key(*color),
            },
    {
        let key = color.key();
        let found = self.buckets.get(&key);
        proof {
            lemma_of_rank(*color, 0);
            if found is Some {
                assert(self.buckets@.contains_key(key));
                assert(bucket_ok(self.buckets@[key]@, *color));
            }
        }
        found
    }

    /// Files `tile` under its representative colour: behind the tiles that
    /// share the colour, or alone where it is the first of its colour.
    pub fn add(&mut self, tile: Tile)
        requires
            old(self).inv(),
            tile.image.wf(),
        ensures
            final(self).wf(),
            final(self)@ == file_under(old(self)@, mean_color(tile.image@), tile@),
    {
        let ghost before = *self;
        let ghost added = tile;
        let color = average_of(&tile.image);
        let key = color.key();
        let mut tiles = match self.buckets.remove(&key) {
            Some(tiles) => tiles,
            None => Vec::new(),
        };
        let ghost earlier = tiles@;
        tiles.push(tile);
        self.buckets.insert(key, tiles);
        proof {
            lemma_of_rank(color, 0);
            assert(self.buckets@ =~= before.buckets@.insert(key, tiles));
            if before.buckets@.contains_key(key) {
                assert(bucket_ok(before.buckets@[key]@, color));
                assert(earlier == before.buckets@[key]@);
            } else {
                assert(earlier =~= Seq::<Tile>::empty());
            }
            assert(bucket_ok(tiles@, color)) by {
                assert forall|j: int| 0 <= j < tiles@.len() implies (#[trigger] tiles@[j]).image.wf()
                    && mean_color(tiles@[j].image@) == color by {
                    if j < earlier.len() {
                        assert(tiles@[j] == earlier[j]);
                    }
                }
            }
            assert forall|k: u32| #[trigger] self.buckets@.contains_key(k) implies k <= 0xff_ffff
                && bucket_ok(self.buckets@[k]@, of_rank(k as int)) by {
                if k != key {
                    assert(before.buckets@.contains_key(k));
                }
            }
            assert forall|c: MyColor| self@.contains_key(c) implies #[trigger] self@[c]
                == file_under(before@, color, added@)[c] by {
                lemma_rank_injective(c, color);
                lemma_of_rank(c, 0);
                if c == color {
                    if before@.contains_key(color) {
                        assert(self@[c] =~= before@[c].push(added@));
                    } else {
                        assert(self@[c] =~= seq![added@]);
                    }
                } else {
                    assert(self@[c] =~= before@[c]);
                }
            }
            assert forall|c: MyColor| self@.contains_key(c) <==> file_under(
                before@,
                color,
                added@,
            ).contains_key(c) by {
                lemma_rank_injective(c, color);
                lemma_of_rank(c, 0);
            }
            assert(self@ =~= file_under(before@, color, added@));
            assert(self.buckets@.dom().contains(key));
            vstd::set::axiom_set_contains_len(self.buckets@.dom(), key);
        }
    }
}

/// Builds the tile database from the candidate tiles.
///
/// Each file that can be decoded is filed under the representative colour
/// of its picture; a file that cannot is passed over. Where no file at all
/// can be decoded there is nothing to build a mosaic with, and no database
/// is made.
pub fn create_db(files: &Vec<TileFile>) -> (r: Option<TileDb>)
    ensures
        r is Some <==> any_decodable(files@),
        r matches Some(db) ==> db.wf() && db@ == catalog(files@),
{
    let mut db = TileDb::new();
    assert(db@ =~= catalog(files@.take(0)));
    let mut i: usize = 0;
    while i < files.len()
        invariant
            i <= files.len(),
            db.inv(),
            db@ == catalog(files@.take(i as int)),
        decreases files.len() - i,
    {
        let file = &files[i];
        proof {
            assert(files@.take(i + 1).drop_last() =~= files@.take(i as int));
            assert(files@.take(i + 1).last() == files@[i as int]);
        }
        match decode(file.extension.as_str(), file.bytes.as_slice()) {
            Some(image) => {
                db.add(Tile { path: file.path.clone(), image });
            },
            None => {},
        }
        i += 1;
    }
    proof {
        assert(files@.take(i as int) =~= files@);
        lemma_catalog(files@);
        db.lemma_model();
        if db.count() == 0 {
            db@.dom().lemma_len0_is_empty();
        }
    }
    if db.is_empty() {
        None
    } else {
        Some(db)
    }
}

} // verus!
