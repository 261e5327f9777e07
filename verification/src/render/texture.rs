//! Texture atlas layout: where each named texture sits in the packed grid.

use vstd::hash_map::StringHashMap;
use vstd::prelude::*;

verus! {

/// The four corners of one texture inside the atlas, in tiles: `[column, row]`
/// counted from the top-left corner of the atlas.
#[derive(Debug, Copy, Clone)]
pub struct AtlasTexCoords {
    pub bl: [u32; 2],
    pub br: [u32; 2],
    pub tl: [u32; 2],
    pub tr: [u32; 2],
}

/// Name and file of a texture that is still to be loaded.
pub struct TextureLoadDescriptor {
    pub id: String,
    pub path: std::path::PathBuf,
}

/// Why an atlas lookup failed.
#[derive(Debug, Copy, Clone, PartialEq, Eq, Structural)]
pub enum AtlasError {
    /// No texture of that name was packed into the atlas.
    MissingTexture,
}

/// Width and height of one tile of the atlas image, in pixels.
pub const TILE_PIXELS: u32 = 16;

/// Whether `side` is the side of the smallest square grid with room for `num`
/// tiles.
pub open spec fn is_packing_side(num: nat, side: nat) -> bool {
    &&& side * side >= num
    &&& side > 0 ==> (side - 1) * (side - 1) < num
}

/// The grid, in tiles, into which `num` textures are packed: the smallest
/// square with room for all of them.
pub fn best_packing_size(num: usize) -> (size: (u32, u32))
    requires
        num <= 0xFFFF_FFFF * 0xFFFF_FFFF,
    ensures
        size.0 == size.1,
        is_packing_side(num as nat, size.0 as nat),
{
    let n: u64 = num as u64;
    let mut lo: u64 = 0;
    let mut hi: u64 = 0xFFFF_FFFF;
    while lo < hi
        invariant
            n == num,
            lo <= hi <= 0xFFFF_FFFF,
            hi * hi >= n,
            lo > 0 ==> (lo - 1) * (lo - 1) < n,
        decreases hi - lo,
    {
        let mid: u64 = lo + (hi - lo) / 2;
        assert(mid * mid <= 0xFFFF_FFFF * 0xFFFF_FFFF) by (nonlinear_arith)
            requires
                0 <= mid <= 0xFFFF_FFFF,
        ;
        if mid * mid >= n {
            hi = mid;
        } else {
            lo = mid + 1;
        }
    }
    (lo as u32, lo as u32)
}

/// The tile of the `i`-th texture in a grid `side` tiles high: columns fill
/// top to bottom, one after another.
pub open spec fn tile_of(i: int, side: int) -> (int, int) {
    (i / side, i % side)
}

/// The corners of the tile in column `x`, row `y`.
pub open spec fn tile_coords(x: int, y: int) -> AtlasTexCoords {
    AtlasTexCoords {
        tl: [x as u32, y as u32],
        tr: [(x + 1) as u32, y as u32],
        bl: [x as u32, (y + 1) as u32],
        br: [(x + 1) as u32, (y + 1) as u32],
    }
}

/// The lookup table after the first `n` of `names` have been placed in a grid
/// of the given side. A name placed twice is found at its later tile.
pub open spec fn atlas_table(names: Seq<Seq<char>>, side: int, n: nat) -> Map<
    Seq<char>,
    AtlasTexCoords,
>
    decreases n,
{
    if n == 0 {
        Map::empty()
    } else {
        let (x, y) = tile_of(n - 1, side);
        atlas_table(names, side, (n - 1) as nat).insert(names[n - 1], tile_coords(x, y))
    }
}

/// A name is in the table exactly when it is among the names placed.
pub proof fn lemma_atlas_table_domain(names: Seq<Seq<char>>, side: int, n: nat, name: Seq<char>)
    requires
        n <= names.len(),
    ensures
        atlas_table(names, side, n).contains_key(name) <==> exists|i: int|
            0 <= i < n && names[i] == name,
    decreases n,
{
    if n > 0 {
        lemma_atlas_table_domain(names, side, (n - 1) as nat, name);
        if names[n - 1] == name {
            assert(0 <= n - 1 < n && names[n - 1] == name);
        }
    }
}

/// A name is found at the tile of its last placement.
pub proof fn lemma_atlas_table_last(names: Seq<Seq<char>>, side: int, n: nat, i: int)
    requires
        0 <= i < n <= names.len(),
        forall|j: int| i < j < n ==> names[j] != names[i],
    ensures
        atlas_table(names, side, n).contains_key(names[i]),
        atlas_table(names, side, n)[names[i]] == tile_coords(
            tile_of(i, side).0,
            tile_of(i, side).1,
        ),
    decreases n,
{
    if i < n - 1 {
        lemma_atlas_table_last(names, side, (n - 1) as nat, i);
    }
}

/// Names of the textures packed into one atlas image, with the tile that each
/// occupies.
pub struct TextureAtlas {
    textures: Vec<String>,
    width: usize,
    height: usize,
    lookup_table: StringHashMap<AtlasTexCoords>,
}

impl View for TextureAtlas {
    type V = Map<Seq<char>, AtlasTexCoords>;

    closed spec fn view(&self) -> Map<Seq<char>, AtlasTexCoords> {
        self.lookup_table@
    }
}

/// The names of `textures` as sequences of characters.
pub open spec fn names_of(textures: Seq<String>) -> Seq<Seq<char>> {
    Seq::new(textures.len(), |i: int| textures[i]@)
}

impl TextureAtlas {
    #[verifier::type_invariant]
    spec fn laid_out(self) -> bool {
        &&& self.width == self.height
        &&& self.height <= u32::MAX
        &&& is_packing_side(self.textures@.len(), self.height as nat)
        &&& self.lookup_table@ == atlas_table(
            names_of(self.textures@),
            self.height as int,
            self.textures@.len(),
        )
    }

    /// Tiles per row of the atlas.
    pub closed spec fn spec_width(&self) -> nat {
        self.width as nat
    }

    /// Tiles per column of the atlas.
    pub closed spec fn spec_height(&self) -> nat {
        self.height as nat
    }

    /// The names packed into the atlas, in packing order.
    pub closed spec fn spec_names(&self) -> Seq<Seq<char>> {
        names_of(self.textures@)
    }

    /// Lays out `textures` in the smallest square grid that holds them all,
    /// column by column.
    pub fn new(textures: Vec<String>) -> (atlas: Self)
        requires
            textures@.len() <= 0xFFFF_FFFF * 0xFFFF_FFFF,
        ensures
            atlas.spec_names() == names_of(textures@),
            atlas.spec_width() == atlas.spec_height(),
            is_packing_side(textures@.len(), atlas.spec_width()),
            atlas@ == atlas_table(
                names_of(textures@),
                atlas.spec_height() as int,
                textures@.len(),
            ),
    {
        let (w, h) = best_packing_size(textures.len());
        let mut lookup_table: StringHashMap<AtlasTexCoords> = StringHashMap::new();
        let ghost names = names_of(textures@);
        let mut i: usize = 0;
        while i < textures.len()
            invariant
                i <= textures@.len(),
                w == h,
                is_packing_side(textures@.len(), h as nat),
                names == names_of(textures@),
                lookup_table@ == atlas_table(names, h as int, i as nat),
            decreases textures@.len() - i,
        {
            assert(h > 0 && (i as int) / (h as int) < h) by (nonlinear_arith)
                requires
                    i < h * h,
                    h >= 0,
            ;
            let x: u32 = (i / (h as usize)) as u32;
            let y: u32 = (i % (h as usize)) as u32;
            let coords = AtlasTexCoords {
                tl: [x, y],
                tr: [x + 1, y],
                bl: [x, y + 1],
                br: [x + 1, y + 1],
            };
            assert(coords == tile_coords(x as int, y as int));
            lookup_table.insert(textures[i].clone(), coords);
            i = i + 1;
        }
        TextureAtlas { textures, width: w as usize, height: h as usize, lookup_table }
    }

    /// The tile, as column and row, of the texture packed as the `index`-th.
    pub fn tile_of_index(&self, index: usize) -> (tile: (u32, u32))
        requires
            index < self.spec_names().len(),
        ensures
            (tile.0 as int, tile.1 as int) == tile_of(index as int, self.spec_height() as int),
            tile.0 < self.spec_height(),
            tile.1 < self.spec_height(),
    {
        proof {
            use_type_invariant(self);
        }
        let h = self.height;
        assert(h > 0 && (index as int) / (h as int) < h) by (nonlinear_arith)
            requires
                index < h * h,
                h >= 0,
        ;
        ((index / h) as u32, (index % h) as u32)
    }

    /// Number of textures packed.
    pub fn len(&self) -> (n: usize)
        ensures
            n == self.spec_names().len(),
    {
        self.textures.len()
    }

    /// Tiles per row and per column.
    pub fn size(&self) -> (size: (usize, usize))
        ensures
            size.0 == self.spec_width(),
            size.1 == self.spec_height(),
            size.0 == size.1,
            is_packing_side(self.spec_names().len(), size.0 as nat),
    {
        proof {
            use_type_invariant(self);
        }
        (self.width, self.height)
    }

    /// The corners of the texture packed under the name `id`, or
    /// `MissingTexture` where none was.
    pub fn coords_of(&self, id: &String) -> (r: Result<AtlasTexCoords, AtlasError>)
        ensures
            match r {
                Ok(coords) => self@.contains_key(id@) && coords == self@[id@],
                Err(e) => !self@.contains_key(id@) && e == AtlasError::MissingTexture,
            },
    {
        match self.lookup_table.get(id.as_str()) {
            Some(coords) => Ok(*coords),
            None => Err(AtlasError::MissingTexture),
        }
    }
}

} // verus!
