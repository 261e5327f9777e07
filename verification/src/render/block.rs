//! Block types and the registry that assigns them compact ids.

use vstd::hash_map::StringHashMap;
use vstd::prelude::*;

verus! {

/// The authoritative definition of a block type.
pub struct BlockDescriptor {
    pub id: String,
    pub invisible: bool,
    pub transparent: bool,
    pub top_texture: Option<String>,
    pub bottom_texture: Option<String>,
    pub side_textures: [Option<String>; 4],
}

/// Mathematical content of a [`BlockDescriptor`]: every name as a sequence of
/// characters.
pub struct DescriptorModel {
    pub id: Seq<char>,
    pub invisible: bool,
    pub transparent: bool,
    pub top_texture: Option<Seq<char>>,
    pub bottom_texture: Option<Seq<char>>,
    pub side_textures: Seq<Option<Seq<char>>>,
}

/// The characters of an optional name.
pub open spec fn name_model(name: Option<String>) -> Option<Seq<char>> {
    match name {
        Some(s) => Some(s@),
        None => None,
    }
}

/// The characters of an optional borrowed name.
pub open spec fn str_model(name: Option<&str>) -> Option<Seq<char>> {
    match name {
        Some(s) => Some(s@),
        None => None,
    }
}

impl View for BlockDescriptor {
    type V = DescriptorModel;

    open spec fn view(&self) -> DescriptorModel {
        DescriptorModel {
            id: self.id@,
            invisible: self.invisible,
            transparent: self.transparent,
            top_texture: name_model(self.top_texture),
            bottom_texture: name_model(self.bottom_texture),
            side_textures: Seq::new(4, |i: int| name_model(self.side_textures@[i])),
        }
    }
}

fn owned_name(name: Option<&str>) -> (r: Option<String>)
    ensures
        name_model(r) == str_model(name),
{
    match name {
        Some(s) => Some(s.to_owned()),
        None => None,
    }
}

impl BlockDescriptor {
    /// Builds a descriptor from borrowed names. The four side textures face,
    /// in order, -Z, -X, +Z and +X.
    pub fn new(
        id: &str,
        invisible: bool,
        transparent: bool,
        top_texture: Option<&str>,
        bottom_texture: Option<&str>,
        side_textures: [Option<&str>; 4],
    ) -> (r: Self)
        ensures
            r@ == (DescriptorModel {
                id: id@,
                invisible,
                transparent,
                top_texture: str_model(top_texture),
                bottom_texture: str_model(bottom_texture),
                side_textures: Seq::new(4, |i: int| str_model(side_textures@[i])),
            }),
    {
        let r = Self {
            id: id.to_owned(),
            invisible,
            transparent,
            top_texture: owned_name(top_texture),
            bottom_texture: owned_name(bottom_texture),
            side_textures: [
                owned_name(side_textures[0]),
                owned_name(side_textures[1]),
                owned_name(side_textures[2]),
                owned_name(side_textures[3]),
            ],
        };
        assert(r@.side_textures =~= Seq::new(4, |i: int| str_model(side_textures@[i])));
        r
    }
}

/// A cell's lightweight value: the id of its descriptor and a copy of the
/// descriptor's two opacity flags.
#[derive(Copy, Clone, Debug, PartialEq, Eq, Structural)]
pub struct Block {
    pub desc_index: u32,
    pub invisible: bool,
    pub transparent: bool,
}

impl Block {
    /// The block of an empty cell, as a value of specifications.
    pub open spec fn spec_air() -> Block {
        Block { desc_index: 0, invisible: true, transparent: true }
    }

    /// The block of an empty cell: descriptor 0, invisible and transparent.
    #[verifier::when_used_as_spec(spec_air)]
    pub fn air() -> (b: Block)
        ensures
            b == Block::spec_air(),
    {
        Block { desc_index: 0, invisible: true, transparent: true }
    }

    /// Whether the block produces no geometry.
    pub fn is_empty(&self) -> (empty: bool)
        ensures
            empty == self.invisible,
    {
        self.invisible
    }

    /// Whether light cannot pass through the block.
    pub fn is_opaque(&self) -> (opaque: bool)
        ensures
            opaque == !self.transparent,
    {
        !self.transparent
    }

    /// The value by which a mesher decides whether two blocks may share a
    /// quad: the block itself.
    pub fn merge_value(&self) -> (value: Block)
        ensures
            value == *self,
    {
        *self
    }
}

/// Whether `block` is a copy of a registered descriptor: its id is
/// registered and its flags are those of the descriptor with that id.
pub open spec fn projects(descs: Seq<DescriptorModel>, block: Block) -> bool {
    &&& block.desc_index < descs.len()
    &&& block.invisible == descs[block.desc_index as int].invisible
    &&& block.transparent == descs[block.desc_index as int].transparent
}

/// The id that a lookup by `name` yields among `descs`, listed by id: the
/// position of the last descriptor registered under that name.
pub open spec fn last_named(descs: Seq<DescriptorModel>, name: Seq<char>) -> Option<int>
    decreases descs.len(),
{
    if descs.len() == 0 {
        None
    } else if descs.last().id == name {
        Some(descs.len() - 1)
    } else {
        last_named(descs.drop_last(), name)
    }
}

/// Whether a descriptor among `descs` has the name `name`.
pub open spec fn has_name(descs: Seq<DescriptorModel>, name: Seq<char>) -> bool {
    last_named(descs, name) is Some
}

/// The block value for the descriptor found under `name` among `descs`: its
/// id and a copy of its flags.
pub open spec fn block_named(descs: Seq<DescriptorModel>, name: Seq<char>) -> Block
    recommends
        has_name(descs, name),
{
    let id = last_named(descs, name).unwrap();
    Block {
        desc_index: id as u32,
        invisible: descs[id].invisible,
        transparent: descs[id].transparent,
    }
}

/// What `last_named` finds is the greatest position holding the name, and it
/// finds nothing exactly when no position holds it.
pub proof fn lemma_last_named(descs: Seq<DescriptorModel>, name: Seq<char>)
    ensures
        match last_named(descs, name) {
            Some(i) => {
                &&& 0 <= i < descs.len()
                &&& descs[i].id == name
                &&& forall|j: int| i < j < descs.len() ==> descs[j].id != name
            },
            None => forall|j: int| 0 <= j < descs.len() ==> descs[j].id != name,
        },
    decreases descs.len(),
{
    if descs.len() > 0 && descs.last().id != name {
        let rest = descs.drop_last();
        lemma_last_named(rest, name);
        assert forall|j: int| 0 <= j < rest.len() implies rest[j] == descs[j] by {}
        match last_named(rest, name) {
            Some(i) => {
                assert forall|j: int| i < j < descs.len() implies descs[j].id != name by {
                    if j < rest.len() {
                        assert(rest[j] == descs[j]);
                    }
                }
            },
            None => {
                assert forall|j: int| 0 <= j < descs.len() implies descs[j].id != name by {
                    if j < rest.len() {
                        assert(rest[j] == descs[j]);
                    }
                }
            },
        }
    }
}

/// Registering one more descriptor gives its name the next id and leaves the
/// id of every other name as it was.
pub proof fn lemma_last_named_push(descs: Seq<DescriptorModel>, d: DescriptorModel, name: Seq<char>)
    ensures
        last_named(descs.push(d), name) == if d.id == name {
            Some(descs.len() as int)
        } else {
            last_named(descs, name)
        },
{
    assert(descs.push(d).drop_last() =~= descs);
}

/// Where all names differ, each descriptor is found under its own position:
/// names and ids correspond one to one.
pub proof fn lemma_distinct_names_bijective(descs: Seq<DescriptorModel>, i: int)
    requires
        0 <= i < descs.len(),
        forall|a: int, b: int| 0 <= a < b < descs.len() ==> descs[a].id != descs[b].id,
    ensures
        last_named(descs, descs[i].id) == Some(i),
{
    lemma_last_named(descs, descs[i].id);
}

/// Table of block descriptors, found by name or by id. Ids are the positions
/// in order of registration, starting at 0.
pub struct BlockRegistry {
    keys: StringHashMap<u32>,
    blocks: Vec<BlockDescriptor>,
}

impl View for BlockRegistry {
    type V = Seq<DescriptorModel>;

    closed spec fn view(&self) -> Seq<DescriptorModel> {
        Seq::new(self.blocks@.len(), |i: int| self.blocks@[i]@)
    }
}

impl Default for BlockRegistry {
    fn default() -> (r: Self)
        ensures
            r.wf(),
            r@ == Seq::<DescriptorModel>::empty(),
    {
        let r = BlockRegistry { keys: StringHashMap::new(), blocks: Vec::new() };
        assert(r@ =~= Seq::<DescriptorModel>::empty());
        r
    }
}

impl BlockRegistry {
    /// The name index agrees with the descriptor list, and every id fits in
    /// 32 bits.
    pub closed spec fn wf(&self) -> bool {
        &&& self.blocks@.len() <= 0x1_0000_0000
        &&& forall|name: Seq<char>| #[trigger]
            self.keys@.contains_key(name) <==> last_named(self@, name) is Some
        &&& forall|name: Seq<char>| #[trigger]
            self.keys@.contains_key(name) ==> last_named(self@, name) == Some(
                self.keys@[name] as int,
            )
    }

    /// Whether a block was registered under `name`.
    pub open spec fn contains_name(&self, name: Seq<char>) -> bool {
        has_name(self@, name)
    }

    /// The id found under `name`.
    pub open spec fn id_of(&self, name: Seq<char>) -> int
        recommends
            self.contains_name(name),
    {
        last_named(self@, name).unwrap()
    }

    /// The block value for the descriptor found under `name`: its id and a
    /// copy of its flags.
    pub open spec fn spec_block(&self, name: Seq<char>) -> Block
        recommends
            self.contains_name(name),
    {
        block_named(self@, name)
    }

    /// Number of registered descriptors.
    pub fn len(&self) -> (n: usize)
        ensures
            n == self@.len(),
    {
        self.blocks.len()
    }

    /// Registers `block` under the next id: the number of descriptors
    /// registered before it. An earlier descriptor of the same name keeps its
    /// id but is no longer found by name.
    pub fn add_block(&mut self, block: BlockDescriptor)
        requires
            old(self).wf(),
            old(self)@.len() <= u32::MAX,
        ensures
            final(self).wf(),
            final(self)@ == old(self)@.push(block@),
            final(self).contains_name(block@.id),
            final(self).id_of(block@.id) == old(self)@.len(),
            forall|name: Seq<char>|
                name != block@.id ==> last_named(final(self)@, name) == last_named(
                    old(self)@,
                    name,
                ),
    {
        let ghost before = self@;
        let next: u32 = self.blocks.len() as u32;
        self.keys.insert(block.id.clone(), next);
        self.blocks.push(block);
        proof {
            assert(self@ =~= before.push(block@));
            assert forall|name: Seq<char>|
                last_named(self@, name) == if block@.id == name {
                    Some(before.len() as int)
                } else {
                    last_named(before, name)
                } by {
                lemma_last_named_push(before, block@, name);
            }
        }
    }

    /// The descriptor found under the name `id`.
    pub fn get_str(&self, id: &str) -> (desc: &BlockDescriptor)
        requires
            self.wf(),
            self.contains_name(id@),
        ensures
            desc@ == self@[self.id_of(id@)],
            desc@.id == id@,
    {
        proof {
            lemma_last_named(self@, id@);
        }
        let key = self.keys.get(id).unwrap();
        &self.blocks[*key as usize]
    }

    /// The descriptor with the id `id`.
    pub fn get_uint(&self, id: &u32) -> (desc: &BlockDescriptor)
        requires
            *id < self@.len(),
        ensures
            desc@ == self@[*id as int],
    {
        &self.blocks[*id as usize]
    }

    /// The block value stored in chunks for the descriptor found under the
    /// name `id`.
    pub fn block(&self, id: &str) -> (b: Block)
        requires
            self.wf(),
            self.contains_name(id@),
        ensures
            b == self.spec_block(id@),
            projects(self@, b),
    {
        proof {
            lemma_last_named(self@, id@);
        }
        let desc = self.get_str(id);
        Block {
            desc_index: *self.keys.get(id).unwrap(),
            invisible: desc.invisible,
            transparent: desc.transparent,
        }
    }

    /// Whether a block is registered under the name `id`.
    pub fn has_block(&self, id: &str) -> (found: bool)
        requires
            self.wf(),
        ensures
            found == self.contains_name(id@),
    {
        self.keys.contains_key(id)
    }
}

} // verus!
