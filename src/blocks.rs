use vstd::prelude::*;

verus! {

/// Number of block kinds, `Empty` included.
pub const BLOCK_KINDS: usize = 6;

/// Most block entries an atlas can hold: twelve UV corners each, and every
/// corner index must fit the 11-bit field of a packed vertex.
pub const MAX_ATLAS_BLOCKS: usize = 170;

/// Number of UV corners that each atlas entry owns: four for each of its three
/// textures (base, side, top).
pub const UVS_PER_BLOCK: usize = 12;

/// The content of one cell of the voxel grid.
#[derive(Clone, Copy, Debug, PartialEq, Eq, Structural, Hash)]
pub enum Block {
    Empty,
    Dirt,
    Stone,
    Sand,
    Water,
    Grass,
}

/// The block kind with integer tag `n` (0 to 5).
pub open spec fn block_of_tag(n: int) -> Block {
    if n == 0 {
        Block::Empty
    } else if n == 1 {
        Block::Dirt
    } else if n == 2 {
        Block::Stone
    } else if n == 3 {
        Block::Sand
    } else if n == 4 {
        Block::Water
    } else {
        Block::Grass
    }
}

impl Block {
    /// The integer tag of each kind; `Empty` is 0.
    pub open spec fn tag(self) -> int {
        match self {
            Block::Empty => 0,
            Block::Dirt => 1,
            Block::Stone => 2,
            Block::Sand => 3,
            Block::Water => 4,
            Block::Grass => 5,
        }
    }

    /// The block kind with tag `n`; a tag above 5 is a caller's error.
    pub fn from_u32(n: u32) -> (r: Block)
        requires
            n < 6,
        ensures
            r == block_of_tag(n as int),
            r.tag() == n,
    {
        if n == 0 {
            Block::Empty
        } else if n == 1 {
            Block::Dirt
        } else if n == 2 {
            Block::Stone
        } else if n == 3 {
            Block::Sand
        } else if n == 4 {
            Block::Water
        } else {
            Block::Grass
        }
    }

    /// The integer tag of this kind.
    pub fn tag_of(self) -> (r: u16)
        ensures
            r == self.tag(),
    {
        match self {
            Block::Empty => 0,
            Block::Dirt => 1,
            Block::Stone => 2,
            Block::Sand => 3,
            Block::Water => 4,
            Block::Grass => 5,
        }
    }

    pub fn is_empty(self) -> (r: bool)
        ensures
            r == (self == Block::Empty),
    {
        match self {
            Block::Empty => true,
            _ => false,
        }
    }
}

/// Which face class of a block a texture is for.
#[derive(Clone, Copy, Debug, PartialEq, Eq, Structural)]
pub enum Side {
    Base,
    Top,
    Side,
}

impl Side {
    /// Offset of this face class's four corners inside an atlas entry.
    pub open spec fn uv_offset(self) -> int {
        match self {
            Side::Base => 0,
            Side::Side => 4,
            Side::Top => 8,
        }
    }
}

/// The textures of one block kind, as indices into the atlas's texture list.
pub struct UvBlock {
    pub name: String,
    /// Texture used for the bottom face, and for the others when they have none.
    pub base: usize,
    pub top: Option<usize>,
    pub side: Option<usize>,
    /// First of this entry's UV corner indices.
    pub index: usize,
}

impl UvBlock {
    /// The textures of the entry's three face classes, in the order in which
    /// their corners are laid out: base, side, top.
    pub open spec fn texture_order(self) -> Seq<usize> {
        seq![
            self.base,
            match self.side {
                Some(s) => s,
                None => self.base,
            },
            match self.top {
                Some(t) => t,
                None => self.base,
            },
        ]
    }

    pub fn textures(&self) -> (r: [usize; 3])
        ensures
            r@ == self.texture_order(),
    {
        let side = match self.side {
            Some(s) => s,
            None => self.base,
        };
        let top = match self.top {
            Some(t) => t,
            None => self.base,
        };
        let r = [self.base, side, top];
        assert(r@ =~= self.texture_order());
        r
    }
}

/// The UV layout of the texture atlas: one entry per block kind, entry `i`
/// owning the twelve UV corners from `12 * i` on.
pub struct Atlas {
    blocks: Vec<UvBlock>,
}

impl Atlas {
    /// The entries, in block-tag order.
    pub closed spec fn entries(&self) -> Seq<UvBlock> {
        self.blocks@
    }

    /// Entry `i` starts at corner `12 * i`, and every corner index fits in 11 bits.
    pub open spec fn wf(&self) -> bool {
        &&& self.entries().len() <= MAX_ATLAS_BLOCKS
        &&& forall|i: int|
            0 <= i < self.entries().len() ==> #[trigger] self.entries()[i].index == UVS_PER_BLOCK
                * i
    }

    /// Lays the entries out one after another, twelve corners each.
    pub fn new(blocks: Vec<UvBlock>) -> (r: Atlas)
        requires
            blocks.len() <= MAX_ATLAS_BLOCKS,
        ensures
            r.wf(),
            r.entries().len() == blocks.len(),
            forall|i: int|
                0 <= i < blocks.len() ==> {
                    &&& (#[trigger] r.entries()[i]).name == blocks[i].name
                    &&& r.entries()[i].base == blocks[i].base
                    &&& r.entries()[i].top == blocks[i].top
                    &&& r.entries()[i].side == blocks[i].side
                },
    {
        let mut blocks = blocks;
        let ghost orig = blocks@;
        let mut i: usize = 0;
        while i < blocks.len()
            invariant
                blocks.len() == orig.len(),
                orig.len() <= MAX_ATLAS_BLOCKS,
                i <= blocks.len(),
                forall|j: int|
                    0 <= j < blocks.len() ==> {
                        &&& (#[trigger] blocks@[j]).name == orig[j].name
                        &&& blocks@[j].base == orig[j].base
                        &&& blocks@[j].top == orig[j].top
                        &&& blocks@[j].side == orig[j].side
                    },
                forall|j: int| 0 <= j < i ==> #[trigger] blocks@[j].index == UVS_PER_BLOCK * j,
            decreases blocks.len() - i,
        {
            blocks[i].index = UVS_PER_BLOCK * i;
            i = i + 1;
        }
        Atlas { blocks }
    }

    /// The entries, in block-tag order.
    pub fn blocks(&self) -> (r: &Vec<UvBlock>)
        ensures
            r@ == self.entries(),
    {
        &self.blocks
    }

    /// The four UV corner indices of face class `side` of entry `block`.
    pub fn uvs_of_block_index(&self, block: usize, side: Side) -> (r: [u16; 4])
        requires
            self.wf(),
            block < self.entries().len(),
        ensures
            forall|k: int|
                0 <= k < 4 ==> r@[k] == UVS_PER_BLOCK * block + side.uv_offset() + k,
    {
        let base = self.blocks[block].index as u16;
        let offset: u16 = match side {
            Side::Base => 0,
            Side::Top => 8,
            Side::Side => 4,
        };
        [base + offset, base + offset + 1, base + offset + 2, base + offset + 3]
    }
}

} // verus!
