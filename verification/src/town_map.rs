use vstd::prelude::*;
use crate::building::BuildingId;

verus! {

/// One lot of a block: empty, or taken by a building.
#[derive(Copy, Clone, Debug, PartialEq, Eq, Structural)]
pub enum TownLot {
    EmptyLot,
    BuildingLot(BuildingId),
}

/// One block of the town grid: untouched, or parcelled into four lots.
#[derive(Clone, Debug, PartialEq, Eq)]
pub enum TownBlock {
    EmptyBlock,
    SmallBuildings([TownLot; 4]),
}

impl TownBlock {
    /// A parcelled block with four free lots.
    pub fn empty() -> (r: Self)
        ensures
            r matches TownBlock::SmallBuildings(lots) && lots@ =~= seq![
                TownLot::EmptyLot,
                TownLot::EmptyLot,
                TownLot::EmptyLot,
                TownLot::EmptyLot,
            ],
    {
        let lots = [TownLot::EmptyLot, TownLot::EmptyLot, TownLot::EmptyLot, TownLot::EmptyLot];
        proof {
            assert(lots@ =~= seq![
                TownLot::EmptyLot,
                TownLot::EmptyLot,
                TownLot::EmptyLot,
                TownLot::EmptyLot,
            ]);
        }
        TownBlock::SmallBuildings(lots)
    }
}

/// The town grid: a row-major list of blocks.
#[derive(Clone, Debug, PartialEq, Eq)]
pub struct TownMap {
    pub width: usize,
    pub height: usize,
    pub blocks: Vec<TownBlock>,
}

impl TownMap {
    /// The building on the given lot, if the block is parcelled and the lot taken.
    pub open spec fn spec_building(self, block: int, lot: int) -> Option<BuildingId> {
        if 0 <= block < self.blocks@.len() {
            match self.blocks@[block] {
                TownBlock::SmallBuildings(lots) => match lots@[lot] {
                    TownLot::BuildingLot(id) => Some(id),
                    TownLot::EmptyLot => None,
                },
                TownBlock::EmptyBlock => None,
            }
        } else {
            None
        }
    }

    /// Whether the lot holds no building.
    pub open spec fn spec_is_lot_free(self, block: int, lot: int) -> bool {
        self.spec_building(block, lot) is None
    }

    pub fn width(&self) -> (r: usize)
        ensures
            r == self.width,
    {
        self.width
    }

    pub fn height(&self) -> (r: usize)
        ensures
            r == self.height,
    {
        self.height
    }

    pub fn blocks(&self) -> (r: &Vec<TownBlock>)
        ensures
            *r == self.blocks,
    {
        &self.blocks
    }

    /// A map over the given blocks; their number must match the dimensions.
    pub fn new(width: usize, height: usize, blocks: Vec<TownBlock>) -> (r: Self)
        requires
            width * height == blocks@.len(),
        ensures
            r == (TownMap { width, height, blocks }),
    {
        TownMap { width, height, blocks }
    }

    /// A map of the given dimensions with every block untouched.
    pub fn empty(width: usize, height: usize) -> (r: Self)
        requires
            width * height <= usize::MAX,
        ensures
            r.width == width,
            r.height == height,
            r.blocks@.len() == width * height,
            forall|b: int| 0 <= b < r.blocks@.len() ==> r.blocks@[b] == TownBlock::EmptyBlock,
    {
        let count = width * height;
        let mut blocks: Vec<TownBlock> = Vec::new();
        let mut i: usize = 0;
        while i < count
            invariant
                i <= count,
                blocks@.len() == i,
                forall|b: int| 0 <= b < i ==> blocks@[b] == TownBlock::EmptyBlock,
            decreases count - i,
        {
            blocks.push(TownBlock::EmptyBlock);
            i = i + 1;
        }
        TownMap { width, height, blocks }
    }

    pub fn is_lot_free(&self, block: usize, lot: usize) -> (r: bool)
        requires
            lot < 4,
        ensures
            r == self.spec_is_lot_free(block as int, lot as int),
    {
        if block < self.blocks.len() {
            if let TownBlock::SmallBuildings(buildings) = &self.blocks[block] {
                return matches!(buildings[lot], TownLot::EmptyLot);
            }
        }
        true
    }

    pub fn get_block(&self, row: usize, column: usize) -> (r: &TownBlock)
        requires
            row * self.width + column < self.blocks@.len(),
        ensures
            *r == self.blocks@[row * self.width + column],
    {
        let n = self.blocks.len();
        proof {
            assert(row * self.width + column < n);
        }
        let index = row * self.width + column;
        &self.blocks[index]
    }

    pub fn get_building(&self, block: usize, lot: usize) -> (r: Option<BuildingId>)
        requires
            lot < 4,
        ensures
            r == self.spec_building(block as int, lot as int),
    {
        if block < self.blocks.len() {
            if let TownBlock::SmallBuildings(buildings) = &self.blocks[block] {
                if let TownLot::BuildingLot(building) = buildings[lot] {
                    return Some(building);
                }
            }
        }
        None
    }

    /// Put a building on a free lot of a valid block, parcelling the block first
    /// if it is still untouched.
    pub fn add_building(&mut self, id: BuildingId, block: usize, lot: usize)
        requires
            lot < 4,
            block < old(self).blocks@.len(),
            old(self).spec_is_lot_free(block as int, lot as int),
        ensures
            final(self).width == old(self).width,
            final(self).height == old(self).height,
            final(self).blocks@.len() == old(self).blocks@.len(),
            forall|b: int|
                0 <= b < old(self).blocks@.len() && b != block ==> final(self).blocks@[b] == old(
                    self,
                ).blocks@[b],
            final(self).spec_building(block as int, lot as int) == Some(id),
            forall|l: int|
                0 <= l < 4 && l != lot ==> final(self).spec_building(block as int, l) == old(
                    self,
                ).spec_building(block as int, l),
    {
        if matches!(&self.blocks[block], TownBlock::EmptyBlock) {
            let empty = TownBlock::empty();
            self.blocks[block] = empty;
        }
        let blocks = &mut self.blocks;
        match &mut blocks[block] {
            TownBlock::SmallBuildings(buildings) => {
                buildings[lot] = TownLot::BuildingLot(id);
            },
            TownBlock::EmptyBlock => {
                proof {
                    assert(false);
                }
            },
        }
    }
}

} // verus!
