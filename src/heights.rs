use vstd::prelude::*;

verus! {

/// The recorded top of the pile in each column: column index to the smallest
/// `y` of a settled particle there. A column without an entry is empty down
/// to the floor.
#[verifier::external_body]
pub struct HeightMap {
    inner: hashbrown::HashMap<u32, u32>,
}

/// What a `HeightMap` holds, as a map from column to recorded height.
pub uninterp spec fn heights_of(m: HeightMap) -> Map<u32, u32>;

impl View for HeightMap {
    type V = Map<u32, u32>;

    open spec fn view(&self) -> Map<u32, u32> {
        heights_of(*self)
    }
}

/// The map that recording the pairs of `e` one after another gives, later
/// pairs overriding earlier ones.
pub open spec fn entries_map(e: Seq<(u32, u32)>) -> Map<u32, u32>
    decreases e.len(),
{
    if e.len() == 0 {
        Map::empty()
    } else {
        entries_map(e.drop_last()).insert(e.last().0, e.last().1)
    }
}

/// The height of column `c` in `m`, where an empty column reaches `floor`.
pub open spec fn height_at(m: Map<u32, u32>, c: u32, floor: u32) -> u32 {
    if m.contains_key(c) {
        m[c]
    } else {
        floor
    }
}

impl HeightMap {
    /// Relies on `hashbrown::HashMap::new`: the map starts empty.
    #[verifier::external_body]
    pub(crate) fn new() -> (r: HeightMap)
        ensures
            r@.dom() == Set::<u32>::empty(),
    {
        HeightMap { inner: hashbrown::HashMap::new() }
    }

    /// Relies on `hashbrown::HashMap::get`: the value under `c`, if any.
    #[verifier::external_body]
    fn get(&self, c: u32) -> (r: Option<u32>)
        ensures
            r == (if heights_of(*self).contains_key(c) {
                Some(heights_of(*self)[c])
            } else {
                None::<u32>
            }),
    {
        self.inner.get(&c).copied()
    }

    /// Relies on `hashbrown::HashMap::insert`: `c` maps to `h` afterwards and
    /// every other entry is kept.
    #[verifier::external_body]
    fn insert(&mut self, c: u32, h: u32)
        ensures
            heights_of(*final(self)) == heights_of(*old(self)).insert(c, h),
    {
        self.inner.insert(c, h);
    }

    /// The height of column `c`, or `floor` where nothing is recorded.
    pub fn height_or(&self, c: u32, floor: u32) -> (r: u32)
        ensures
            r == height_at(self@, c, floor),
    {
        match self.get(c) {
            Some(h) => h,
            None => floor,
        }
    }

    /// Records for column `c` the smaller of `h` and its present height,
    /// where an empty column reaches `floor`; so a column only grows taller.
    pub fn lower_to(&mut self, c: u32, h: u32, floor: u32)
        ensures
            final(self)@ == old(self)@.insert(
                c,
                if h < height_at(old(self)@, c, floor) {
                    h
                } else {
                    height_at(old(self)@, c, floor)
                },
            ),
    {
        let cur = self.height_or(c, floor);
        let lowest = if h < cur {
            h
        } else {
            cur
        };
        self.insert(c, lowest);
    }

    /// A map holding the pairs `(column, height)` of `e`, a later pair for a
    /// column overriding an earlier one.
    pub fn from_entries(e: &[(u32, u32)]) -> (r: HeightMap)
        ensures
            r@ == entries_map(e@),
    {
        let mut m = HeightMap::new();
        proof {
            assert(m@ =~= entries_map(e@.take(0)));
        }
        let mut i: usize = 0;
        while i < e.len()
            invariant
                i <= e@.len(),
                m@ == entries_map(e@.take(i as int)),
            decreases e@.len() - i,
        {
            proof {
                assert(e@.take(i + 1).drop_last() =~= e@.take(i as int));
            }
            let (c, h) = e[i];
            m.insert(c, h);
            i = i + 1;
        }
        proof {
            assert(e@.take(e@.len() as int) =~= e@);
        }
        m
    }
}

} // verus!
