//! The weighted block palette: named collections of interchangeable
//! block identifiers.
//!
//! A collection marked `uniform` is resolved once, when the palette is
//! built, so every later lookup of that name returns the same block; a
//! non-uniform collection samples independently on every lookup.

use vstd::prelude::*;
use crate::errors::GenerationError;
use crate::weighted::{WeightedVec, spec_total};

verus! {

/// A concrete block identifier; `AIR` marks an empty position.
pub type BlockId = u16;

/// The identifier written to clear a position.
pub const AIR: BlockId = 0;

/// A choice between block identifiers: a weighted list, and whether one
/// pick is frozen for the palette's whole lifetime.
#[derive(Clone, Debug)]
pub struct BlockChoice {
    pub blocks: WeightedVec<BlockId>,
    pub uniform: bool,
}

/// One named collection of interchangeable blocks.
#[derive(Clone, Debug)]
pub struct BlockCollection(pub BlockChoice);

impl BlockCollection {
    /// Whether the underlying weighted list is consistent.
    pub open spec fn wf(&self) -> bool {
        self.0.blocks.wf()
    }
}

/// Whether some collection in the sequence is uniform with zero total
/// weight, so that building the palette must fail.
pub open spec fn has_empty_uniform(s: Seq<(String, BlockCollection)>) -> bool {
    exists|i: int|
        0 <= i < s.len() && (#[trigger] s[i]).1.0.uniform && s[i].1.0.blocks.total == 0
}

/// Whether a built palette's entries mirror the source entries: same
/// names, same collections, and each frozen index lawful for its kind.
pub open spec fn built_matches(
    src: Seq<(String, BlockCollection)>,
    dst: Seq<(String, BlockCollection, usize)>,
) -> bool {
    &&& dst.len() == src.len()
    &&& forall|i: int|
        0 <= i < src.len() ==> {
            let (name, coll) = #[trigger] src[i];
            let (bname, bcoll, idx) = dst[i];
            &&& bname == name
            &&& bcoll.0.blocks.entries@ == coll.0.blocks.entries@
            &&& bcoll.0.uniform == coll.0.uniform
            &&& if coll.0.uniform {
                idx < coll.0.blocks.entries@.len() && coll.0.blocks.entries@[idx as int].1 > 0
            } else {
                idx == 0
            }
        }
}

/// Whether a name resolves in a palette: present, and either uniform or
/// of positive total weight, so that a lookup is owed a block.
pub open spec fn resolvable(s: Seq<(String, BlockCollection)>, name: Seq<char>) -> bool {
    match spec_find(s, name) {
        None => false,
        Some(i) => s[i].1.0.uniform || spec_total(s[i].1.0.blocks.entries@) > 0,
    }
}

/// Whether a name is bound to an entry no weighted draw can serve:
/// present, not uniform, of zero total weight.
pub open spec fn present_empty(s: Seq<(String, BlockCollection)>, name: Seq<char>) -> bool {
    match spec_find(s, name) {
        None => false,
        Some(i) => !s[i].1.0.uniform && spec_total(s[i].1.0.blocks.entries@) == 0,
    }
}

/// Name lookups find the same index in a palette and in a built form
/// whose names match it entry for entry.
pub proof fn lemma_find_corresponds(
    src: Seq<(String, BlockCollection)>,
    dst: Seq<(String, BlockCollection, usize)>,
    name: Seq<char>,
)
    requires
        dst.len() == src.len(),
        forall|i: int| 0 <= i < src.len() ==> (#[trigger] dst[i]).0 == src[i].0,
    ensures
        spec_find_built(dst, name) == spec_find(src, name),
    decreases src.len(),
{
    if src.len() > 0 {
        assert(dst[0].0 == src[0].0);
        assert forall|i: int| 0 <= i < src.drop_first().len() implies (#[trigger] dst.drop_first(
        )[i]).0 == src.drop_first()[i].0 by {
            assert(dst.drop_first()[i] == dst[i + 1]);
            assert(src.drop_first()[i] == src[i + 1]);
        }
        lemma_find_corresponds(src.drop_first(), dst.drop_first(), name);
    }
}

/// First index in a name/collection sequence whose name reads `name`.
pub open spec fn spec_find<T>(s: Seq<(String, T)>, name: Seq<char>) -> Option<int>
    decreases s.len(),
{
    if s.len() == 0 {
        None
    } else if s[0].0@ == name {
        Some(0)
    } else {
        match spec_find(s.drop_first(), name) {
            None => None,
            Some(i) => Some(i + 1),
        }
    }
}

/// A found index is in range and names the given name.
pub proof fn lemma_find_some<T>(s: Seq<(String, T)>, name: Seq<char>, i: int)
    requires
        spec_find(s, name) == Some(i),
    ensures
        0 <= i < s.len(),
        s[i].0@ == name,
    decreases s.len(),
{
    if s.len() > 0 && s[0].0@ != name {
        match spec_find(s.drop_first(), name) {
            None => {},
            Some(j) => {
                lemma_find_some(s.drop_first(), name, j);
            },
        }
    }
}

/// The palette under construction: names mapped to collections, later
/// entries for a name shadowed by the first.
#[derive(Clone, Debug)]
pub struct BlockCollectionMap {
    pub collections: Vec<(String, BlockCollection)>,
}

impl BlockCollectionMap {
    /// Whether every collection held is consistent.
    pub open spec fn wf(&self) -> bool {
        forall|i: int| 0 <= i < self.collections@.len() ==> (#[trigger] self.collections@[i]).1.wf()
    }

    /// An empty palette.
    pub fn new() -> (r: BlockCollectionMap)
        ensures
            r.wf(),
            r.collections@.len() == 0,
    {
        BlockCollectionMap { collections: Vec::new() }
    }

    /// Bind a name to a collection, replacing what the name held before.
    pub fn add(&mut self, name: String, collection: BlockCollection)
        requires
            old(self).wf(),
            collection.wf(),
        ensures
            final(self).wf(),
            match spec_find(old(self).collections@, name@) {
                Some(i) => final(self).collections@ == old(self).collections@.update(
                    i,
                    (name, collection),
                ),
                None => final(self).collections@ == old(self).collections@.push(
                    (name, collection),
                ),
            },
    {
        let ghost orig = self.collections@;
        let n: usize = self.collections.len();
        let mut i: usize = 0;
        while i < n
            invariant
                self.collections@ == orig,
                n == orig.len(),
                i <= n,
                collection.wf(),
                old(self).wf(),
                self.collections@ == old(self).collections@,
                forall|j: int| 0 <= j < i ==> (#[trigger] orig[j]).0@ != name@,
            decreases n - i,
        {
            if self.collections[i].0 == name {
                proof {
                    lemma_find_prefix_hit(orig, name@, i as int);
                }
                self.collections.set(i, (name, collection));
                return;
            }
            i = i + 1;
        }
        proof {
            lemma_find_none(orig, name@);
        }
        self.collections.push((name, collection));
    }

    /// Freeze the palette: every uniform collection pre-selects one
    /// index by weighted draw, every other collection keeps index zero.
    /// Fails exactly when some uniform collection has zero total weight.
    pub fn build(&self) -> (r: Result<BuiltBlockCollectionMap, GenerationError>)
        requires
            self.wf(),
        ensures
            r matches Ok(b) ==> b.wf() && built_matches(self.collections@, b.collections@)
                && !has_empty_uniform(self.collections@),
            r is Err ==> r == Err::<BuiltBlockCollectionMap, GenerationError>(
                GenerationError::EmptyCollection,
            ) && has_empty_uniform(self.collections@),
    {
        let ghost orig = self.collections@;
        let n: usize = self.collections.len();
        let mut out: Vec<(String, BlockCollection, usize)> = Vec::new();
        let mut i: usize = 0;
        while i < n
            invariant
                orig == self.collections@,
                self.wf(),
                n == orig.len(),
                i <= n,
                out@.len() == i,
                forall|k: int|
                    0 <= k < i ==> !((#[trigger] orig[k]).1.0.uniform && orig[k].1.0.blocks.total
                        == 0),
                forall|k: int|
                    0 <= k < i ==> {
                        let (bname, bcoll, idx) = #[trigger] out@[k];
                        let (name, coll) = orig[k];
                        &&& bname == name
                        &&& bcoll.0.blocks.entries@ == coll.0.blocks.entries@
                        &&& bcoll.0.uniform == coll.0.uniform
                        &&& bcoll.wf()
                        &&& if coll.0.uniform {
                            idx < coll.0.blocks.entries@.len()
                                && coll.0.blocks.entries@[idx as int].1 > 0
                        } else {
                            idx == 0
                        }
                    },
            decreases n - i,
        {
            let name = self.collections[i].0.clone();
            let coll = copy_collection(&self.collections[i].1);
            let idx: usize = if coll.0.uniform {
                match coll.0.blocks.get_random_index() {
                    Some(ix) => ix,
                    None => {
                        proof {
                            assert((#[trigger] orig[i as int]).1.0.uniform
                                && orig[i as int].1.0.blocks.total == 0);
                            assert(has_empty_uniform(orig));
                        }
                        return Err(GenerationError::EmptyCollection);
                    },
                }
            } else {
                0
            };
            out.push((name, coll, idx));
            i = i + 1;
        }
        proof {
            assert(built_matches(orig, out@));
            assert(!has_empty_uniform(orig)) by {
                if has_empty_uniform(orig) {
                    let k = choose|k: int|
                        0 <= k < orig.len() && (#[trigger] orig[k]).1.0.uniform
                            && orig[k].1.0.blocks.total == 0;
                    assert(!(orig[k].1.0.uniform && orig[k].1.0.blocks.total == 0));
                }
            }
        }
        Ok(BuiltBlockCollectionMap { collections: out })
    }
}

/// A copy of a weight/item list with the same entries and total.
fn copy_entries(v: &Vec<(BlockId, u32)>) -> (r: Vec<(BlockId, u32)>)
    ensures
        r@ == v@,
{
    let n: usize = v.len();
    let mut r: Vec<(BlockId, u32)> = Vec::new();
    let mut i: usize = 0;
    while i < n
        invariant
            n == v@.len(),
            i <= n,
            r@ == v@.take(i as int),
        decreases n - i,
    {
        r.push(v[i]);
        proof {
            assert(v@.take(i + 1) =~= v@.take(i as int).push(v@[i as int]));
        }
        i = i + 1;
    }
    proof {
        assert(v@.take(n as int) =~= v@);
    }
    r
}

/// A copy of a collection with the same entries, total and uniformity.
fn copy_collection(c: &BlockCollection) -> (r: BlockCollection)
    ensures
        r.0.blocks.entries@ == c.0.blocks.entries@,
        r.0.blocks.total == c.0.blocks.total,
        r.0.uniform == c.0.uniform,
        c.wf() ==> r.wf(),
{
    BlockCollection(
        BlockChoice {
            blocks: WeightedVec { entries: copy_entries(&c.0.blocks.entries), total: c.0.blocks.total },
            uniform: c.0.uniform,
        },
    )
}

/// If the first `i` entries miss the name and entry `i` carries it, the
/// name is first found at `i`.
proof fn lemma_find_prefix_hit<T>(s: Seq<(String, T)>, name: Seq<char>, i: int)
    requires
        0 <= i < s.len(),
        forall|j: int| 0 <= j < i ==> (#[trigger] s[j]).0@ != name,
        s[i].0@ == name,
    ensures
        spec_find(s, name) == Some(i),
    decreases i,
{
    if i > 0 {
        lemma_find_prefix_hit(s.drop_first(), name, i - 1);
    }
}

/// If no entry carries the name, it is not found.
proof fn lemma_find_none<T>(s: Seq<(String, T)>, name: Seq<char>)
    requires
        forall|j: int| 0 <= j < s.len() ==> (#[trigger] s[j]).0@ != name,
    ensures
        spec_find(s, name) is None,
    decreases s.len(),
{
    if s.len() > 0 {
        lemma_find_none(s.drop_first(), name);
    }
}

/// The frozen palette: each name beside its collection and the index a
/// uniform collection was resolved to at build time.
#[derive(Clone, Debug)]
pub struct BuiltBlockCollectionMap {
    pub collections: Vec<(String, BlockCollection, usize)>,
}

/// First index in a built palette whose name reads `name`.
pub open spec fn spec_find_built(
    s: Seq<(String, BlockCollection, usize)>,
    name: Seq<char>,
) -> Option<int>
    decreases s.len(),
{
    if s.len() == 0 {
        None
    } else if s[0].0@ == name {
        Some(0)
    } else {
        match spec_find_built(s.drop_first(), name) {
            None => None,
            Some(i) => Some(i + 1),
        }
    }
}

/// A found index is in range and names the given name.
pub proof fn lemma_find_built_some(
    s: Seq<(String, BlockCollection, usize)>,
    name: Seq<char>,
    i: int,
)
    requires
        spec_find_built(s, name) == Some(i),
    ensures
        0 <= i < s.len(),
        s[i].0@ == name,
    decreases s.len(),
{
    if s.len() > 0 && s[0].0@ != name {
        match spec_find_built(s.drop_first(), name) {
            None => {},
            Some(j) => {
                lemma_find_built_some(s.drop_first(), name, j);
            },
        }
    }
}

impl BuiltBlockCollectionMap {
    /// Whether every collection is consistent and every frozen index of
    /// a uniform collection selects an in-range block of positive weight.
    pub open spec fn wf(&self) -> bool {
        forall|i: int|
            0 <= i < self.collections@.len() ==> {
                let (_, coll, idx) = #[trigger] self.collections@[i];
                &&& coll.wf()
                &&& (coll.0.uniform ==> idx < coll.0.blocks.entries@.len()
                    && coll.0.blocks.entries@[idx as int].1 > 0)
            }
    }

    /// The block a uniform entry of this name is frozen to.
    pub open spec fn spec_uniform_block(&self, name: Seq<char>) -> BlockId {
        match spec_find_built(self.collections@, name) {
            Some(i) => {
                let (_, coll, idx) = self.collections@[i];
                coll.0.blocks.entries@[idx as int].0
            },
            None => AIR,
        }
    }

    /// Whether the palette binds a name to an entry that no weighted
    /// draw can serve: present, not uniform, and of zero total weight.
    pub open spec fn spec_present_empty(&self, name: Seq<char>) -> bool {
        match spec_find_built(self.collections@, name) {
            Some(i) => !self.collections@[i].1.0.uniform && self.collections@[i].1.0.blocks.total
                == 0,
            None => false,
        }
    }

    /// The first entry carrying the name, if any.
    fn find_entry(&self, name: &String) -> (r: Option<usize>)
        ensures
            match r {
                None => spec_find_built(self.collections@, name@) is None,
                Some(i) => i < self.collections@.len() && spec_find_built(
                    self.collections@,
                    name@,
                ) == Some(i as int),
            },
    {
        let ghost s = self.collections@;
        let n: usize = self.collections.len();
        let mut i: usize = 0;
        while i < n
            invariant
                s == self.collections@,
                n == s.len(),
                i <= n,
                forall|j: int| 0 <= j < i ==> (#[trigger] s[j]).0@ != name@,
            decreases n - i,
        {
            if self.collections[i].0 == *name {
                proof {
                    lemma_find_built_prefix_hit(s, name@, i as int);
                }
                return Some(i);
            }
            i = i + 1;
        }
        proof {
            lemma_find_built_none(s, name@);
        }
        None
    }

    /// Look a name up and resolve it to a block: the frozen block for a
    /// uniform collection, an independent weighted sample otherwise.
    /// `None` exactly when the name is absent; a present entry that no
    /// draw can serve is excluded, as a weighted choice from it cannot
    /// return a block.
    pub fn get_block_opt(&self, name: &String) -> (r: Option<BlockId>)
        requires
            self.wf(),
            !self.spec_present_empty(name@),
        ensures
            r is None <==> spec_find_built(self.collections@, name@) is None,
            r matches Some(b) ==> match spec_find_built(self.collections@, name@) {
                None => false,
                Some(i) => {
                    let (_, coll, _) = self.collections@[i];
                    if coll.0.uniform {
                        b == self.spec_uniform_block(name@)
                    } else {
                        exists|j: int|
                            0 <= j < coll.0.blocks.entries@.len()
                                && (#[trigger] coll.0.blocks.entries@[j]).1 > 0
                                && b == coll.0.blocks.entries@[j].0
                    }
                },
            },
    {
        match self.find_entry(name) {
            None => None,
            Some(i) => {
                let coll = &self.collections[i].1;
                let idx: usize = self.collections[i].2;
                if coll.0.uniform {
                    Some(*coll.0.blocks.get_at(idx))
                } else {
                    match coll.0.blocks.get_random() {
                        Some(b) => Some(*b),
                        None => {
                            proof {
                                assert(false);
                            }
                            None
                        },
                    }
                }
            },
        }
    }

    /// Resolve a name to a block, surfacing each failure as the error
    /// it is: an absent name is a lookup error, and a present entry
    /// whose weighted list cannot serve a draw is an empty-collection
    /// error.
    pub fn get_block(&self, name: &String) -> (r: Result<BlockId, GenerationError>)
        requires
            self.wf(),
        ensures
            match spec_find_built(self.collections@, name@) {
                None => r == Err::<BlockId, GenerationError>(GenerationError::PaletteLookup),
                Some(i) => {
                    let (_, coll, idx) = self.collections@[i];
                    if coll.0.uniform {
                        r == Ok::<BlockId, GenerationError>(self.spec_uniform_block(name@))
                    } else if coll.0.blocks.total > 0 {
                        r is Ok && (r matches Ok(b) ==> exists|j: int|
                            0 <= j < coll.0.blocks.entries@.len()
                                && (#[trigger] coll.0.blocks.entries@[j]).1 > 0
                                && b == coll.0.blocks.entries@[j].0)
                    } else {
                        r == Err::<BlockId, GenerationError>(GenerationError::EmptyCollection)
                    }
                },
            },
    {
        match self.find_entry(name) {
            None => Err(GenerationError::PaletteLookup),
            Some(i) => {
                let coll = &self.collections[i].1;
                let idx: usize = self.collections[i].2;
                if coll.0.uniform {
                    Ok(*coll.0.blocks.get_at(idx))
                } else {
                    match coll.0.blocks.get_random() {
                        Some(b) => Ok(*b),
                        None => Err(GenerationError::EmptyCollection),
                    }
                }
            },
        }
    }
}

/// If the first `i` entries miss the name and entry `i` carries it, the
/// name is first found at `i`.
proof fn lemma_find_built_prefix_hit(
    s: Seq<(String, BlockCollection, usize)>,
    name: Seq<char>,
    i: int,
)
    requires
        0 <= i < s.len(),
        forall|j: int| 0 <= j < i ==> (#[trigger] s[j]).0@ != name,
        s[i].0@ == name,
    ensures
        spec_find_built(s, name) == Some(i),
    decreases i,
{
    if i > 0 {
        lemma_find_built_prefix_hit(s.drop_first(), name, i - 1);
    }
}

/// If no entry carries the name, it is not found.
proof fn lemma_find_built_none(s: Seq<(String, BlockCollection, usize)>, name: Seq<char>)
    requires
        forall|j: int| 0 <= j < s.len() ==> (#[trigger] s[j]).0@ != name,
    ensures
        spec_find_built(s, name) is None,
    decreases s.len(),
{
    if s.len() > 0 {
        lemma_find_built_none(s.drop_first(), name);
    }
}

} // verus!
