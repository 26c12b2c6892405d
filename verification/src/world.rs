//! A ghost model of the world surface: the mapping from block position
//! to block identifier that results from applying a sequence of writes.
//!
//! The host applies `BlockWrite`s in order; this module states what that
//! leaves behind, and proves that removing a segment undoes exactly what
//! placing it wrote.

use vstd::prelude::*;
use crate::geom::BlockPos;
use crate::palette::{BlockId, AIR};
use crate::generation::{
    BlockWrite, Generation, ChildGeneration, spec_place_writes, spec_remove_writes,
    concat_child_place, concat_child_remove,
};

verus! {

/// The world after the writes are applied in order.
pub open spec fn apply_writes(w: Map<BlockPos, BlockId>, ws: Seq<BlockWrite>) -> Map<
    BlockPos,
    BlockId,
>
    decreases ws.len(),
{
    if ws.len() == 0 {
        w
    } else {
        apply_writes(w.insert(ws[0].pos, ws[0].block), ws.drop_first())
    }
}

/// Whether any write in the sequence touches the position.
pub open spec fn touches(ws: Seq<BlockWrite>, p: BlockPos) -> bool {
    exists|i: int| 0 <= i < ws.len() && (#[trigger] ws[i]).pos == p
}

/// Whether every write in the sequence writes the empty identifier.
pub open spec fn all_air(ws: Seq<BlockWrite>) -> bool {
    forall|i: int| 0 <= i < ws.len() ==> (#[trigger] ws[i]).block == AIR
}

/// A position no write touches keeps its value and its presence.
pub proof fn lemma_apply_untouched(w: Map<BlockPos, BlockId>, ws: Seq<BlockWrite>, p: BlockPos)
    requires
        !touches(ws, p),
    ensures
        apply_writes(w, ws).dom().contains(p) == w.dom().contains(p),
        w.dom().contains(p) ==> apply_writes(w, ws)[p] == w[p],
    decreases ws.len(),
{
    if ws.len() > 0 {
        assert(ws[0].pos != p);
        assert(!touches(ws.drop_first(), p)) by {
            if touches(ws.drop_first(), p) {
                let i = choose|i: int|
                    0 <= i < ws.drop_first().len() && (#[trigger] ws.drop_first()[i]).pos == p;
                assert(ws[i + 1].pos == p);
            }
        }
        lemma_apply_untouched(w.insert(ws[0].pos, ws[0].block), ws.drop_first(), p);
    }
}

/// Applying a concatenation applies the parts in order.
pub proof fn lemma_apply_concat(w: Map<BlockPos, BlockId>, a: Seq<BlockWrite>, b: Seq<BlockWrite>)
    ensures
        apply_writes(w, a + b) == apply_writes(apply_writes(w, a), b),
    decreases a.len(),
{
    if a.len() == 0 {
        assert(a + b =~= b);
    } else {
        assert((a + b).drop_first() =~= a.drop_first() + b);
        assert((a + b)[0] == a[0]);
        lemma_apply_concat(w.insert(a[0].pos, a[0].block), a.drop_first(), b);
    }
}

/// After writes that are all `AIR`, every touched position reads `AIR`.
pub proof fn lemma_apply_all_air(w: Map<BlockPos, BlockId>, ws: Seq<BlockWrite>, p: BlockPos)
    requires
        all_air(ws),
        touches(ws, p),
    ensures
        apply_writes(w, ws).dom().contains(p),
        apply_writes(w, ws)[p] == AIR,
    decreases ws.len(),
{
    let w1 = w.insert(ws[0].pos, ws[0].block);
    assert(ws[0].block == AIR);
    if ws[0].pos == p {
        if touches(ws.drop_first(), p) {
            assert(all_air(ws.drop_first())) by {
                assert(forall|i: int|
                    0 <= i < ws.drop_first().len() ==> (#[trigger] ws.drop_first()[i]) == ws[i
                        + 1]);
            }
            lemma_apply_all_air(w1, ws.drop_first(), p);
        } else {
            lemma_apply_untouched(w1, ws.drop_first(), p);
        }
    } else {
        let i = choose|i: int| 0 <= i < ws.len() && (#[trigger] ws[i]).pos == p;
        assert(ws.drop_first()[i - 1].pos == p);
        assert(all_air(ws.drop_first())) by {
            assert(forall|i: int|
                0 <= i < ws.drop_first().len() ==> (#[trigger] ws.drop_first()[i]) == ws[i + 1]);
        }
        lemma_apply_all_air(w1, ws.drop_first(), p);
    }
}

/// Concatenation touches a position exactly when one part does.
pub proof fn lemma_touches_concat(a: Seq<BlockWrite>, b: Seq<BlockWrite>, p: BlockPos)
    ensures
        touches(a + b, p) <==> touches(a, p) || touches(b, p),
{
    if touches(a + b, p) {
        let i = choose|i: int| 0 <= i < (a + b).len() && (#[trigger] (a + b)[i]).pos == p;
        if i < a.len() {
            assert(a[i].pos == p);
        } else {
            assert(b[i - a.len()].pos == p);
        }
    }
    if touches(a, p) {
        let i = choose|i: int| 0 <= i < a.len() && (#[trigger] a[i]).pos == p;
        assert((a + b)[i].pos == p);
    }
    if touches(b, p) {
        let i = choose|i: int| 0 <= i < b.len() && (#[trigger] b[i]).pos == p;
        assert((a + b)[a.len() + i].pos == p);
    }
}

/// A segment's removal writes touch exactly the positions its placement
/// writes touch, and they all write `AIR`.
pub proof fn lemma_remove_mirrors_place(g: Generation, p: BlockPos)
    ensures
        touches(g.spec_remove(), p) <==> touches(g.spec_place(), p),
        all_air(g.spec_remove()),
{
    lemma_touches_concat(
        spec_place_writes(g.blocks@, g.offset),
        concat_child_place(g.children@, g.offset),
        p,
    );
    lemma_touches_concat(
        spec_remove_writes(g.blocks@, g.offset),
        concat_child_remove(g.children@, g.offset),
        p,
    );
    lemma_writes_mirror(g.blocks@, g.offset, p);
    lemma_child_concat_mirror(g.children@, g.offset, p);
    lemma_all_air_concat(
        spec_remove_writes(g.blocks@, g.offset),
        concat_child_remove(g.children@, g.offset),
    );
}

/// A concatenation of all-`AIR` write sequences is all `AIR`.
proof fn lemma_all_air_concat(a: Seq<BlockWrite>, b: Seq<BlockWrite>)
    requires
        all_air(a),
        all_air(b),
    ensures
        all_air(a + b),
{
    assert forall|i: int| 0 <= i < (a + b).len() implies (#[trigger] (a + b)[i]).block == AIR by {
        if i < a.len() {
            assert((a + b)[i] == a[i]);
        } else {
            assert((a + b)[i] == b[i - a.len()]);
        }
    }
}

/// For a plain block mapping, removal writes mirror placement writes.
proof fn lemma_writes_mirror(
    blocks: Seq<(BlockPos, BlockId)>,
    off: BlockPos,
    p: BlockPos,
)
    ensures
        touches(spec_remove_writes(blocks, off), p) <==> touches(spec_place_writes(blocks, off), p),
        all_air(spec_remove_writes(blocks, off)),
{
    let rem = spec_remove_writes(blocks, off);
    let pl = spec_place_writes(blocks, off);
    assert(forall|i: int| 0 <= i < blocks.len() ==> (#[trigger] rem[i]).pos == pl[i].pos);
    if touches(rem, p) {
        let i = choose|i: int| 0 <= i < rem.len() && (#[trigger] rem[i]).pos == p;
        assert(pl[i].pos == p);
    }
    if touches(pl, p) {
        let i = choose|i: int| 0 <= i < pl.len() && (#[trigger] pl[i]).pos == p;
        assert(rem[i].pos == p);
    }
}

/// For sub-region concatenations, removal writes mirror placement
/// writes.
proof fn lemma_child_concat_mirror(cs: Seq<ChildGeneration>, off: BlockPos, p: BlockPos)
    ensures
        touches(concat_child_remove(cs, off), p) <==> touches(concat_child_place(cs, off), p),
        all_air(concat_child_remove(cs, off)),
    decreases cs.len(),
{
    if cs.len() > 0 {
        lemma_child_concat_mirror(cs.drop_last(), off, p);
        lemma_writes_mirror(cs.last().blocks@, off, p);
        lemma_touches_concat(
            concat_child_remove(cs.drop_last(), off),
            spec_remove_writes(cs.last().blocks@, off),
            p,
        );
        lemma_touches_concat(
            concat_child_place(cs.drop_last(), off),
            spec_place_writes(cs.last().blocks@, off),
            p,
        );
    }
}

/// Placing a segment and then removing it leaves every position it
/// touched at the empty identifier and every other position as it was;
/// doing the same a second time changes nothing at all.
pub proof fn lemma_place_remove_round_trip(g: Generation, w: Map<BlockPos, BlockId>)
    ensures
        ({
            let w1 = apply_writes(w, g.spec_place() + g.spec_remove());
            &&& forall|p: BlockPos|
                #[trigger] touches(g.spec_place(), p) ==> w1.dom().contains(p) && w1[p] == AIR
            &&& forall|p: BlockPos|
                !#[trigger] touches(g.spec_place(), p) ==> w1.dom().contains(p) == w.dom().contains(
                    p,
                ) && (w.dom().contains(p) ==> w1[p] == w[p])
            &&& apply_writes(w1, g.spec_place() + g.spec_remove()) == w1
        }),
{
    let pl = g.spec_place();
    let rem = g.spec_remove();
    let w1 = apply_writes(w, pl + rem);
    lemma_apply_concat(w, pl, rem);
    let wp = apply_writes(w, pl);
    assert forall|p: BlockPos| #[trigger] touches(pl, p) implies w1.dom().contains(p) && w1[p]
        == AIR by {
        lemma_remove_mirrors_place(g, p);
        lemma_apply_all_air(wp, rem, p);
    }
    assert forall|p: BlockPos| !#[trigger] touches(pl, p) implies w1.dom().contains(p)
        == w.dom().contains(p) && (w.dom().contains(p) ==> w1[p] == w[p]) by {
        lemma_remove_mirrors_place(g, p);
        lemma_apply_untouched(w, pl, p);
        lemma_apply_untouched(wp, rem, p);
    }
    let w2 = apply_writes(w1, pl + rem);
    lemma_apply_concat(w1, pl, rem);
    let w1p = apply_writes(w1, pl);
    assert forall|p: BlockPos| #[trigger] touches(pl, p) implies w2.dom().contains(p) && w2[p]
        == AIR by {
        lemma_remove_mirrors_place(g, p);
        lemma_apply_all_air(w1p, rem, p);
    }
    assert forall|p: BlockPos| !#[trigger] touches(pl, p) implies w2.dom().contains(p)
        == w1.dom().contains(p) && (w1.dom().contains(p) ==> w2[p] == w1[p]) by {
        lemma_remove_mirrors_place(g, p);
        lemma_apply_untouched(w1, pl, p);
        lemma_apply_untouched(w1p, rem, p);
    }
    assert(w2.dom() =~= w1.dom()) by {
        assert forall|p: BlockPos| w2.dom().contains(p) == w1.dom().contains(p) by {
            if touches(pl, p) {
            } else {
            }
        }
    }
    assert(w2 =~= w1) by {
        assert forall|p: BlockPos| w1.dom().contains(p) implies w2[p] == w1[p] by {
            if touches(pl, p) {
            } else {
            }
        }
    }
}

} // verus!
