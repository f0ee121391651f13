//! Facts about the cluster table and the pen that hold for every shaped run.

use vstd::prelude::*;
use crate::cluster::{
    ClusterSpan, NO_GLYPH, RenderGlyph, ShapedGlyph, cluster_ids, cluster_table,
    clusters_in_range, monotone, render_glyphs, runs, source_runs, span_text_length,
    sum_x_advance, sum_y_advance, lemma_runs_shape, lemma_runs_bounded, lemma_runs_ordered,
};

verus! {

/// Sum of the text lengths of a cluster table.
pub open spec fn total_text_length(t: Seq<ClusterSpan>) -> int
    decreases t.len(),
{
    if t.len() == 0 {
        0
    } else {
        total_text_length(t.drop_last()) + t.last().text_length
    }
}

/// Sum of the glyph counts of a cluster table.
pub open spec fn total_glyph_count(t: Seq<ClusterSpan>) -> int
    decreases t.len(),
{
    if t.len() == 0 {
        0
    } else {
        total_glyph_count(t.drop_last()) + t.last().glyph_count
    }
}

/// Sum of the glyph counts of a run partition.
pub open spec fn run_glyphs(rs: Seq<(u32, nat)>) -> nat
    decreases rs.len(),
{
    if rs.len() == 0 {
        0
    } else {
        run_glyphs(rs.drop_last()) + rs.last().1
    }
}

proof fn lemma_run_glyphs_prepend(a: (u32, nat), rs: Seq<(u32, nat)>)
    ensures
        run_glyphs(seq![a] + rs) == a.1 + run_glyphs(rs),
    decreases rs.len(),
{
    if rs.len() > 0 {
        assert((seq![a] + rs).drop_last() =~= seq![a] + rs.drop_last());
        assert((seq![a] + rs).last() == rs.last());
        lemma_run_glyphs_prepend(a, rs.drop_last());
    } else {
        assert((seq![a] + rs).drop_last() =~= Seq::<(u32, nat)>::empty());
        assert((seq![a] + rs).last() == a);
        assert(run_glyphs(Seq::<(u32, nat)>::empty()) == 0);
    }
}

proof fn lemma_run_glyphs_reverse(rs: Seq<(u32, nat)>)
    ensures
        run_glyphs(rs.reverse()) == run_glyphs(rs),
    decreases rs.len(),
{
    if rs.len() > 0 {
        let d = rs.drop_last();
        assert(rs.reverse() =~= seq![rs.last()] + d.reverse());
        lemma_run_glyphs_prepend(rs.last(), d.reverse());
        lemma_run_glyphs_reverse(d);
    }
}

/// The runs together hold every glyph once.
proof fn lemma_runs_cover(cs: Seq<u32>)
    ensures
        run_glyphs(runs(cs)) == cs.len(),
    decreases cs.len(),
{
    if cs.len() > 0 {
        let d = cs.drop_last();
        lemma_runs_cover(d);
        let prev = runs(d);
        if prev.len() > 0 && prev.last().0 == cs.last() {
            let u = prev.update(prev.len() - 1, (cs.last(), prev.last().1 + 1));
            assert(u.drop_last() =~= prev.drop_last());
        } else {
            assert(prev.push((cs.last(), 1nat)).drop_last() =~= prev);
        }
    }
}

proof fn lemma_sum_x_prepend(g: ShapedGlyph, gs: Seq<ShapedGlyph>)
    ensures
        sum_x_advance(seq![g] + gs) == g.x_advance + sum_x_advance(gs),
        sum_y_advance(seq![g] + gs) == g.y_advance + sum_y_advance(gs),
    decreases gs.len(),
{
    if gs.len() > 0 {
        assert((seq![g] + gs).drop_last() =~= seq![g] + gs.drop_last());
        assert((seq![g] + gs).last() == gs.last());
        lemma_sum_x_prepend(g, gs.drop_last());
    } else {
        assert((seq![g] + gs).drop_last() =~= Seq::<ShapedGlyph>::empty());
        assert((seq![g] + gs).last() == g);
        assert(sum_x_advance(Seq::<ShapedGlyph>::empty()) == 0);
        assert(sum_y_advance(Seq::<ShapedGlyph>::empty()) == 0);
    }
}

/// Advances add up to the same total in either order.
proof fn lemma_sum_reverse(gs: Seq<ShapedGlyph>)
    ensures
        sum_x_advance(gs.reverse()) == sum_x_advance(gs),
        sum_y_advance(gs.reverse()) == sum_y_advance(gs),
    decreases gs.len(),
{
    if gs.len() > 0 {
        let d = gs.drop_last();
        assert(gs.reverse() =~= seq![gs.last()] + d.reverse());
        lemma_sum_x_prepend(gs.last(), d.reverse());
        lemma_sum_reverse(d);
    }
}

/// The run partition of a glyph sequence with one more glyph in front.
pub open spec fn prepend_run(c: u32, rs: Seq<(u32, nat)>) -> Seq<(u32, nat)> {
    if rs.len() > 0 && rs[0].0 == c {
        rs.update(0, (c, rs[0].1 + 1))
    } else {
        seq![(c, 1nat)] + rs
    }
}

proof fn lemma_runs_prepend(c: u32, s: Seq<u32>)
    ensures
        runs(seq![c] + s) == prepend_run(c, runs(s)),
    decreases s.len(),
{
    let t = seq![c] + s;
    if s.len() == 0 {
        assert(t.drop_last() =~= Seq::<u32>::empty());
        assert(t.last() == c);
        assert(runs(Seq::<u32>::empty()) =~= Seq::<(u32, nat)>::empty());
        assert(runs(t) =~= prepend_run(c, runs(s)));
    } else {
        let d = s.drop_last();
        assert(t.drop_last() =~= seq![c] + d);
        assert(t.last() == s.last());
        lemma_runs_prepend(c, d);
        lemma_runs_shape(d);
        assert(runs(t) =~= prepend_run(c, runs(s)));
    }
}

/// Listing the glyphs in reverse lists their runs in reverse.
pub proof fn lemma_runs_reverse(cs: Seq<u32>)
    ensures
        runs(cs.reverse()) == runs(cs).reverse(),
    decreases cs.len(),
{
    if cs.len() > 0 {
        let d = cs.drop_last();
        let x = cs.last();
        assert(cs.reverse() =~= seq![x] + d.reverse());
        lemma_runs_prepend(x, d.reverse());
        lemma_runs_reverse(d);
        lemma_runs_shape(d);
        assert(runs(cs.reverse()) =~= runs(cs).reverse());
    } else {
        assert(cs.reverse() =~= cs);
        assert(runs(cs).reverse() =~= runs(cs));
    }
}

proof fn lemma_first_is_least(cs: Seq<u32>, i: int)
    requires
        monotone(cs, false),
        0 <= i < cs.len(),
    ensures
        cs[0] <= cs[i],
    decreases i,
{
    if i > 0 {
        lemma_first_is_least(cs, i - 1);
        assert(cs[i - 1] <= cs[(i - 1) + 1]);
    }
}

proof fn lemma_last_is_least(cs: Seq<u32>, i: int)
    requires
        monotone(cs, true),
        0 <= i < cs.len(),
    ensures
        cs.last() <= cs[i],
    decreases cs.len() - i,
{
    if i < cs.len() - 1 {
        lemma_last_is_least(cs, i + 1);
        assert(cs[i] >= cs[i + 1]);
    }
}

/// In source order the run cluster ids strictly increase and stay inside the
/// text, and the first one is the least cluster id.
proof fn lemma_source_runs(cs: Seq<u32>, text_len: nat, backward: bool)
    requires
        monotone(cs, backward),
        clusters_in_range(cs, text_len),
    ensures
        forall|j: int|
            0 <= j < source_runs(cs, backward).len() - 1 ==> source_runs(cs, backward)[j].0
                < (#[trigger] source_runs(cs, backward)[j + 1]).0,
        forall|j: int|
            0 <= j < source_runs(cs, backward).len() ==> (#[trigger] source_runs(
                cs,
                backward,
            )[j]).0 < text_len,
        cs.len() > 0 ==> forall|i: int|
            0 <= i < cs.len() ==> source_runs(cs, backward)[0].0 <= #[trigger] cs[i],
{
    lemma_runs_shape(cs);
    lemma_runs_ordered(cs, backward);
    lemma_runs_bounded(cs, text_len);
    let rs = runs(cs);
    let srs = source_runs(cs, backward);
    if backward {
        assert forall|j: int| 0 <= j < srs.len() - 1 implies srs[j].0 < (#[trigger] srs[j
            + 1]).0 by {
            let m = rs.len() - 2 - j;
            assert(rs[m].0 > rs[m + 1].0);
        }
        assert forall|j: int| 0 <= j < srs.len() implies (#[trigger] srs[j]).0 < text_len by {
            assert(rs[rs.len() - 1 - j].0 < text_len);
        }
        if cs.len() > 0 {
            assert forall|i: int| 0 <= i < cs.len() implies srs[0].0 <= #[trigger] cs[i] by {
                lemma_last_is_least(cs, i);
            }
        }
    } else {
        if cs.len() > 0 {
            assert forall|i: int| 0 <= i < cs.len() implies srs[0].0 <= #[trigger] cs[i] by {
                lemma_first_is_least(cs, i);
            }
        }
    }
}

/// Prefix sums of the text lengths telescope to the next run's cluster id.
proof fn lemma_text_prefix(cs: Seq<u32>, text_len: nat, backward: bool, m: int)
    requires
        monotone(cs, backward),
        clusters_in_range(cs, text_len),
        text_len <= u32::MAX,
        0 <= m <= source_runs(cs, backward).len(),
    ensures
        total_text_length(cluster_table(cs, text_len, backward).take(m)) == (if m == 0 {
            0
        } else if m < source_runs(cs, backward).len() {
            source_runs(cs, backward)[m].0 - source_runs(cs, backward)[0].0
        } else {
            text_len - source_runs(cs, backward)[0].0
        }),
    decreases m,
{
    let srs = source_runs(cs, backward);
    let table = cluster_table(cs, text_len, backward);
    lemma_source_runs(cs, text_len, backward);
    if m == 0 {
        assert(table.take(0) =~= Seq::<ClusterSpan>::empty());
    } else {
        lemma_text_prefix(cs, text_len, backward, m - 1);
        assert(table.take(m).drop_last() =~= table.take(m - 1));
        let v = span_text_length(srs, text_len, m - 1);
        assert(0 < v <= u32::MAX);
        assert(table.take(m).last().text_length == v);
    }
}

/// Conservation of source units: when the glyphs of a monotone run stay
/// inside the text and some glyph begins at its first unit, the text lengths
/// of the cluster table add up to the length of the text.
pub proof fn lemma_text_conservation(cs: Seq<u32>, text_len: nat, backward: bool)
    requires
        monotone(cs, backward),
        clusters_in_range(cs, text_len),
        text_len <= u32::MAX,
        cs.contains(0u32),
    ensures
        total_text_length(cluster_table(cs, text_len, backward)) == text_len,
{
    let srs = source_runs(cs, backward);
    let table = cluster_table(cs, text_len, backward);
    lemma_source_runs(cs, text_len, backward);
    lemma_runs_shape(cs);
    let k = srs.len() as int;
    let z = choose|i: int| 0 <= i < cs.len() && cs[i] == 0u32;
    assert(srs[0].0 <= cs[z]);
    lemma_text_prefix(cs, text_len, backward, k);
    assert(table.take(k) =~= table);
}

proof fn lemma_glyph_prefix(cs: Seq<u32>, text_len: nat, backward: bool, m: int)
    requires
        cs.len() <= u32::MAX,
        0 <= m <= source_runs(cs, backward).len(),
    ensures
        total_glyph_count(cluster_table(cs, text_len, backward).take(m)) == run_glyphs(
            source_runs(cs, backward).take(m),
        ),
    decreases m,
{
    let rs = runs(cs);
    let srs = source_runs(cs, backward);
    let table = cluster_table(cs, text_len, backward);
    lemma_runs_shape(cs);
    if m == 0 {
        assert(table.take(0) =~= Seq::<ClusterSpan>::empty());
        assert(srs.take(0) =~= Seq::<(u32, nat)>::empty());
    } else {
        lemma_glyph_prefix(cs, text_len, backward, m - 1);
        assert(table.take(m).drop_last() =~= table.take(m - 1));
        assert(srs.take(m).drop_last() =~= srs.take(m - 1));
        if backward {
            assert(srs[m - 1] == rs[rs.len() - m]);
        }
        assert(srs[m - 1].1 <= cs.len());
    }
}

/// Conservation of glyphs: the glyph counts of the cluster table add up to
/// the number of glyphs, the table has between one entry and one per glyph
/// (none for no glyphs), and the placed glyphs are the glyphs and one phantom.
pub proof fn lemma_glyph_conservation(gs: Seq<ShapedGlyph>, text_len: nat, backward: bool)
    requires
        gs.len() <= u32::MAX,
    ensures
        total_glyph_count(cluster_table(cluster_ids(gs), text_len, backward)) == gs.len(),
        render_glyphs(gs).len() == gs.len() + 1,
        (cluster_table(cluster_ids(gs), text_len, backward).len() == 0) == (gs.len() == 0),
        cluster_table(cluster_ids(gs), text_len, backward).len() <= gs.len(),
{
    let cs = cluster_ids(gs);
    let rs = runs(cs);
    let srs = source_runs(cs, backward);
    let table = cluster_table(cs, text_len, backward);
    lemma_runs_cover(cs);
    lemma_runs_shape(cs);
    lemma_run_glyphs_reverse(rs);
    assert(run_glyphs(srs) == cs.len());
    assert(cs.len() == gs.len());
    let k = srs.len() as int;
    lemma_glyph_prefix(cs, text_len, backward, k);
    assert(table.take(k) =~= table);
    assert(srs.take(k) =~= srs);
}

/// A run without glyphs has an empty cluster table, and its only placed
/// glyph is the phantom at the origin.
pub proof fn lemma_empty_run(gs: Seq<ShapedGlyph>, text_len: nat, backward: bool)
    requires
        gs.len() == 0,
    ensures
        cluster_table(cluster_ids(gs), text_len, backward).len() == 0,
        render_glyphs(gs) == seq![RenderGlyph { glyph_id: NO_GLYPH, x: 0, y: 0 }],
{
    lemma_runs_shape(cluster_ids(gs));
    assert(gs.take(0) =~= gs);
    assert(render_glyphs(gs) =~= seq![RenderGlyph { glyph_id: NO_GLYPH, x: 0, y: 0 }]);
}

/// Mirror symmetry: listing the glyphs of a forward run in reverse gives a
/// valid backward run over the same text, whose cluster table in source order
/// equals the forward one, and whose phantom glyph (the total advance) sits
/// at the same place.
pub proof fn lemma_backward_mirror(gs: Seq<ShapedGlyph>, text_len: nat)
    requires
        monotone(cluster_ids(gs), false),
    ensures
        monotone(cluster_ids(gs.reverse()), true),
        clusters_in_range(cluster_ids(gs.reverse()), text_len) == clusters_in_range(
            cluster_ids(gs),
            text_len,
        ),
        cluster_table(cluster_ids(gs.reverse()), text_len, true) == cluster_table(
            cluster_ids(gs),
            text_len,
            false,
        ),
        render_glyphs(gs.reverse()).last() == render_glyphs(gs).last(),
{
    let cs = cluster_ids(gs);
    let rc = cluster_ids(gs.reverse());
    let n = gs.len() as int;
    assert(rc =~= cs.reverse());
    assert forall|i: int| 0 <= i < rc.len() - 1 implies rc[i] >= #[trigger] rc[i + 1] by {
        let a = n - 2 - i;
        assert(cs[a] <= cs[a + 1]);
    }
    assert(clusters_in_range(rc, text_len) == clusters_in_range(cs, text_len)) by {
        if clusters_in_range(cs, text_len) {
            assert forall|i: int| 0 <= i < rc.len() implies #[trigger] rc[i] < text_len by {
                assert(rc[i] == cs[n - 1 - i]);
            }
        }
        if clusters_in_range(rc, text_len) {
            assert forall|i: int| 0 <= i < cs.len() implies #[trigger] cs[i] < text_len by {
                assert(cs[i] == rc[n - 1 - i]);
            }
        }
    }
    lemma_runs_reverse(cs);
    assert(runs(cs).reverse().reverse() =~= runs(cs));
    assert(source_runs(rc, true) == source_runs(cs, false));
    lemma_sum_reverse(gs);
    assert(gs.reverse().take(n) =~= gs.reverse());
    assert(gs.take(n) =~= gs);
}

} // verus!
