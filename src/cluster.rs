use vstd::prelude::*;
use vstd::string::StrSliceExecFns;
use crate::cluster_lemmas::{
    lemma_glyph_conservation, lemma_text_conservation, total_glyph_count, total_text_length,
};

verus! {

/// Direction codes as the shaping engine numbers them.
pub const DIRECTION_INVALID: u32 = 0;
pub const DIRECTION_LTR: u32 = 4;
pub const DIRECTION_RTL: u32 = 5;
pub const DIRECTION_TTB: u32 = 6;
pub const DIRECTION_BTT: u32 = 7;

/// True for the two vertical directions (top-to-bottom, bottom-to-top).
pub fn hb_direction_is_vertical(dir: u32) -> (r: bool)
    ensures
        r == (dir == DIRECTION_TTB || dir == DIRECTION_BTT),
{
    let r = dir & !1u32 == 6;
    assert(r == (dir == 6 || dir == 7)) by (bit_vector)
        requires
            r == (dir & !1u32 == 6),
    ;
    r
}

/// True for the two backward directions (right-to-left, bottom-to-top).
pub fn hb_direction_is_backward(dir: u32) -> (r: bool)
    ensures
        r == (dir == DIRECTION_RTL || dir == DIRECTION_BTT),
{
    let r = dir & !2u32 == 5;
    assert(r == (dir == 5 || dir == 7)) by (bit_vector)
        requires
            r == (dir & !2u32 == 5),
    ;
    r
}

/// Glyph id of the trailing phantom glyph that only carries the total advance.
pub const NO_GLYPH: u64 = 0xFFFF_FFFF_FFFF_FFFF;

/// One glyph as the shaping engine hands it out: the glyph, the index in the
/// source text at which its cluster begins, and its advance and offset in
/// design units.
#[derive(Clone, Copy, Debug, PartialEq, Eq, Structural)]
pub struct ShapedGlyph {
    pub glyph_id: u32,
    pub cluster_id: u32,
    pub x_advance: i32,
    pub y_advance: i32,
    pub x_offset: i32,
    pub y_offset: i32,
}

/// A glyph placed at a pen position, in design units with the y axis pointing
/// down. The device position is this value times two to the run's scale bits.
#[derive(Clone, Copy, Debug, PartialEq, Eq, Structural)]
pub struct RenderGlyph {
    pub glyph_id: u64,
    pub x: i64,
    pub y: i64,
}

/// A run of glyphs and the run of source text they stand for.
#[derive(Clone, Copy, Debug, PartialEq, Eq, Structural)]
pub struct ClusterSpan {
    pub text_length: u32,
    pub glyph_count: u32,
}

/// Why a shaped run cannot be projected.
#[derive(Clone, Copy, Debug, PartialEq, Eq, Structural)]
pub enum ProjectionError {
    /// The cluster ids do not move in the run's direction.
    NonMonotone,
    /// A cluster id does not index a unit of the text.
    ClusterOutOfRange,
}

pub open spec fn cluster_ids(gs: Seq<ShapedGlyph>) -> Seq<u32> {
    gs.map_values(|g: ShapedGlyph| g.cluster_id)
}

/// Cluster ids never decrease (forward) or never increase (backward) along
/// the glyph sequence.
pub open spec fn monotone(cs: Seq<u32>, backward: bool) -> bool {
    forall|i: int|
        0 <= i < cs.len() - 1 ==> (if backward {
            cs[i] >= #[trigger] cs[i + 1]
        } else {
            cs[i] <= #[trigger] cs[i + 1]
        })
}

/// Every cluster id indexes a unit of a text of `text_len` units.
pub open spec fn clusters_in_range(cs: Seq<u32>, text_len: nat) -> bool {
    forall|i: int| 0 <= i < cs.len() ==> #[trigger] cs[i] < text_len
}

/// The maximal runs of equal cluster ids, in glyph order, each as its cluster
/// id and its number of glyphs.
pub open spec fn runs(cs: Seq<u32>) -> Seq<(u32, nat)>
    decreases cs.len(),
{
    if cs.len() == 0 {
        seq![]
    } else {
        let prev = runs(cs.drop_last());
        if prev.len() > 0 && prev.last().0 == cs.last() {
            prev.update(prev.len() - 1, (cs.last(), prev.last().1 + 1))
        } else {
            prev.push((cs.last(), 1nat))
        }
    }
}

/// The runs in the order of the source text: a backward run lists its glyphs
/// last source unit first.
pub open spec fn source_runs(cs: Seq<u32>, backward: bool) -> Seq<(u32, nat)> {
    if backward {
        runs(cs).reverse()
    } else {
        runs(cs)
    }
}

/// Source units that run `j` (in source order) stands for: up to the next
/// run's cluster id, or to the end of the text for the last run.
pub open spec fn span_text_length(rs: Seq<(u32, nat)>, text_len: nat, j: int) -> int {
    if j + 1 < rs.len() {
        rs[j + 1].0 - rs[j].0
    } else {
        text_len - rs[j].0
    }
}

/// The cluster table, in source order.
pub open spec fn cluster_table(cs: Seq<u32>, text_len: nat, backward: bool) -> Seq<ClusterSpan> {
    let rs = source_runs(cs, backward);
    Seq::new(
        rs.len(),
        |j: int|
            ClusterSpan {
                text_length: span_text_length(rs, text_len, j) as u32,
                glyph_count: rs[j].1 as u32,
            },
    )
}

/// Sum of the horizontal advances.
pub open spec fn sum_x_advance(gs: Seq<ShapedGlyph>) -> int
    decreases gs.len(),
{
    if gs.len() == 0 {
        0
    } else {
        sum_x_advance(gs.drop_last()) + gs.last().x_advance
    }
}

/// Sum of the vertical advances.
pub open spec fn sum_y_advance(gs: Seq<ShapedGlyph>) -> int
    decreases gs.len(),
{
    if gs.len() == 0 {
        0
    } else {
        sum_y_advance(gs.drop_last()) + gs.last().y_advance
    }
}

/// Pen position before glyph `i`; the y axis is flipped to point down.
pub open spec fn pen_x(gs: Seq<ShapedGlyph>, i: int) -> int {
    sum_x_advance(gs.take(i))
}

pub open spec fn pen_y(gs: Seq<ShapedGlyph>, i: int) -> int {
    -sum_y_advance(gs.take(i))
}

/// Placed glyph `i`, or the phantom glyph at the final pen position when
/// `i` is the number of glyphs.
pub open spec fn render_glyph_at(gs: Seq<ShapedGlyph>, i: int) -> RenderGlyph {
    if i < gs.len() {
        RenderGlyph {
            glyph_id: gs[i].glyph_id as u64,
            x: (pen_x(gs, i) + gs[i].x_offset) as i64,
            y: (pen_y(gs, i) - gs[i].y_offset) as i64,
        }
    } else {
        RenderGlyph { glyph_id: NO_GLYPH, x: pen_x(gs, i) as i64, y: pen_y(gs, i) as i64 }
    }
}

pub open spec fn render_glyphs(gs: Seq<ShapedGlyph>) -> Seq<RenderGlyph> {
    Seq::new(gs.len() + 1, |i: int| render_glyph_at(gs, i))
}

/// Places each glyph at the running pen position plus its offset, and appends
/// the phantom glyph at the final pen position.
fn position_glyphs(glyphs: &Vec<ShapedGlyph>) -> (r: Vec<RenderGlyph>)
    requires
        glyphs.len() <= u32::MAX,
    ensures
        r@ == render_glyphs(glyphs@),
{
    let ghost gs = glyphs@;
    let mut r: Vec<RenderGlyph> = Vec::new();
    let mut x: i64 = 0;
    let mut y: i64 = 0;
    let mut i: usize = 0;
    while i < glyphs.len()
        invariant
            gs == glyphs@,
            i <= gs.len() <= u32::MAX,
            x == pen_x(gs, i as int),
            y == pen_y(gs, i as int),
            -(i as int) * 0x8000_0000 <= x <= (i as int) * 0x8000_0000,
            -(i as int) * 0x8000_0000 <= y <= (i as int) * 0x8000_0000,
            r@ =~= Seq::new(i as nat, |k: int| render_glyph_at(gs, k)),
        decreases gs.len() - i,
    {
        let g = glyphs[i];
        r.push(
            RenderGlyph {
                glyph_id: g.glyph_id as u64,
                x: x + g.x_offset as i64,
                y: y - g.y_offset as i64,
            },
        );
        assert(gs.take(i + 1).drop_last() =~= gs.take(i as int));
        x = x + g.x_advance as i64;
        y = y - g.y_advance as i64;
        i = i + 1;
    }
    assert(gs.take(i as int) =~= gs);
    r.push(RenderGlyph { glyph_id: NO_GLYPH, x, y });
    assert(r@ =~= render_glyphs(gs));
    r
}

/// Shape facts about the run partition: it is empty exactly for no glyphs, it
/// starts and ends with the first and last cluster id, and each run holds
/// between one and all of the glyphs.
pub(crate) proof fn lemma_runs_shape(cs: Seq<u32>)
    ensures
        (runs(cs).len() == 0) == (cs.len() == 0),
        runs(cs).len() <= cs.len(),
        cs.len() > 0 ==> runs(cs)[0].0 == cs[0] && runs(cs).last().0 == cs.last(),
        forall|j: int| 0 <= j < runs(cs).len() ==> 1 <= #[trigger] runs(cs)[j].1 <= cs.len(),
    decreases cs.len(),
{
    if cs.len() > 0 {
        let d = cs.drop_last();
        lemma_runs_shape(d);
        if d.len() > 0 {
            assert(d[0] == cs[0]);
        }
    }
}

/// Every run's cluster id is below any bound that all cluster ids are below.
pub(crate) proof fn lemma_runs_bounded(cs: Seq<u32>, b: nat)
    requires
        clusters_in_range(cs, b),
    ensures
        forall|j: int| 0 <= j < runs(cs).len() ==> (#[trigger] runs(cs)[j]).0 < b,
    decreases cs.len(),
{
    if cs.len() > 0 {
        let d = cs.drop_last();
        assert(clusters_in_range(d, b)) by {
            assert forall|i: int| 0 <= i < d.len() implies #[trigger] d[i] < b by {
                assert(d[i] == cs[i]);
            }
        }
        lemma_runs_bounded(d, b);
        let prev = runs(d);
        assert(cs[cs.len() - 1] < b);
        assert forall|j: int| 0 <= j < runs(cs).len() implies (#[trigger] runs(cs)[j]).0 < b by {
            if j < prev.len() {
                assert(prev[j].0 < b);
            }
        }
    }
}

/// In a monotone run the cluster ids of successive runs strictly increase
/// (forward) or strictly decrease (backward).
pub(crate) proof fn lemma_runs_ordered(cs: Seq<u32>, backward: bool)
    requires
        monotone(cs, backward),
    ensures
        forall|j: int|
            0 <= j < runs(cs).len() - 1 ==> (if backward {
                runs(cs)[j].0 > (#[trigger] runs(cs)[j + 1]).0
            } else {
                runs(cs)[j].0 < (#[trigger] runs(cs)[j + 1]).0
            }),
    decreases cs.len(),
{
    if cs.len() > 0 {
        let d = cs.drop_last();
        assert(monotone(d, backward)) by {
            assert forall|i: int| 0 <= i < d.len() - 1 implies (if backward {
                d[i] >= #[trigger] d[i + 1]
            } else {
                d[i] <= #[trigger] d[i + 1]
            }) by {
                assert(d[i] == cs[i] && d[i + 1] == cs[i + 1]);
            }
        }
        lemma_runs_ordered(d, backward);
        lemma_runs_shape(d);
        if d.len() > 0 {
            assert(cs[cs.len() - 2] == d.last());
            let k = cs.len() - 2;
            assert(if backward { cs[k] >= cs[k + 1] } else { cs[k] <= cs[k + 1] });
        }
    }
}

/// Runs of equal cluster ids, in glyph order, as (cluster id, glyph count).
fn partition_runs(glyphs: &Vec<ShapedGlyph>) -> (r: Vec<(u32, u32)>)
    requires
        glyphs.len() <= u32::MAX,
    ensures
        r@.len() == runs(cluster_ids(glyphs@)).len(),
        forall|j: int|
            0 <= j < r@.len() ==> (#[trigger] r@[j]).0 == runs(cluster_ids(glyphs@))[j].0
                && r@[j].1 == runs(cluster_ids(glyphs@))[j].1,
{
    let ghost cs = cluster_ids(glyphs@);
    let mut r: Vec<(u32, u32)> = Vec::new();
    let mut i: usize = 0;
    while i < glyphs.len()
        invariant
            cs == cluster_ids(glyphs@),
            i <= glyphs.len() <= u32::MAX,
            r@.len() == runs(cs.take(i as int)).len(),
            forall|j: int|
                0 <= j < r@.len() ==> (#[trigger] r@[j]).0 == runs(cs.take(i as int))[j].0
                    && r@[j].1 == runs(cs.take(i as int))[j].1,
        decreases glyphs.len() - i,
    {
        let c = glyphs[i].cluster_id;
        let ghost pre = cs.take(i as int);
        let ghost post = cs.take(i + 1);
        proof {
            assert(post.drop_last() =~= pre);
            assert(post.last() == c);
            lemma_runs_shape(pre);
        }
        let n = r.len();
        if n > 0 && r[n - 1].0 == c {
            let last = r[n - 1];
            r.set(n - 1, (c, last.1 + 1));
        } else {
            r.push((c, 1));
        }
        proof {
            assert forall|j: int| 0 <= j < r@.len() implies (#[trigger] r@[j]).0 == runs(post)[j].0
                && r@[j].1 == runs(post)[j].1 by {}
        }
        i = i + 1;
    }
    assert(cs.take(i as int) =~= cs);
    r
}

/// Length of a text in the unit that cluster ids count: UTF-8 bytes or
/// Unicode scalar values.
pub open spec fn text_units(text: Seq<char>, utf8_clusters: bool) -> nat {
    if utf8_clusters {
        vstd::utf8::encode_utf8(text).len()
    } else {
        text.len()
    }
}

/// Whether the cluster ids of `glyphs` move in the run's direction.
fn is_monotone(glyphs: &Vec<ShapedGlyph>, backward: bool) -> (r: bool)
    ensures
        r == monotone(cluster_ids(glyphs@), backward),
{
    let ghost cs = cluster_ids(glyphs@);
    let mut i: usize = 1;
    while i < glyphs.len()
        invariant
            cs == cluster_ids(glyphs@),
            1 <= i,
            forall|k: int|
                0 <= k < i - 1 && k < cs.len() - 1 ==> (if backward {
                    cs[k] >= #[trigger] cs[k + 1]
                } else {
                    cs[k] <= #[trigger] cs[k + 1]
                }),
        decreases glyphs.len() - i,
    {
        let a = glyphs[i - 1].cluster_id;
        let b = glyphs[i].cluster_id;
        if (backward && a < b) || (!backward && a > b) {
            assert(cs[i - 1] == a && cs[i - 1 + 1] == b);
            return false;
        }
        i = i + 1;
    }
    true
}

/// Whether every cluster id of `glyphs` is below `text_len`.
fn clusters_fit(glyphs: &Vec<ShapedGlyph>, text_len: usize) -> (r: bool)
    ensures
        r == clusters_in_range(cluster_ids(glyphs@), text_len as nat),
{
    let ghost cs = cluster_ids(glyphs@);
    let mut i: usize = 0;
    while i < glyphs.len()
        invariant
            cs == cluster_ids(glyphs@),
            i <= glyphs.len(),
            forall|k: int| 0 <= k < i ==> #[trigger] cs[k] < text_len,
        decreases glyphs.len() - i,
    {
        if glyphs[i].cluster_id as usize >= text_len {
            assert(cs[i as int] == glyphs@[i as int].cluster_id);
            return false;
        }
        i = i + 1;
    }
    true
}

/// One shaped line made ready for painting: the placed glyphs (the last one
/// the phantom glyph), the text, and the cluster table in source order.
pub struct HelperCairoLine {
    pub glyphs: Vec<RenderGlyph>,
    pub utf8: String,
    pub text_clusters: Vec<ClusterSpan>,
    pub backward: bool,
    pub scale_bits: i32,
}

impl HelperCairoLine {
    /// Total advance of the line: the position of the phantom glyph.
    pub fn advance(&self) -> (r: (i64, i64))
        requires
            self.glyphs.len() > 0,
        ensures
            r == (self.glyphs@.last().x, self.glyphs@.last().y),
    {
        let g = self.glyphs[self.glyphs.len() - 1];
        (g.x, g.y)
    }

    /// Projects the shaped glyphs of one line of `text` onto placed glyphs and
    /// a cluster table. Cluster ids count UTF-8 bytes when `utf8_clusters`,
    /// else Unicode scalar values; `backward` runs list their glyphs last
    /// source unit first, and their table is still given in source order.
    ///
    /// Each span reaches from its run's cluster id to the next larger one in
    /// the run, or to the end of the text. Runs are maximal, so no span is
    /// empty in either direction; a cluster id at or past the end of the text
    /// would make one empty, and is refused.
    pub fn from_buffer(
        glyphs: &Vec<ShapedGlyph>,
        text: &str,
        scale_bits: i32,
        utf8_clusters: bool,
        backward: bool,
    ) -> (r: Result<HelperCairoLine, ProjectionError>)
        requires
            glyphs.len() <= u32::MAX,
            text_units(text@, utf8_clusters) <= u32::MAX,
        ensures
            match r {
                Ok(line) => {
                    &&& monotone(cluster_ids(glyphs@), backward)
                    &&& clusters_in_range(cluster_ids(glyphs@), text_units(text@, utf8_clusters))
                    &&& line.glyphs@ == render_glyphs(glyphs@)
                    &&& line.text_clusters@ == cluster_table(
                        cluster_ids(glyphs@),
                        text_units(text@, utf8_clusters),
                        backward,
                    )
                    &&& total_glyph_count(line.text_clusters@) == glyphs@.len()
                    &&& cluster_ids(glyphs@).contains(0u32) ==> total_text_length(
                        line.text_clusters@,
                    ) == text_units(text@, utf8_clusters)
                    &&& line.utf8@ == text@
                    &&& line.backward == backward
                    &&& line.scale_bits == scale_bits
                },
                Err(ProjectionError::NonMonotone) => !monotone(cluster_ids(glyphs@), backward),
                Err(ProjectionError::ClusterOutOfRange) => {
                    &&& monotone(cluster_ids(glyphs@), backward)
                    &&& !clusters_in_range(
                        cluster_ids(glyphs@),
                        text_units(text@, utf8_clusters),
                    )
                },
            },
    {
        let ghost cs = cluster_ids(glyphs@);
        let units: usize = if utf8_clusters {
            text.len()
        } else {
            text.unicode_len()
        };
        let ghost tl = units as nat;
        if !is_monotone(glyphs, backward) {
            return Err(ProjectionError::NonMonotone);
        }
        if !clusters_fit(glyphs, units) {
            return Err(ProjectionError::ClusterOutOfRange);
        }
        let placed = position_glyphs(glyphs);
        let rs = partition_runs(glyphs);
        proof {
            lemma_runs_shape(cs);
            lemma_runs_ordered(cs, backward);
            lemma_runs_bounded(cs, tl);
        }
        let ghost table = cluster_table(cs, tl, backward);
        let k = rs.len();
        let mut spans: Vec<ClusterSpan> = Vec::new();
        let mut j: usize = 0;
        while j < k
            invariant
                k == rs@.len() == runs(cs).len() == table.len(),
                j <= k,
                units == tl,
                tl <= u32::MAX,
                table == cluster_table(cs, tl, backward),
                forall|m: int|
                    0 <= m < rs@.len() ==> (#[trigger] rs@[m]).0 == runs(cs)[m].0 && rs@[m].1
                        == runs(cs)[m].1,
                forall|m: int| 0 <= m < runs(cs).len() ==> (#[trigger] runs(cs)[m]).0 < tl,
                forall|m: int|
                    0 <= m < runs(cs).len() - 1 ==> (if backward {
                        runs(cs)[m].0 > (#[trigger] runs(cs)[m + 1]).0
                    } else {
                        runs(cs)[m].0 < (#[trigger] runs(cs)[m + 1]).0
                    }),
                spans@ =~= table.take(j as int),
            decreases k - j,
        {
            let g: usize = if backward {
                k - 1 - j
            } else {
                j
            };
            let (c, count) = rs[g];
            let text_length: u32 = if j + 1 < k {
                let next: usize = if backward {
                    g - 1
                } else {
                    g + 1
                };
                proof {
                    if backward {
                        assert(runs(cs)[next as int].0 > runs(cs)[next as int + 1].0);
                    }
                }
                rs[next].0 - c
            } else {
                units as u32 - c
            };
            spans.push(ClusterSpan { text_length, glyph_count: count });
            proof {
                let srs = source_runs(cs, backward);
                assert(srs[j as int] == runs(cs)[g as int]);
                if j + 1 < k {
                    assert(srs[j + 1] == runs(cs)[if backward {
                        g - 1
                    } else {
                        g + 1
                    }]);
                }
                assert(table[j as int] == ClusterSpan { text_length, glyph_count: count });
            }
            j = j + 1;
        }
        assert(spans@ =~= table);
        proof {
            lemma_glyph_conservation(glyphs@, tl, backward);
            if cs.contains(0u32) {
                lemma_text_conservation(cs, tl, backward);
            }
        }
        Ok(
            HelperCairoLine {
                glyphs: placed,
                utf8: text.to_owned(),
                text_clusters: spans,
                backward,
                scale_bits,
            },
        )
    }
}

} // verus!
