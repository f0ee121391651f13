use hb_util::{
    hb_direction_is_backward, hb_direction_is_vertical, ClusterSpan, HelperCairoLine,
    ProjectionError, RenderGlyph, ShapedGlyph, NO_GLYPH,
};

fn glyph(glyph_id: u32, cluster_id: u32, x_advance: i32) -> ShapedGlyph {
    ShapedGlyph { glyph_id, cluster_id, x_advance, y_advance: 0, x_offset: 0, y_offset: 0 }
}

fn span(text_length: u32, glyph_count: u32) -> ClusterSpan {
    ClusterSpan { text_length, glyph_count }
}

#[test]
fn empty_run_has_only_the_phantom_glyph() {
    let line = HelperCairoLine::from_buffer(&Vec::new(), "abc", 6, false, false).unwrap();
    assert!(line.text_clusters.is_empty());
    assert_eq!(line.glyphs, vec![RenderGlyph { glyph_id: NO_GLYPH, x: 0, y: 0 }]);
    assert_eq!(line.advance(), (0, 0));
}

#[test]
fn ligature_gives_one_span_of_two_units() {
    let line = HelperCairoLine::from_buffer(&vec![glyph(42, 0, 500)], "fi", 0, false, false)
        .unwrap();
    assert_eq!(line.text_clusters, vec![span(2, 1)]);
}

#[test]
fn decomposition_gives_one_span_of_two_glyphs() {
    let glyphs = vec![glyph(3, 0, 300), glyph(4, 0, 0)];
    let line = HelperCairoLine::from_buffer(&glyphs, "a", 0, false, false).unwrap();
    assert_eq!(line.text_clusters, vec![span(1, 2)]);
}

#[test]
fn forward_run_positions_and_table() {
    let glyphs = vec![
        ShapedGlyph { glyph_id: 1, cluster_id: 0, x_advance: 100, y_advance: 10, x_offset: 5, y_offset: 7 },
        ShapedGlyph { glyph_id: 2, cluster_id: 1, x_advance: 200, y_advance: -4, x_offset: -3, y_offset: 0 },
        ShapedGlyph { glyph_id: 3, cluster_id: 1, x_advance: 0, y_advance: 0, x_offset: 9, y_offset: -2 },
        ShapedGlyph { glyph_id: 4, cluster_id: 3, x_advance: 50, y_advance: 0, x_offset: 0, y_offset: 0 },
    ];
    let line = HelperCairoLine::from_buffer(&glyphs, "abcde", 6, false, false).unwrap();
    assert_eq!(
        line.glyphs,
        vec![
            RenderGlyph { glyph_id: 1, x: 5, y: -7 },
            RenderGlyph { glyph_id: 2, x: 97, y: -10 },
            RenderGlyph { glyph_id: 3, x: 309, y: -4 },
            RenderGlyph { glyph_id: 4, x: 300, y: -6 },
            RenderGlyph { glyph_id: NO_GLYPH, x: 350, y: -6 },
        ]
    );
    assert_eq!(line.text_clusters, vec![span(1, 1), span(2, 2), span(2, 1)]);
    assert_eq!(line.advance(), (350, -6));
    assert_eq!(line.utf8, "abcde");
    assert_eq!(line.scale_bits, 6);
    assert!(!line.backward);
}

#[test]
fn conservation_of_units_and_glyphs() {
    let glyphs = vec![glyph(1, 0, 1), glyph(2, 2, 1), glyph(3, 2, 1), glyph(4, 5, 1), glyph(5, 6, 1)];
    let text = "abcdefgh";
    let line = HelperCairoLine::from_buffer(&glyphs, text, 0, false, false).unwrap();
    let units: u32 = line.text_clusters.iter().map(|s| s.text_length).sum();
    let counted: u32 = line.text_clusters.iter().map(|s| s.glyph_count).sum();
    assert_eq!(units, 8);
    assert_eq!(counted, 5);
    assert_eq!(line.glyphs.len(), 6);
    assert!(line.text_clusters.len() >= 1 && line.text_clusters.len() <= glyphs.len());
}

#[test]
fn byte_clusters_count_utf8_bytes() {
    // "é" is two bytes, "x" one.
    let glyphs = vec![glyph(1, 0, 10), glyph(2, 2, 10)];
    let line = HelperCairoLine::from_buffer(&glyphs, "éx", 0, true, false).unwrap();
    assert_eq!(line.text_clusters, vec![span(2, 1), span(1, 1)]);
    let chars = vec![glyph(1, 0, 10), glyph(2, 1, 10)];
    let line = HelperCairoLine::from_buffer(&chars, "éx", 0, false, false).unwrap();
    assert_eq!(line.text_clusters, vec![span(1, 1), span(1, 1)]);
}

#[test]
fn backward_mirror_matches_forward() {
    let forward = vec![glyph(1, 0, 100), glyph(2, 1, 120), glyph(3, 1, 30), glyph(4, 4, 80)];
    let mut backward = forward.clone();
    backward.reverse();
    let f = HelperCairoLine::from_buffer(&forward, "abcdef", 0, false, false).unwrap();
    let b = HelperCairoLine::from_buffer(&backward, "abcdef", 0, false, true).unwrap();
    assert_eq!(f.text_clusters, vec![span(1, 1), span(3, 2), span(2, 1)]);
    assert_eq!(b.text_clusters, f.text_clusters);
    assert_eq!(b.advance(), f.advance());
    assert!(b.backward);
    assert_eq!(b.glyphs[0], RenderGlyph { glyph_id: 4, x: 0, y: 0 });
}

#[test]
fn non_monotone_clusters_are_refused() {
    let glyphs = vec![glyph(1, 1, 10), glyph(2, 0, 10)];
    let r = HelperCairoLine::from_buffer(&glyphs, "ab", 0, false, false);
    assert!(matches!(r, Err(ProjectionError::NonMonotone)));
    let glyphs = vec![glyph(1, 0, 10), glyph(2, 1, 10)];
    let r = HelperCairoLine::from_buffer(&glyphs, "ab", 0, false, true);
    assert!(matches!(r, Err(ProjectionError::NonMonotone)));
}

#[test]
fn clusters_outside_the_text_are_refused() {
    let glyphs = vec![glyph(1, 0, 10), glyph(2, 2, 10)];
    let r = HelperCairoLine::from_buffer(&glyphs, "ab", 0, false, false);
    assert!(matches!(r, Err(ProjectionError::ClusterOutOfRange)));
    let r = HelperCairoLine::from_buffer(&vec![glyph(1, 0, 10)], "", 0, false, false);
    assert!(matches!(r, Err(ProjectionError::ClusterOutOfRange)));
}

#[test]
fn direction_predicates() {
    assert!(!hb_direction_is_backward(4));
    assert!(hb_direction_is_backward(5));
    assert!(!hb_direction_is_backward(6));
    assert!(hb_direction_is_backward(7));
    assert!(!hb_direction_is_backward(0));
    assert!(!hb_direction_is_vertical(4));
    assert!(!hb_direction_is_vertical(5));
    assert!(hb_direction_is_vertical(6));
    assert!(hb_direction_is_vertical(7));
    assert!(!hb_direction_is_vertical(0));
}
