use craft::render::Viewport;
use craft::terminal::{AnsiRenderer, PlacedNode};

fn placed(id: &str, ty: &str, cell: Option<(usize, usize)>) -> PlacedNode {
    PlacedNode { node_id: id.to_string(), node_type: ty.to_string(), cell }
}

#[test]
fn glyph_for_player_uses_at_sign() {
    assert_eq!(AnsiRenderer::glyph_for_type("Player"), '@');
    assert_eq!(AnsiRenderer::glyph_for_type("HRPlayer"), '@');
}

#[test]
fn glyph_for_enemy_uses_asterisk() {
    assert_eq!(AnsiRenderer::glyph_for_type("Enemy"), '*');
    assert_eq!(AnsiRenderer::glyph_for_type("HREnemy"), '*');
}

#[test]
fn viewport_resize_propagates_to_renderer() {
    let mut r = AnsiRenderer::new();
    r.resize(Viewport::new(40, 20));
    assert_eq!(r.viewport(), Viewport::new(40, 20));
    r.resize(Viewport::new(120, 30));
    assert_eq!(r.viewport(), Viewport::new(120, 30));
}

#[test]
fn glyphs_by_suffix_and_default() {
    assert_eq!(AnsiRenderer::glyph_for_type("Tower"), 'T');
    assert_eq!(AnsiRenderer::glyph_for_type("ScoreCounter"), '#');
    assert_eq!(AnsiRenderer::glyph_for_type("BossEnemy"), '*');
    assert_eq!(AnsiRenderer::glyph_for_type("MainPlayer"), '@');
    assert_eq!(AnsiRenderer::glyph_for_type("Wall"), '.');
}

#[test]
fn frame_has_header_legend_and_bordered_grid() {
    let mut r = AnsiRenderer::with_viewport(Viewport::new(5, 3));
    r.render_placed(&[placed("p1", "Player", Some((2, 1))), placed("off", "Enemy", None)], 2, 7);
    let frame = r.last_frame().expect("frame");
    assert_eq!(frame, "\x1b[H\x1b[2Jtick=7 nodes=2 viewport=5x3\n[p1]=@\n|---|\n| @ |\n|---|\n");
    assert_eq!(r.frames_rendered(), 1);
}

#[test]
fn later_nodes_draw_over_earlier_ones() {
    let mut r = AnsiRenderer::with_viewport(Viewport::new(4, 4));
    r.render_placed(&[placed("a", "Player", Some((1, 1))), placed("b", "Enemy", Some((1, 1)))], 2, 1);
    let frame = r.last_frame().unwrap();
    assert!(frame.contains("[a]=@ [b]=*\n"));
    assert!(frame.contains("|*-|") || frame.contains("|* |"));
}

#[test]
fn shutdown_clears_frame_buffer() {
    let mut r = AnsiRenderer::new();
    r.render_placed(&[], 0, 1);
    r.shutdown();
    assert!(r.last_frame().is_none());
}

#[test]
fn ansi_renderer_increments_frame_counter() {
    let mut r = AnsiRenderer::new();
    assert_eq!(r.frames_rendered(), 0);
    r.render_placed(&[], 0, 1);
    r.render_placed(&[], 0, 2);
    r.render_placed(&[], 0, 3);
    assert_eq!(r.frames_rendered(), 3);
}

#[test]
fn capabilities_is_text() {
    let r = AnsiRenderer::new();
    assert_eq!(r.capabilities().bits(), 1);
}
