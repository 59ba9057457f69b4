//! The ANSI terminal renderer: a bordered character grid with one glyph
//! per placed node, under a header line and a legend of the nodes drawn.

use vstd::prelude::*;
use crate::render::{Viewport, RenderCapabilities};
use crate::text::{decimal, push_str, push_char, push_decimal, str_eq};

verus! {

broadcast use vstd::string::group_string_axioms;

/// Whether `s` ends with `suffix`.
pub open spec fn ends_with(s: Seq<char>, suffix: Seq<char>) -> bool {
    suffix.len() <= s.len() && s.subrange(s.len() - suffix.len(), s.len() as int) == suffix
}

/// The glyph a node type is drawn with.
pub open spec fn glyph(t: Seq<char>) -> char {
    if t == "Player"@ || t == "BRPlayer"@ || t == "M7Player"@ || t == "HRPlayer"@ || t == "Probe"@ {
        '@'
    } else if t == "Enemy"@ || t == "HREnemy"@ || t == "Mob"@ || t == "Bullet"@ {
        '*'
    } else if t == "Tower"@ || t == "Spawner"@ {
        'T'
    } else if ends_with(t, "Counter"@) {
        '#'
    } else if ends_with(t, "Enemy"@) {
        '*'
    } else if ends_with(t, "Player"@) {
        '@'
    } else {
        '.'
    }
}

/// The last characters of a sequence that ends with a given suffix are
/// the suffix's last characters.
proof fn lemma_ends_with_tail(t: Seq<char>, suffix: Seq<char>, k: int)
    requires
        ends_with(t, suffix),
        1 <= k <= suffix.len(),
    ensures
        t[t.len() - k] == suffix[suffix.len() - k],
{
    assert(t.subrange(t.len() - suffix.len(), t.len() as int)[suffix.len() - k] == suffix[suffix.len() - k]);
}

/// The glyph classes of node types: `T` exactly for towers and spawners;
/// `#` exactly for types whose name ends in `Counter`; `*` exactly for
/// mobs, bullets and types whose name ends in `Enemy`; `@` exactly for
/// probes and types whose name ends in `Player`; `.` for every other type.
pub proof fn law_glyph_classes(t: Seq<char>)
    ensures
        glyph(t) == 'T' <==> (t == "Tower"@ || t == "Spawner"@),
        glyph(t) == '#' <==> ends_with(t, "Counter"@),
        glyph(t) == '*' <==> (t == "Mob"@ || t == "Bullet"@ || ends_with(t, "Enemy"@)),
        glyph(t) == '@' <==> (t == "Probe"@ || ends_with(t, "Player"@)),
        glyph(t) == '.' <==> !(t == "Tower"@ || t == "Spawner"@ || ends_with(t, "Counter"@) || t == "Mob"@
            || t == "Bullet"@ || ends_with(t, "Enemy"@) || t == "Probe"@ || ends_with(t, "Player"@)),
{
    reveal_strlit("Player"); reveal_strlit("BRPlayer"); reveal_strlit("M7Player"); reveal_strlit("HRPlayer");
    reveal_strlit("Probe"); reveal_strlit("Enemy"); reveal_strlit("HREnemy"); reveal_strlit("Mob");
    reveal_strlit("Bullet"); reveal_strlit("Tower"); reveal_strlit("Spawner"); reveal_strlit("Counter");
    let n = t.len() as int;
    if ends_with(t, "Counter"@) {
        lemma_ends_with_tail(t, "Counter"@, 1);
        lemma_ends_with_tail(t, "Counter"@, 3);
        lemma_ends_with_tail(t, "Counter"@, 7);
    }
    if ends_with(t, "Enemy"@) {
        lemma_ends_with_tail(t, "Enemy"@, 1);
    }
    if ends_with(t, "Player"@) {
        lemma_ends_with_tail(t, "Player"@, 1);
        lemma_ends_with_tail(t, "Player"@, 3);
        lemma_ends_with_tail(t, "Player"@, 6);
    }
    if t == "Tower"@ {
        assert(t[0] == 'T' && t.len() == 5);
        assert(t != "Probe"@ && t != "Enemy"@);
    }
    if t == "Spawner"@ {
        assert(t[0] == 'S' && t.len() == 7);
        assert(t != "HREnemy"@);
    }
    if t == "Enemy"@ || t == "HREnemy"@ {
        assert(t.subrange(n - 5, n) =~= "Enemy"@);
    }
    if t == "Player"@ || t == "BRPlayer"@ || t == "M7Player"@ || t == "HRPlayer"@ {
        assert(t.subrange(n - 6, n) =~= "Player"@);
    }
}

fn ends_with_str(s: &str, suffix: &str) -> (r: bool)
    ensures
        r == ends_with(s@, suffix@),
{
    let sc = crate::text::to_chars(s);
    let xc = crate::text::to_chars(suffix);
    if xc.len() > sc.len() {
        return false;
    }
    let sl = sc.len();
    let off = sl - xc.len();
    let mut i: usize = 0;
    while i < xc.len()
        invariant
            sc@ == s@,
            xc@ == suffix@,
            off == sc@.len() - xc@.len(),
            sc@.len() == off + xc@.len(),
            sl == sc@.len(),
            i <= xc@.len(),
            forall|k: int| 0 <= k < i ==> sc@[off + k] == xc@[k],
        decreases xc.len() - i,
    {
        assert(off + i < sc@.len());
        if sc[off + i] != xc[i] {
            assert(s@.subrange(off as int, s@.len() as int)[i as int] != suffix@[i as int]);
            return false;
        }
        i += 1;
    }
    assert(s@.subrange(off as int, s@.len() as int) =~= suffix@);
    true
}

/// A node as the terminal draws it: its id, its type, and the grid cell
/// its position projects to (none when it has no position or falls
/// outside the viewport).
#[derive(Debug, Clone)]
pub struct PlacedNode {
    pub node_id: String,
    pub node_type: String,
    pub cell: Option<(usize, usize)>,
}

/// The border character of cell `(x, y)`: `|` down the sides, `-` along
/// top and bottom, blank inside.
pub open spec fn border_char(w: nat, h: nat, x: nat, y: nat) -> char {
    if x == 0 || x as u64 + 1 == w as u64 {
        '|'
    } else if y == 0 || y as u64 + 1 == h as u64 {
        '-'
    } else {
        ' '
    }
}

/// The character of cell `(x, y)`: the glyph of the last node placed
/// there, or else the border.
pub open spec fn cell_char(placed: Seq<PlacedNode>, w: nat, h: nat, x: nat, y: nat) -> char
    decreases placed.len(),
{
    if placed.len() == 0 {
        border_char(w, h, x, y)
    } else if placed.last().cell == Some((x as usize, y as usize)) {
        glyph(placed.last().node_type@)
    } else {
        cell_char(placed.drop_last(), w, h, x, y)
    }
}

/// The first `n` characters of grid row `y`.
pub open spec fn row_text(placed: Seq<PlacedNode>, w: nat, h: nat, y: nat, n: nat) -> Seq<char>
    decreases n,
{
    if n == 0 {
        Seq::empty()
    } else {
        row_text(placed, w, h, y, (n - 1) as nat).push(cell_char(placed, w, h, (n - 1) as nat, y))
    }
}

/// The first `n` grid rows, each ended by a newline.
pub open spec fn grid_text(placed: Seq<PlacedNode>, w: nat, h: nat, n: nat) -> Seq<char>
    decreases n,
{
    if n == 0 {
        Seq::empty()
    } else {
        grid_text(placed, w, h, (n - 1) as nat) + row_text(placed, w, h, (n - 1) as nat, w) + "\n"@
    }
}

/// The legend: `[id]=glyph ` for each placed node, in order.
pub open spec fn legend(placed: Seq<PlacedNode>) -> Seq<char>
    decreases placed.len(),
{
    if placed.len() == 0 {
        Seq::empty()
    } else {
        legend(placed.drop_last()) + if placed.last().cell is Some {
            "["@ + placed.last().node_id@ + "]="@ + seq![glyph(placed.last().node_type@)] + " "@
        } else {
            Seq::<char>::empty()
        }
    }
}

/// The legend without its trailing space.
pub open spec fn trimmed_legend(placed: Seq<PlacedNode>) -> Seq<char> {
    let l = legend(placed);
    if l.len() == 0 { l } else { l.drop_last() }
}

/// A whole frame: clear-screen codes, a header line, the legend, then
/// the grid.
pub open spec fn frame_text(placed: Seq<PlacedNode>, node_count: nat, tick: nat, w: nat, h: nat) -> Seq<char> {
    "\x1b[H\x1b[2J"@ + "tick="@ + decimal(tick) + " nodes="@ + decimal(node_count) + " viewport="@
        + decimal(w) + "x"@ + decimal(h) + "\n"@ + trimmed_legend(placed) + "\n"@ + grid_text(placed, w, h, h)
}

/// Draws frames as text on an ANSI terminal.
#[derive(Debug)]
pub struct AnsiRenderer {
    viewport: Viewport,
    last_frame: Option<String>,
    frame_counter: u64,
}

impl AnsiRenderer {
    pub closed spec fn current_viewport(&self) -> Viewport {
        self.viewport
    }

    pub closed spec fn frames(&self) -> u64 {
        self.frame_counter
    }

    pub closed spec fn last(&self) -> Option<Seq<char>> {
        match self.last_frame {
            Some(f) => Some(f@),
            None => None,
        }
    }

    /// A renderer for an 80x24 terminal.
    pub fn new() -> (r: Self)
        ensures
            r.current_viewport() == (Viewport { width: 80, height: 24 }),
            r.frames() == 0,
            r.last() is None,
    {
        Self::with_viewport(Viewport::default_for_terminal())
    }

    /// A renderer for the given viewport.
    pub fn with_viewport(viewport: Viewport) -> (r: Self)
        ensures
            r.current_viewport() == viewport,
            r.frames() == 0,
            r.last() is None,
    {
        AnsiRenderer { viewport, last_frame: None, frame_counter: 0 }
    }

    /// The last frame drawn, until shutdown.
    pub fn last_frame(&self) -> (r: Option<&str>)
        ensures
            match r {
                Some(s) => self.last() == Some(s@),
                None => self.last() is None,
            },
    {
        match &self.last_frame {
            Some(f) => Some(f.as_str()),
            None => None,
        }
    }

    /// How many frames were drawn.
    pub fn frames_rendered(&self) -> (r: u64)
        ensures
            r == self.frames(),
    {
        self.frame_counter
    }

    /// The glyph a node type is drawn with.
    pub fn glyph_for_type(node_type: &str) -> (r: char)
        ensures
            r == glyph(node_type@),
    {
        proof {
            reveal_strlit("Player"); reveal_strlit("BRPlayer"); reveal_strlit("M7Player"); reveal_strlit("HRPlayer");
            reveal_strlit("Probe"); reveal_strlit("Enemy"); reveal_strlit("HREnemy"); reveal_strlit("Mob");
            reveal_strlit("Bullet"); reveal_strlit("Tower"); reveal_strlit("Spawner"); reveal_strlit("Counter");
        }
        if str_eq(node_type, "Player") || str_eq(node_type, "BRPlayer") || str_eq(node_type, "M7Player")
            || str_eq(node_type, "HRPlayer") || str_eq(node_type, "Probe") {
            '@'
        } else if str_eq(node_type, "Enemy") || str_eq(node_type, "HREnemy") || str_eq(node_type, "Mob")
            || str_eq(node_type, "Bullet") {
            '*'
        } else if str_eq(node_type, "Tower") || str_eq(node_type, "Spawner") {
            'T'
        } else if ends_with_str(node_type, "Counter") {
            '#'
        } else if ends_with_str(node_type, "Enemy") {
            '*'
        } else if ends_with_str(node_type, "Player") {
            '@'
        } else {
            '.'
        }
    }

    /// The viewport drawn into.
    pub fn viewport(&self) -> (r: Viewport)
        ensures
            r == self.current_viewport(),
    {
        self.viewport
    }

    /// Changes the viewport.
    pub fn resize(&mut self, viewport: Viewport)
        ensures
            final(self).current_viewport() == viewport,
            final(self).frames() == old(self).frames(),
            final(self).last() == old(self).last(),
    {
        self.viewport = viewport;
    }

    /// Drops the last frame.
    pub fn shutdown(&mut self)
        ensures
            final(self).last() is None,
            final(self).current_viewport() == old(self).current_viewport(),
            final(self).frames() == old(self).frames(),
    {
        self.last_frame = None;
    }

    /// Text output only.
    pub fn capabilities(&self) -> (r: RenderCapabilities)
        ensures
            r.bits == 1,
    {
        RenderCapabilities::text()
    }

    /// Draws a frame of `node_count` nodes at `tick` (the nodes already
    /// placed on the grid; cells outside the viewport are not drawn) and
    /// keeps it as the last frame. The frame count saturates at `u64::MAX`.
    pub fn render_placed(&mut self, placed: &[PlacedNode], node_count: usize, tick: u64)
        ensures
            final(self).last() == Some(frame_text(placed@, node_count as nat, tick as nat,
                old(self).current_viewport().width as nat, old(self).current_viewport().height as nat)),
            final(self).frames() == if old(self).frames() < u64::MAX { (old(self).frames() + 1) as u64 } else { u64::MAX },
            final(self).current_viewport() == old(self).current_viewport(),
    {
        if self.frame_counter < u64::MAX {
            self.frame_counter = self.frame_counter + 1;
        }
        let w = self.viewport.width;
        let h = self.viewport.height;
        let mut out = String::new();
        push_str(&mut out, "\x1b[H\x1b[2J");
        push_str(&mut out, "tick=");
        push_decimal(&mut out, tick);
        push_str(&mut out, " nodes=");
        push_decimal(&mut out, node_count as u64);
        push_str(&mut out, " viewport=");
        push_decimal(&mut out, w as u64);
        push_str(&mut out, "x");
        push_decimal(&mut out, h as u64);
        push_str(&mut out, "\n");
        let legend_text = legend_of(placed);
        let ghost lt = legend(placed@);
        let ghost head = out@;
        let n = legend_text.len();
        let m: usize = if n > 0 { n - 1 } else { 0 };
        let mut k: usize = 0;
        while k < m
            invariant
                legend_text@ == lt,
                n == lt.len(),
                m <= n,
                k <= m,
                out@ == head + lt.take(k as int),
            decreases m - k,
        {
            push_char(&mut out, legend_text[k]);
            assert(lt.take(k + 1) =~= lt.take(k as int).push(lt[k as int]));
            k += 1;
        }
        assert(lt.take(m as int) =~= trimmed_legend(placed@));
        push_str(&mut out, "\n");
        let ghost top = out@;
        let mut y: u32 = 0;
        assert(top + grid_text(placed@, w as nat, h as nat, 0) =~= top);
        while y < h
            invariant
                y <= h,
                out@ == top + grid_text(placed@, w as nat, h as nat, y as nat),
            decreases h - y,
        {
            let ghost row_start = out@;
            let mut x: u32 = 0;
            assert(row_start + row_text(placed@, w as nat, h as nat, y as nat, 0) =~= row_start);
            while x < w
                invariant
                    x <= w,
                    y < h,
                    out@ == row_start + row_text(placed@, w as nat, h as nat, y as nat, x as nat),
                decreases w - x,
            {
                let c = cell_at(placed, w, h, x, y);
                push_char(&mut out, c);
                assert(row_start + row_text(placed@, w as nat, h as nat, y as nat, (x + 1) as nat)
                    =~= row_start + row_text(placed@, w as nat, h as nat, y as nat, x as nat) + seq![c]);
                x += 1;
            }
            push_str(&mut out, "\n");
            proof { reveal_strlit("\n"); }
            assert(top + grid_text(placed@, w as nat, h as nat, (y + 1) as nat)
                =~= row_start + row_text(placed@, w as nat, h as nat, y as nat, w as nat) + "\n"@);
            y += 1;
        }
        proof {
            reveal_strlit("\x1b[H\x1b[2J"); reveal_strlit("tick="); reveal_strlit(" nodes="); reveal_strlit(" viewport=");
            reveal_strlit("x"); reveal_strlit("\n");
        }
        assert(out@ =~= frame_text(placed@, node_count as nat, tick as nat, w as nat, h as nat));
        self.last_frame = Some(out);
    }
}

/// The last node placed on a cell decides it, or else the border.
proof fn lemma_cell_char_suffix(placed: Seq<PlacedNode>, i: int, w: nat, h: nat, x: nat, y: nat)
    requires
        0 <= i <= placed.len(),
        forall|j: int| i <= j < placed.len() ==> (#[trigger] placed[j]).cell != Some((x as usize, y as usize)),
    ensures
        cell_char(placed, w, h, x, y) == cell_char(placed.take(i), w, h, x, y),
    decreases placed.len() - i,
{
    if i == placed.len() {
        assert(placed.take(i) =~= placed);
    } else {
        lemma_cell_char_suffix(placed.drop_last(), i, w, h, x, y);
        assert(placed.drop_last().take(i) =~= placed.take(i));
    }
}

fn cell_at(placed: &[PlacedNode], w: u32, h: u32, x: u32, y: u32) -> (r: char)
    ensures
        r == cell_char(placed@, w as nat, h as nat, x as nat, y as nat),
{
    let mut i: usize = placed.len();
    while i > 0
        invariant
            i <= placed@.len(),
            forall|j: int| i <= j < placed@.len() ==> (#[trigger] placed@[j]).cell != Some((x as usize, y as usize)),
        decreases i,
    {
        let hit = match placed[i - 1].cell {
            Some((cx, cy)) => cx == x as usize && cy == y as usize,
            None => false,
        };
        if hit {
            proof {
                lemma_cell_char_suffix(placed@, i as int, w as nat, h as nat, x as nat, y as nat);
                assert(placed@.take(i as int).drop_last() =~= placed@.take(i - 1));
            }
            return AnsiRenderer::glyph_for_type(placed[i - 1].node_type.as_str());
        }
        i -= 1;
    }
    proof {
        lemma_cell_char_suffix(placed@, 0, w as nat, h as nat, x as nat, y as nat);
        assert(placed@.take(0) =~= Seq::<PlacedNode>::empty());
    }
    if x == 0 || x as u64 + 1 == w as u64 {
        '|'
    } else if y == 0 || y as u64 + 1 == h as u64 {
        '-'
    } else {
        ' '
    }
}

/// The legend of the placed nodes.
fn legend_of(placed: &[PlacedNode]) -> (r: Vec<char>)
    ensures
        r@ == legend(placed@),
{
    let mut out: Vec<char> = Vec::new();
    let mut i: usize = 0;
    while i < placed.len()
        invariant
            i <= placed@.len(),
            out@ == legend(placed@.take(i as int)),
        decreases placed.len() - i,
    {
        assert(placed@.take(i + 1).drop_last() =~= placed@.take(i as int));
        let p = &placed[i];
        if p.cell.is_some() {
            let ghost before = out@;
            out.push('[');
            let idc = crate::text::to_chars(p.node_id.as_str());
            let mut j: usize = 0;
            while j < idc.len()
                invariant
                    j <= idc@.len(),
                    out@ == before + seq!['['] + idc@.take(j as int),
                decreases idc.len() - j,
            {
                out.push(idc[j]);
                assert(idc@.take(j + 1) =~= idc@.take(j as int).push(idc@[j as int]));
                j += 1;
            }
            out.push(']');
            out.push('=');
            out.push(AnsiRenderer::glyph_for_type(p.node_type.as_str()));
            out.push(' ');
            proof {
                reveal_strlit("["); reveal_strlit("]="); reveal_strlit(" ");
                assert(idc@.take(idc@.len() as int) =~= p.node_id@);
                assert(out@ =~= before + ("["@ + p.node_id@ + "]="@ + seq![glyph(p.node_type@)] + " "@));
            }
        } else {
            assert(legend(placed@.take(i + 1)) =~= legend(placed@.take(i as int)));
        }
        i += 1;
    }
    assert(placed@.take(placed@.len() as int) =~= placed@);
    out
}

} // verus!
