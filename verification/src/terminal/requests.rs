//! What a renderer has to be given before it can draw a screen.

use crate::framebuffer::Color;
use crate::terminal::emulator::TerminalCell;
use crate::terminal::emulator::TerminalScreen;
use crate::terminal::ink::EmojiImage;
use crate::terminal::ink::GlyphBitmap;
use crate::terminal::renderer::glyph_key;
use crate::terminal::renderer::glyph_key_spec;
use crate::terminal::renderer::is_box_char;
use crate::terminal::renderer::same_cell;
use crate::terminal::renderer::TerminalRenderer;
use vstd::prelude::*;

verus! {

broadcast use vstd::std_specs::hash::group_hash_axioms;

/// Something that a renderer has not looked for yet.
#[derive(Clone, Copy, Debug, PartialEq, Eq, Structural)]
pub enum GlyphRequest {
    /// The picture of a character, for cells of this height.
    Emoji(char, u32),
    /// The glyph of a character of text, perhaps bold, perhaps italic.
    Text(char, bool, bool),
}

impl TerminalRenderer {
    /// What has to be looked for before a cell can be drawn.  A picture is
    /// looked for first; where there is one, no glyph is needed.
    pub open spec fn cell_request(self, cell: TerminalCell) -> Option<GlyphRequest> {
        let cp = cell.ch as u32;
        if cell.ch == ' ' || cell.ch == '\0' {
            None
        } else if is_box_char(cp) {
            None
        } else if cp > 0xFF && self.has_emoji_font && !self.emoji_cache@.contains_key(cp) {
            Some(GlyphRequest::Emoji(cell.ch, self.emoji_height() as u32))
        } else if cp > 0xFF && self.emoji(cell.ch) is Some {
            None
        } else if !self.glyph_cache@.contains_key(
            glyph_key_spec(cell.ch, cell.bold, cell.italic),
        ) {
            Some(GlyphRequest::Text(cell.ch, cell.bold, cell.italic))
        } else {
            None
        }
    }

    /// What has to be looked for before cell `i` of the screen can be drawn.
    pub open spec fn missing_at(self, screen: TerminalScreen, i: int) -> Option<GlyphRequest> {
        if i < screen.rows * screen.cols && self.is_drawn(screen, i) {
            self.cell_request(screen.cells@[i])
        } else {
            None
        }
    }

    /// Nothing has to be looked for before the screen can be drawn.
    pub open spec fn is_complete(self, screen: TerminalScreen) -> bool {
        forall|i: int| #[trigger] self.missing_at(screen, i) is None
    }

    /// This is what the first cell that lacks something lacks.
    pub open spec fn lacks_first(self, screen: TerminalScreen, request: GlyphRequest) -> bool {
        exists|i: int|
            #[trigger] self.missing_at(screen, i) == Some(request) && forall|j: int|
                j < i ==> #[trigger] self.missing_at(screen, j) is None
    }

    /// The renderer is `before` once it has drawn the screen: only the cells to
    /// compare with are others.
    pub open spec fn has_drawn(self, before: TerminalRenderer, screen: TerminalScreen) -> bool {
        &&& self.prev_cells@ == TerminalRenderer::remembered(screen)
        &&& self.config == before.config
        &&& self.cell_width == before.cell_width
        &&& self.cell_height == before.cell_height
        &&& self.glyph_cache == before.glyph_cache
        &&& self.emoji_cache == before.emoji_cache
        &&& self.has_emoji_font == before.has_emoji_font
    }

    /// What has to be looked for before a cell can be drawn.
    pub fn request_for(&self, cell: &TerminalCell) -> (r: Option<GlyphRequest>)
        requires
            self.wf(),
        ensures
            r == self.cell_request(*cell),
    {
        let ch: char = cell.ch;
        let cp: u32 = ch as u32;
        if ch == ' ' || ch == '\0' {
            return None;
        }
        if (0x2500 <= cp && cp <= 0x25A0) || (0x2800 <= cp && cp <= 0x28FF) {
            return None;
        }
        if cp > 0xFF && self.has_emoji_font {
            match self.emoji_cache.get(&cp) {
                None => {
                    let height: u32 = self.cell_height.floor(u32::MAX as u64) as u32;
                    return Some(GlyphRequest::Emoji(ch, height));
                },
                Some(Some(_)) => {
                    return None;
                },
                Some(None) => {},
            }
        }
        let key: u64 = glyph_key(ch, cell.bold, cell.italic);
        if self.glyph_cache.contains_key(&key) {
            None
        } else {
            Some(GlyphRequest::Text(ch, cell.bold, cell.italic))
        }
    }

    /// What to look for next before the screen can be drawn: what the first
    /// cell to be drawn lacks.
    pub fn next_request(&self, screen: &TerminalScreen) -> (r: Option<GlyphRequest>)
        requires
            self.wf(),
            screen.rows * screen.cols <= usize::MAX,
        ensures
            r is None <==> self.is_complete(*screen),
            r matches Some(request) ==> self.lacks_first(*screen, request),
    {
        let total: usize = screen.rows * screen.cols;
        let is_full_render: bool = self.prev_cells.len() != total;
        let mut i: usize = 0;
        while i < total && i < screen.cells.len()
            invariant
                self.wf(),
                total == screen.rows * screen.cols,
                is_full_render == self.starts_over(*screen),
                forall|j: int| j < i ==> #[trigger] self.missing_at(*screen, j) is None,
            decreases total - i,
        {
            let cell: TerminalCell = screen.cells[i];
            let unchanged: bool = !is_full_render && i < self.prev_cells.len() && same_cell(
                &self.prev_cells[i],
                &cell,
            );
            if !unchanged {
                let request: Option<GlyphRequest> = self.request_for(&cell);
                if request.is_some() {
                    assert(self.missing_at(*screen, i as int) == request);
                    return request;
                }
            }
            i = i + 1;
        }
        None
    }

    /// Everything but the caches is the same.
    pub open spec fn same_setting(self, other: TerminalRenderer) -> bool {
        &&& self.config == other.config
        &&& self.cell_width == other.cell_width
        &&& self.cell_height == other.cell_height
        &&& self.has_emoji_font == other.has_emoji_font
        &&& self.prev_cells@ == other.prev_cells@
    }

    /// Gives the renderer a glyph, or that no font has it.
    pub fn supply_glyph(&mut self, ch: char, bold: bool, italic: bool, bitmap: Option<GlyphBitmap>)
        requires
            old(self).wf(),
        ensures
            final(self).wf(),
            final(self).same_setting(*old(self)),
            final(self).glyph_cache@ == old(self).glyph_cache@.insert(
                glyph_key_spec(ch, bold, italic),
                bitmap,
            ),
            final(self).emoji_cache@ == old(self).emoji_cache@,
            final(self).answers(*old(self), GlyphRequest::Text(ch, bold, italic)),
            final(self).glyph(glyph_key_spec(ch, bold, italic)) == bitmap,
    {
        let ghost given = bitmap;
        self.glyph_cache.insert(glyph_key(ch, bold, italic), bitmap);
        proof {
            lemma_glyph_answers(*old(self), *self, ch, bold, italic, given);
        }
    }

    /// Gives the renderer a picture, or that the font has none.
    pub fn supply_emoji(&mut self, ch: char, image: Option<EmojiImage>)
        requires
            old(self).wf(),
        ensures
            final(self).wf(),
            final(self).same_setting(*old(self)),
            final(self).glyph_cache@ == old(self).glyph_cache@,
            final(self).emoji_cache@ == old(self).emoji_cache@.insert(ch as u32, image),
            forall|height: u32|
                #[trigger] final(self).answers(*old(self), GlyphRequest::Emoji(ch, height)),
            final(self).has_emoji_font ==> final(self).emoji(ch) == image,
    {
        let ghost given = image;
        self.emoji_cache.insert(ch as u32, image);
        proof {
            lemma_emoji_answers(*old(self), *self, ch, given);
        }
    }

    /// How many answers a cell may still wait for.
    pub open spec fn pending(self, cell: TerminalCell) -> nat {
        match self.cell_request(cell) {
            None => 0,
            Some(GlyphRequest::Emoji(_, _)) => 2,
            Some(_) => 1,
        }
    }

    /// The renderer is `before` with an answer to a request.
    pub open spec fn answers(self, before: TerminalRenderer, request: GlyphRequest) -> bool {
        &&& self.same_setting(before)
        &&& match request {
            GlyphRequest::Emoji(ch, _) => {
                &&& self.glyph_cache@ == before.glyph_cache@
                &&& exists|image: Option<EmojiImage>|
                    self.emoji_cache@ == #[trigger] before.emoji_cache@.insert(ch as u32, image)
            },
            GlyphRequest::Text(ch, bold, italic) => {
                &&& self.emoji_cache@ == before.emoji_cache@
                &&& exists|bitmap: Option<GlyphBitmap>|
                    self.glyph_cache@ == #[trigger] before.glyph_cache@.insert(
                        glyph_key_spec(ch, bold, italic),
                        bitmap,
                    )
            },
        }
    }

    /// Where both caches have an entry, it is the same one.
    pub open spec fn agrees(self, other: TerminalRenderer) -> bool {
        &&& forall|key: u64|
            #![trigger self.glyph_cache@.contains_key(key)]
            #![trigger other.glyph_cache@.contains_key(key)]
            self.glyph_cache@.contains_key(key) && other.glyph_cache@.contains_key(key)
                ==> self.glyph_cache@[key] == other.glyph_cache@[key]
        &&& forall|cp: u32|
            #![trigger self.emoji_cache@.contains_key(cp)]
            #![trigger other.emoji_cache@.contains_key(cp)]
            self.emoji_cache@.contains_key(cp) && other.emoji_cache@.contains_key(cp)
                ==> self.emoji_cache@[cp] == other.emoji_cache@[cp]
    }
}

impl TerminalRenderer {
    /// How many answers cell `i` of the screen may still wait for.
    pub open spec fn pending_at(self, screen: TerminalScreen, i: int) -> nat {
        if i < screen.rows * screen.cols && self.is_drawn(screen, i) {
            self.pending(screen.cells@[i])
        } else {
            0
        }
    }

    /// How many answers the first `n` cells of the screen may still wait for.
    pub open spec fn waits_for(self, screen: TerminalScreen, n: nat) -> nat
        decreases n,
    {
        if n == 0 {
            0
        } else {
            self.waits_for(screen, (n - 1) as nat) + self.pending_at(screen, n - 1)
        }
    }
}

/// A glyph that is supplied answers the request for it.
proof fn lemma_glyph_answers(
    before: TerminalRenderer,
    after: TerminalRenderer,
    ch: char,
    bold: bool,
    italic: bool,
    bitmap: Option<GlyphBitmap>,
)
    requires
        after.same_setting(before),
        after.emoji_cache@ == before.emoji_cache@,
        after.glyph_cache@ == before.glyph_cache@.insert(glyph_key_spec(ch, bold, italic), bitmap),
    ensures
        after.answers(before, GlyphRequest::Text(ch, bold, italic)),
{
    let request = GlyphRequest::Text(ch, bold, italic);
    assert(after.glyph_cache@ == before.glyph_cache@.insert(
        glyph_key_spec(request->Text_0, request->Text_1, request->Text_2),
        bitmap,
    ));
}

/// A picture that is supplied answers the request for it.
proof fn lemma_emoji_answers(
    before: TerminalRenderer,
    after: TerminalRenderer,
    ch: char,
    image: Option<EmojiImage>,
)
    requires
        after.same_setting(before),
        after.glyph_cache@ == before.glyph_cache@,
        after.emoji_cache@ == before.emoji_cache@.insert(ch as u32, image),
    ensures
        forall|height: u32|
            #[trigger] after.answers(before, GlyphRequest::Emoji(ch, height)),
{
    assert forall|height: u32|
        #[trigger] after.answers(before, GlyphRequest::Emoji(ch, height)) by {
        let request = GlyphRequest::Emoji(ch, height);
        assert(after.emoji_cache@ == before.emoji_cache@.insert(request->Emoji_0 as u32, image));
    }
}

/// The second renderer is the first with an answer to what it lacked first.
pub open spec fn is_answered(
    before: TerminalRenderer,
    after: TerminalRenderer,
    screen: TerminalScreen,
) -> bool {
    exists|request: GlyphRequest|
        before.lacks_first(screen, request) && #[trigger] after.answers(before, request)
}

/// The renderer asks and is answered, time and again.
pub open spec fn is_asking(renderers: Seq<TerminalRenderer>, screen: TerminalScreen) -> bool {
    &&& renderers.len() > 0
    &&& forall|i: int|
        0 <= i && i + 1 < renderers.len() ==> is_answered(
            #[trigger] renderers[i],
            renderers[i + 1],
            screen,
        )
}

/// Every answer brings the drawing nearer: the cell that asked waits for fewer
/// answers than before, and no other cell for more.
pub proof fn lemma_answers_settle(
    before: TerminalRenderer,
    after: TerminalRenderer,
    cell: TerminalCell,
    other: TerminalCell,
)
    requires
        before.cell_request(cell) matches Some(request) && after.answers(before, request),
    ensures
        after.pending(cell) < before.pending(cell),
        after.pending(other) <= before.pending(other),
{
}

/// An answer to what cell `i` lacks leaves fewer answers to wait for.
proof fn lemma_answer_counts(
    before: TerminalRenderer,
    after: TerminalRenderer,
    screen: TerminalScreen,
    i: int,
    n: nat,
)
    requires
        before.missing_at(screen, i) matches Some(request) && after.answers(before, request),
    ensures
        after.waits_for(screen, n) <= before.waits_for(screen, n),
        i < n ==> after.waits_for(screen, n) < before.waits_for(screen, n),
    decreases n,
{
    if n > 0 {
        lemma_answer_counts(before, after, screen, i, (n - 1) as nat);
        assert(after.is_drawn(screen, n - 1) == before.is_drawn(screen, n - 1));
        if before.is_drawn(screen, n - 1) {
            lemma_answers_settle(before, after, screen.cells@[i], screen.cells@[n - 1]);
        }
    }
}

/// A cell waits for two answers at most, and for none where nothing is lacking.
proof fn lemma_waits_at_most(r: TerminalRenderer, screen: TerminalScreen, n: nat)
    ensures
        r.waits_for(screen, n) <= 2 * n,
        r.waits_for(screen, n) == 0 ==> forall|i: int|
            i < n ==> #[trigger] r.missing_at(screen, i) is None,
    decreases n,
{
    if n > 0 {
        lemma_waits_at_most(r, screen, (n - 1) as nat);
        if r.waits_for(screen, n) == 0 {
            assert forall|i: int| i < n implies #[trigger] r.missing_at(screen, i) is None by {
                if i == n - 1 {
                    assert(r.pending_at(screen, i) == 0);
                }
            }
        }
    }
}

/// Asking comes to an end: two answers a cell are enough, and they change
/// nothing but what was looked for.
pub proof fn lemma_asking_ends(renderers: Seq<TerminalRenderer>, screen: TerminalScreen)
    requires
        is_asking(renderers, screen),
    ensures
        renderers.len() <= 2 * screen.cells@.len() + 1,
        renderers.len() == 2 * screen.cells@.len() + 1 ==> renderers.last().is_complete(screen),
        renderers.last().same_setting(renderers[0]),
{
    let n = screen.cells@.len();
    lemma_asking_counts(renderers, screen);
    lemma_waits_at_most(renderers[0], screen, n);
    lemma_waits_at_most(renderers.last(), screen, n);
}

/// Every answer counts.
proof fn lemma_asking_counts(renderers: Seq<TerminalRenderer>, screen: TerminalScreen)
    requires
        is_asking(renderers, screen),
    ensures
        renderers.last().waits_for(screen, screen.cells@.len()) + renderers.len() - 1
            <= renderers[0].waits_for(screen, screen.cells@.len()),
        renderers.last().same_setting(renderers[0]),
    decreases renderers.len(),
{
    if renderers.len() > 1 {
        let first = renderers.drop_last();
        assert forall|i: int| 0 <= i && i + 1 < first.len() implies is_answered(
            #[trigger] first[i],
            first[i + 1],
            screen,
        ) by {
            assert(renderers[i] == first[i] && renderers[i + 1] == first[i + 1]);
        }
        lemma_asking_counts(first, screen);
        let before = renderers[renderers.len() - 2];
        let after = renderers[renderers.len() - 1];
        assert(is_answered(renderers[renderers.len() - 2], after, screen));
        let request = choose|request: GlyphRequest|
            before.lacks_first(screen, request) && #[trigger] after.answers(before, request);
        let i = choose|i: int|
            #[trigger] before.missing_at(screen, i) == Some(request) && forall|j: int|
                j < i ==> #[trigger] before.missing_at(screen, j) is None;
        lemma_answer_counts(before, after, screen, i, screen.cells@.len());
    }
}

/// What a cell looks like does not depend on what else was looked for: two
/// renderers that agree and lack nothing for a cell draw it alike.
proof fn lemma_complete_cells_agree(
    a: TerminalRenderer,
    b: TerminalRenderer,
    cell: TerminalCell,
    behind_wide: bool,
    col: nat,
    row: nat,
    px: int,
    py: int,
    under: Color,
)
    requires
        a.same_setting(b),
        a.agrees(b),
        a.cell_request(cell) is None,
        b.cell_request(cell) is None,
    ensures
        a.cell_over(cell, behind_wide, col, row, px, py, under) == b.cell_over(
            cell,
            behind_wide,
            col,
            row,
            px,
            py,
            under,
        ),
{
}

/// What a screen looks like does not depend on what else was looked for: two
/// renderers that agree and lack nothing for the screen draw it alike.
pub proof fn lemma_complete_renderers_agree(
    a: TerminalRenderer,
    b: TerminalRenderer,
    screen: TerminalScreen,
    px: int,
    py: int,
    before: Color,
)
    requires
        a.same_setting(b),
        a.agrees(b),
        a.is_complete(screen),
        b.is_complete(screen),
    ensures
        a.rendered(screen, px, py, before) == b.rendered(screen, px, py, before),
{
    let start = if a.starts_over(screen) {
        Color { r: 0, g: 0, b: 0 }
    } else {
        before
    };
    lemma_complete_prefixes_agree(a, b, screen, (screen.rows * screen.cols) as nat, px, py, start);
}

proof fn lemma_complete_prefixes_agree(
    a: TerminalRenderer,
    b: TerminalRenderer,
    screen: TerminalScreen,
    n: nat,
    px: int,
    py: int,
    start: Color,
)
    requires
        a.same_setting(b),
        a.agrees(b),
        a.is_complete(screen),
        b.is_complete(screen),
        n <= screen.rows * screen.cols,
    ensures
        a.drawn(screen, n, px, py, start) == b.drawn(screen, n, px, py, start),
    decreases n,
{
    if n > 0 {
        let i = n - 1;
        lemma_complete_prefixes_agree(a, b, screen, i as nat, px, py, start);
        assert(a.missing_at(screen, i) is None);
        assert(b.missing_at(screen, i) is None);
        if a.is_drawn(screen, i) {
            let col = i % (screen.cols as int);
            let row = i / (screen.cols as int);
            lemma_complete_cells_agree(
                a,
                b,
                screen.cells@[i],
                col > 0 && screen.cells@[i - 1].wide,
                col as nat,
                row as nat,
                px,
                py,
                a.drawn(screen, i as nat, px, py, start),
            );
        }
    }
}

} // verus!
