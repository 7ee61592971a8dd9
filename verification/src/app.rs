//! A terminal session as a client sees it: keys in, pictures out.

use crate::framebuffer::Framebuffer;
use crate::grid::cell_count;
use crate::grid::cell_count_spec;
use crate::grid::lemma_count_fits;
use crate::input::key_bytes;
use crate::input::modifiers_after;
use crate::input::InputEvent;
use crate::input::KeyEvent;
use crate::input::Modifiers;
use crate::single::Single;
use crate::terminal::emulator::TerminalEmulator;
use crate::terminal::emulator::TerminalError;
use crate::terminal::emulator::TerminalScreen;
use crate::terminal::engine::has_room;
use crate::terminal::engine::has_size;
use crate::terminal::pty::chars_of;
use crate::terminal::pty::PtyConfig;
use crate::terminal::redraw::lemma_redraw_is_idle;
use crate::terminal::renderer::RendererConfig;
use crate::terminal::renderer::TerminalRenderer;
use crate::terminal::requests::is_asking;
use crate::terminal::requests::lemma_asking_ends;
use crate::terminal::requests::GlyphRequest;
use crate::terminal::stream::fed_all;
use crate::terminal::stream::fed_with;
use crate::terminal::stream::lemma_fed_all;
use crate::terminal::stream::lemma_first_part;
use crate::terminal::stream::pieces;
use vstd::prelude::*;

verus! {

/// A terminal whose program's output is drawn into a picture.
pub struct TerminalApp {
    /// The program that was asked for.
    pub shell: Option<String>,
    /// The terminal, once a client is there.
    pub emulator: Option<TerminalEmulator>,
    pub renderer: TerminalRenderer,
    /// The modifier keys that are down.
    pub modifiers: Modifiers,
}

/// A copy of a string that may be absent.
fn copied(s: &Option<String>) -> (r: Option<String>)
    ensures
        chars_of(r) == chars_of(*s),
{
    match s {
        Some(t) => Some(t.clone()),
        None => None,
    }
}

impl TerminalApp {
    pub open spec fn wf(self) -> bool {
        &&& self.renderer.wf()
        &&& self.emulator matches Some(e) ==> e.wf()
    }

    /// The terminal has room for all the pieces.
    pub open spec fn accepts_all(self, pending: Seq<Vec<u8>>) -> bool {
        pending.len() > 0 ==> (self.emulator matches Some(e) && e.accepts(
            pieces(pending).flatten(),
        ))
    }

    /// A session that no client is connected to, with no key down.
    pub fn new(
        shell: Option<String>,
        font_size: Single,
        measured: Option<Single>,
        has_emoji_font: bool,
    ) -> (r: Result<Self, TerminalError>)
        requires
            font_size.is_font_size(),
            measured matches Some(width) ==> width.is_binary32(),
        ensures
            r matches Ok(app) && app.wf() && app.shell == shell && app.emulator is None
                && app.modifiers == (Modifiers { shift: false, ctrl: false, alt: false })
                && app.renderer.is_fresh(
                (RendererConfig { font_size }),
                measured,
                has_emoji_font,
            ),
    {
        let renderer = TerminalRenderer::new(
            RendererConfig { font_size },
            measured,
            has_emoji_font,
        );
        match renderer {
            Ok(renderer) => Ok(
                TerminalApp { shell, emulator: None, renderer, modifiers: Modifiers::none() },
            ),
            Err(e) => Err(e),
        }
    }

    /// What to start the program with for a client whose picture has the given
    /// size: as many columns and rows as fit into it.
    pub fn session(&self, width: u16, height: u16) -> (r: PtyConfig)
        requires
            self.renderer.wf(),
        ensures
            r.cols == cell_count_spec(width, self.renderer.cell_width),
            r.rows == cell_count_spec(height, self.renderer.cell_height),
            chars_of(r.shell) == chars_of(self.shell),
            r.term@ == "xterm-256color"@,
            self.renderer.cell_width.edge(r.cols as nat) <= width,
            self.renderer.cell_height.edge(r.rows as nat) <= height,
            r.cols < u16::MAX ==> width <= self.renderer.cell_width.edge((r.cols + 1) as nat),
            r.rows < u16::MAX ==> height <= self.renderer.cell_height.edge((r.rows + 1) as nat),
    {
        proof {
            lemma_count_fits(width, self.renderer.cell_width);
            lemma_count_fits(height, self.renderer.cell_height);
        }
        PtyConfig {
            cols: cell_count(width, &self.renderer.cell_width),
            rows: cell_count(height, &self.renderer.cell_height),
            shell: copied(&self.shell),
            term: "xterm-256color".to_owned(),
        }
    }

    /// A client is there and its program runs: starts with a blank terminal of
    /// the program's size.
    pub fn on_connect(&mut self, session: &PtyConfig) -> (r: Result<(), TerminalError>)
        requires
            old(self).wf(),
            has_size(session.cols as int, session.rows as int),
        ensures
            r is Ok,
            final(self).wf(),
            final(self).emulator matches Some(e) && e.columns() == session.cols && e.lines()
                == session.rows && e.fed() == Seq::<Seq<u8>>::empty(),
            final(self).shell == old(self).shell,
            final(self).renderer == old(self).renderer,
            final(self).modifiers == old(self).modifiers,
    {
        match TerminalEmulator::new(session.cols as usize, session.rows as usize) {
            Ok(emulator) => {
                self.emulator = Some(emulator);
                Ok(())
            },
            Err(e) => Err(e),
        }
    }

    /// Takes note of what the client sent and returns the bytes to hand to the
    /// program.  The mouse sends nothing.
    pub fn on_input(&mut self, event: &InputEvent) -> (r: Vec<u8>)
        ensures
            r@ == event_bytes(old(self).modifiers, *event),
            final(self).modifiers == modifiers_after_event(old(self).modifiers, *event),
            final(self).shell == old(self).shell,
            final(self).emulator == old(self).emulator,
            final(self).renderer == old(self).renderer,
    {
        match event {
            InputEvent::Mouse => Vec::new(),
            InputEvent::Key(key) => self.modifiers.key(key),
        }
    }

    /// Feeds the terminal what the program printed, piece by piece, and returns
    /// the screen to draw: none if nothing was printed.
    pub fn take_output(&mut self, pending: &Vec<Vec<u8>>) -> (r: Result<
        Option<TerminalScreen>,
        TerminalError,
    >)
        requires
            old(self).wf(),
            old(self).accepts_all(pending@),
        ensures
            final(self).wf(),
            final(self).shell == old(self).shell,
            final(self).renderer == old(self).renderer,
            final(self).modifiers == old(self).modifiers,
            pending@.len() == 0 ==> r == Ok::<Option<TerminalScreen>, TerminalError>(None)
                && final(self).emulator == old(self).emulator,
            pending@.len() > 0 ==> (r matches Ok(Some(screen)) && final(self).emulator matches Some(
                e,
            ) && e.shows(screen) && e.columns() == old(self).emulator->0.columns() && e.lines()
                == old(self).emulator->0.lines() && e.fed() == fed_all(
                old(self).emulator->0.fed(),
                pieces(pending@),
            )),
    {
        if pending.len() == 0 {
            return Ok(None);
        }
        match self.emulator.take() {
            Some(mut emulator) => {
                let ghost before = emulator;
                let ghost all = pieces(pending@);
                let mut i: usize = 0;
                while i < pending.len()
                    invariant
                        all == pieces(pending@),
                        i <= pending@.len(),
                        emulator.wf(),
                        emulator.columns() == before.columns(),
                        emulator.lines() == before.lines(),
                        emulator.fed() == fed_all(before.fed(), all.take(i as int)),
                        before.accepts(all.flatten()),
                    decreases pending@.len() - i,
                {
                    proof {
                        lemma_next_piece(before, all, i as int);
                    }
                    let _ = emulator.process_output(pending[i].as_slice());
                    i = i + 1;
                }
                assert(all.take(i as int) == all);
                let screen = emulator.get_screen();
                self.emulator = Some(emulator);
                match screen {
                    Ok(screen) => Ok(Some(screen)),
                    Err(e) => Err(e),
                }
            },
            None => Ok(None),
        }
    }

    /// Whether the terminal has room for all the pieces.
    pub fn accepts_pending(&self, pending: &Vec<Vec<u8>>) -> (r: bool)
        requires
            self.wf(),
        ensures
            r == self.accepts_all(pending@),
    {
        if pending.len() == 0 {
            return true;
        }
        match &self.emulator {
            Some(emulator) => emulator.accepts_pieces(pending),
            None => false,
        }
    }

    /// Everything but the renderer is the same.
    pub open spec fn same_session(self, other: TerminalApp) -> bool {
        &&& self.shell == other.shell
        &&& self.emulator == other.emulator
        &&& self.modifiers == other.modifiers
    }

    /// Shows what the program printed.  With nothing printed there is nothing to
    /// do.  Otherwise the terminal is fed every piece in the order in which it
    /// came, and its screen is drawn, or kept until what it lacks was looked
    /// for.
    pub fn render(&mut self, pending: &Vec<Vec<u8>>, framebuffer: &mut Framebuffer) -> (r: Result<
        Rendering,
        TerminalError,
    >)
        requires
            old(self).wf(),
            old(self).accepts_all(pending@),
            old(framebuffer).wf(),
        ensures
            final(self).wf(),
            final(framebuffer).wf(),
            final(framebuffer).same_size(*old(framebuffer)),
            final(self).shell == old(self).shell,
            final(self).modifiers == old(self).modifiers,
            r == Ok::<Rendering, TerminalError>(Rendering::Idle) <==> pending@.len() == 0,
            pending@.len() == 0 ==> *final(self) == *old(self) && *final(framebuffer) == *old(
                framebuffer,
            ),
            pending@.len() > 0 ==> (final(self).emulator matches Some(e) && e.columns() == old(
                self,
            ).emulator->0.columns() && e.lines() == old(self).emulator->0.lines() && e.fed()
                == fed_all(old(self).emulator->0.fed(), pieces(pending@))),
            pending@.len() > 0 ==> exists|screen: TerminalScreen|
                #[trigger] final(self).emulator->0.shows(screen) && is_step(
                    old(self).renderer,
                    final(self).renderer,
                    screen,
                    *old(framebuffer),
                    *final(framebuffer),
                    r,
                ),
    {
        match self.take_output(pending) {
            Ok(Some(screen)) => self.resume(screen, framebuffer),
            Ok(None) => Ok(Rendering::Idle),
            Err(e) => Err(e),
        }
    }

    /// Draws a screen of the terminal, unless there is still something to look
    /// for.
    pub fn resume(&mut self, screen: TerminalScreen, framebuffer: &mut Framebuffer) -> (r: Result<
        Rendering,
        TerminalError,
    >)
        requires
            old(self).wf(),
            old(framebuffer).wf(),
            screen.rows * screen.cols <= usize::MAX,
            screen.cols + 2 <= usize::MAX,
            screen.rows < usize::MAX,
        ensures
            final(self).wf(),
            final(framebuffer).wf(),
            final(framebuffer).same_size(*old(framebuffer)),
            final(self).same_session(*old(self)),
            final(self).shell == old(self).shell,
            final(self).emulator == old(self).emulator,
            final(self).modifiers == old(self).modifiers,
            is_step(
                old(self).renderer,
                final(self).renderer,
                screen,
                *old(framebuffer),
                *final(framebuffer),
                r,
            ),
    {
        match self.renderer.next_request(&screen) {
            Some(request) => Ok(Rendering::Missing(screen, request)),
            None => match self.renderer.render(&screen, framebuffer) {
                Ok(()) => Ok(Rendering::Drawn),
                Err(e) => Err(e),
            },
        }
    }
}

/// How far the drawing of a screen came.
pub enum Rendering {
    /// There was nothing to draw.
    Idle,
    /// The screen is in the picture, which is then worth sending.
    Drawn,
    /// The screen can be drawn once this was looked for.
    Missing(TerminalScreen, GlyphRequest),
}

/// What comes of drawing a screen.  Where nothing is lacking, every pixel is
/// drawn once and the cells are remembered.  Otherwise picture and renderer are
/// as they were, and the screen is handed back with the first thing that is
/// lacking.
pub open spec fn is_step(
    before: TerminalRenderer,
    after: TerminalRenderer,
    screen: TerminalScreen,
    old_picture: Framebuffer,
    new_picture: Framebuffer,
    result: Result<Rendering, TerminalError>,
) -> bool {
    if before.is_complete(screen) {
        &&& result == Ok::<Rendering, TerminalError>(Rendering::Drawn)
        &&& after.has_drawn(before, screen)
        &&& forall|px: int, py: int|
            old_picture.has(px, py) ==> #[trigger] new_picture.at(px, py) == before.rendered(
                screen,
                px,
                py,
                old_picture.at(px, py),
            )
    } else {
        &&& result matches Ok(Rendering::Missing(kept, request)) && kept == screen
            && before.lacks_first(screen, request)
        &&& after == before
        &&& new_picture == old_picture
    }
}

/// Once a screen was drawn, drawing it again changes nothing and lacks nothing.
pub proof fn lemma_drawn_screen_is_settled(
    before: TerminalRenderer,
    after: TerminalRenderer,
    screen: TerminalScreen,
    old_picture: Framebuffer,
    new_picture: Framebuffer,
    px: int,
    py: int,
)
    requires
        is_step(
            before,
            after,
            screen,
            old_picture,
            new_picture,
            Ok::<Rendering, TerminalError>(Rendering::Drawn),
        ),
        screen.cells@.len() <= screen.rows * screen.cols,
    ensures
        after.is_complete(screen),
        after.rendered(screen, px, py, new_picture.at(px, py)) == new_picture.at(px, py),
{
    assert(after.prev_cells@.len() == screen.rows * screen.cols);
    assert forall|i: int| #[trigger] after.missing_at(screen, i) is None by {
        assert(!after.is_drawn(screen, i));
    }
    lemma_redraw_is_idle(after, screen, px, py, new_picture.at(px, py));
}

/// A round of drawing as a whole, from the screen that `render` found to the
/// picture: whatever the answers are, after two a cell at most nothing is
/// lacking, and the screen is drawn.  It is drawn once, on the picture as it was
/// when the output came, and the answers do not decide which cells are drawn.
pub proof fn lemma_round(
    renderers: Seq<TerminalRenderer>,
    after: TerminalRenderer,
    screen: TerminalScreen,
    old_picture: Framebuffer,
    new_picture: Framebuffer,
    result: Result<Rendering, TerminalError>,
)
    requires
        is_asking(renderers, screen),
        is_step(renderers.last(), after, screen, old_picture, new_picture, result),
    ensures
        renderers.len() <= 2 * screen.cells@.len() + 1,
        renderers.len() == 2 * screen.cells@.len() + 1 ==> result == Ok::<Rendering, TerminalError>(
            Rendering::Drawn,
        ),
        result != Ok::<Rendering, TerminalError>(Rendering::Drawn) ==> new_picture == old_picture,
        result == Ok::<Rendering, TerminalError>(Rendering::Drawn) ==> {
            &&& after.prev_cells@ == TerminalRenderer::remembered(screen)
            &&& renderers.last().starts_over(screen) == renderers[0].starts_over(screen)
            &&& forall|i: int|
                #[trigger] renderers.last().is_drawn(screen, i) == renderers[0].is_drawn(screen, i)
            &&& forall|px: int, py: int|
                old_picture.has(px, py) ==> #[trigger] new_picture.at(px, py)
                    == renderers.last().rendered(screen, px, py, old_picture.at(px, py))
        },
{
    lemma_asking_ends(renderers, screen);
}

/// A terminal that has room for all the pieces has room for the next one after
/// those before it.
proof fn lemma_next_piece(before: TerminalEmulator, all: Seq<Seq<u8>>, i: int)
    requires
        0 <= i < all.len(),
        before.accepts(all.flatten()),
    ensures
        has_room(
            before.columns(),
            before.lines(),
            fed_all(before.fed(), all.take(i)),
            all[i],
        ),
        fed_all(before.fed(), all.take(i + 1)) == fed_with(
            fed_all(before.fed(), all.take(i)),
            all[i],
        ),
{
    let first = all.take(i);
    let next = all.take(i + 1);
    let rest = all.skip(i + 1);
    let start = before.fed().flatten();
    lemma_fed_all(before.fed(), first);
    assert(next.drop_last() == first);
    assert(next.last() == all[i]);
    first.lemma_flatten_push(all[i]);
    assert(first.push(all[i]) == next);
    vstd::seq_lib::lemma_flatten_concat(next, rest);
    assert(next + rest == all);
    let x = start + first.flatten() + all[i];
    assert(start + all.flatten() == x + rest.flatten());
    lemma_first_part(x, rest.flatten());
    if all[i].len() > 0 {
        assert(all.flatten().len() > 0);
    }
}

/// What an event sends to the program.
pub open spec fn event_bytes(mods: Modifiers, event: InputEvent) -> Seq<u8> {
    match event {
        InputEvent::Mouse => Seq::empty(),
        InputEvent::Key(key) => key_bytes(mods, key),
    }
}

/// The modifiers that are down after an event.
pub open spec fn modifiers_after_event(mods: Modifiers, event: InputEvent) -> Modifiers {
    match event {
        InputEvent::Mouse => mods,
        InputEvent::Key(key) => modifiers_after(mods, key),
    }
}

/// Makes sessions that are set up alike, one for each client.
pub struct TerminalAppFactory {
    pub shell: Option<String>,
    pub font_size: Single,
}

impl TerminalAppFactory {
    /// A new session.
    pub fn create(&self, measured: Option<Single>, has_emoji_font: bool) -> (r: Result<
        TerminalApp,
        TerminalError,
    >)
        requires
            self.font_size.is_font_size(),
            measured matches Some(width) ==> width.is_binary32(),
        ensures
            r matches Ok(app) && app.wf() && chars_of(app.shell) == chars_of(self.shell)
                && app.emulator is None && app.modifiers == (Modifiers {
                shift: false,
                ctrl: false,
                alt: false,
            }) && app.renderer.is_fresh(
                (RendererConfig { font_size: self.font_size }),
                measured,
                has_emoji_font,
            ),
    {
        TerminalApp::new(copied(&self.shell), self.font_size, measured, has_emoji_font)
    }
}

/// What the client sends reaches the program as its key says, and only keys do:
/// the mouse sends nothing and moves no modifier.
pub proof fn lemma_events(mods: Modifiers, key: KeyEvent)
    ensures
        event_bytes(mods, InputEvent::Mouse).len() == 0,
        modifiers_after_event(mods, InputEvent::Mouse) == mods,
        event_bytes(mods, InputEvent::Key(key)) == key_bytes(mods, key),
        modifiers_after_event(mods, InputEvent::Key(key)) == modifiers_after(mods, key),
{
}

/// What comes of drawing a screen: it is drawn exactly when nothing is lacking.
/// Then every pixel of the picture is what the renderer makes of it and the
/// renderer remembers the screen; otherwise picture and renderer are as they
/// were, and the first thing that is lacking is asked for.
pub proof fn lemma_step(
    before: TerminalRenderer,
    after: TerminalRenderer,
    screen: TerminalScreen,
    old_picture: Framebuffer,
    new_picture: Framebuffer,
    result: Result<Rendering, TerminalError>,
    px: int,
    py: int,
)
    requires
        is_step(before, after, screen, old_picture, new_picture, result),
    ensures
        result is Ok,
        result == Ok::<Rendering, TerminalError>(Rendering::Drawn) <==> forall|i: int|
            0 <= i < screen.cells@.len() && i < screen.rows * screen.cols && before.is_drawn(
                screen,
                i,
            ) ==> before.cell_request(#[trigger] screen.cells@[i]) is None,
        result == Ok::<Rendering, TerminalError>(Rendering::Drawn) && old_picture.has(px, py)
            ==> new_picture.at(px, py) == before.rendered(screen, px, py, old_picture.at(px, py)),
        result == Ok::<Rendering, TerminalError>(Rendering::Drawn) ==> {
            &&& after.prev_cells@.len() >= screen.rows * screen.cols
            &&& after.prev_cells@.take(screen.cells@.len() as int) == screen.cells@
            &&& after.config == before.config
            &&& after.cell_width == before.cell_width
            &&& after.cell_height == before.cell_height
            &&& after.glyph_cache == before.glyph_cache
            &&& after.emoji_cache == before.emoji_cache
            &&& after.has_emoji_font == before.has_emoji_font
        },
        result matches Ok(Rendering::Missing(kept, request)) ==> kept == screen && after == before
            && new_picture == old_picture && exists|i: int|
            0 <= i < screen.cells@.len() && before.is_drawn(screen, i) && before.cell_request(
                #[trigger] screen.cells@[i],
            ) == Some(request) && forall|j: int|
                0 <= j < i && before.is_drawn(screen, j) ==> before.cell_request(
                    #[trigger] screen.cells@[j],
                ) is None,
        result != Ok::<Rendering, TerminalError>(Rendering::Idle),
{
    if before.is_complete(screen) {
        assert forall|i: int|
            0 <= i < screen.cells@.len() && i < screen.rows * screen.cols && before.is_drawn(
                screen,
                i,
            ) implies before.cell_request(#[trigger] screen.cells@[i]) is None by {
            assert(before.missing_at(screen, i) is None);
        }
    } else {
        let request = result->Ok_0->Missing_1;
        let i = choose|i: int|
            #[trigger] before.missing_at(screen, i) == Some(request) && forall|j: int|
                j < i ==> #[trigger] before.missing_at(screen, j) is None;
        assert(before.cell_request(screen.cells@[i]) == Some(request));
        assert forall|j: int| 0 <= j < i && before.is_drawn(screen, j) implies before.cell_request(
            #[trigger] screen.cells@[j],
        ) is None by {
            assert(before.missing_at(screen, j) is None);
        }
    }
}

/// What can be shown: nothing always can be, and before a client is there
/// nothing else can.  With a client, all of it counts, in the order in which it
/// came.
pub proof fn lemma_what_can_be_shown(app: TerminalApp, pending: Seq<Vec<u8>>)
    ensures
        pending.len() == 0 ==> app.accepts_all(pending),
        pending.len() > 0 && app.emulator is None ==> !app.accepts_all(pending),
        pending.len() > 0 ==> (app.emulator matches Some(e) ==> (app.accepts_all(pending)
            <==> has_room(e.columns(), e.lines(), e.fed(), pieces(pending).flatten()))),
        pieces(pending).len() == pending.len(),
        forall|i: int| 0 <= i < pending.len() ==> #[trigger] pieces(pending)[i] == pending[i]@,
{
}

} // verus!
