//! The search for a glyph among the fonts.
//!
//! Shaping text and rendering outlines is the work of the font libraries.
//! Which font to ask next, at which size, and which answer to keep is decided
//! here: a search says what it wants to know and is told the answer, until it
//! is done.

use crate::single::lemma_nearest_exponent;
use crate::single::lemma_product_exponent;
use crate::single::lemma_product_is_nearest;
use crate::single::lemma_quotient_exponent;
use crate::single::lemma_whole_exponent;
use crate::single::lemma_whole_is_floor;
use crate::single::Single;
use crate::terminal::ink::GlyphBitmap;
use vstd::arithmetic::power2::lemma2_to64;
use vstd::arithmetic::power2::lemma_pow2_adds;
use vstd::arithmetic::power2::lemma_pow2_pos;
use vstd::arithmetic::power2::pow2;
use vstd::prelude::*;

verus! {

/// The fonts that text is shaped with.
#[derive(Clone, Copy, Debug, PartialEq, Eq, Structural)]
pub enum FontFamily {
    /// The font of icons.
    Symbols,
    /// The text font that has icons too.
    JetBrains,
    /// Whatever the system has for fixed-width text.
    Monospace,
}

/// The font files that outlines are rendered from directly: first the text
/// font, then the font of icons.
#[derive(Clone, Copy, Debug, PartialEq, Eq, Structural)]
pub enum EmbeddedFont {
    Regular,
    Symbols,
}

/// What the bytes of a rendered image mean.
#[derive(Clone, Copy, Debug, PartialEq, Eq, Structural)]
pub enum ImageContent {
    /// One opacity a pixel.
    Mask,
    /// One opacity for each of red, green and blue, and a fourth byte.
    SubpixelMask,
    /// Red, green, blue and opacity.
    Color,
}

/// A rendered glyph, `left` and `top` from where it is placed.
pub struct GlyphImage {
    pub width: u32,
    pub height: u32,
    pub left: i32,
    pub top: i32,
    pub content: ImageContent,
    pub data: Vec<u8>,
}

/// A shaped glyph: zero stands for a missing one.
pub struct ShapedGlyph {
    pub glyph_id: u16,
    pub image: Option<GlyphImage>,
}

/// What a search wants to know next.
#[derive(Clone, Copy, Debug, PartialEq, Eq, Structural)]
pub enum SearchStep {
    /// The character's glyph when shaped with a family.
    Shape(FontFamily),
    /// The character's outline in a font, rendered at a size.
    Outline(EmbeddedFont, Single),
    /// Nothing more.
    Done,
}

/// How far a search is.
pub enum SearchState {
    /// Waiting for the glyph of the family at this place of the list.
    Shaping(usize),
    /// Waiting for the outline at the font size.
    Rendering(EmbeddedFont),
    /// Waiting for a larger outline than the one at hand.
    Enlarging(EmbeddedFont, GlyphBitmap),
    Finished(Option<GlyphBitmap>),
}

/// A search for one character's glyph.
pub struct GlyphSearch {
    pub ch: char,
    pub font_size: Single,
    pub state: SearchState,
}

/// The character is in a private use area, where the icons are.
pub open spec fn is_private_use(cp: u32) -> bool {
    0xE000 <= cp <= 0xF8FF || 0xF0000 <= cp <= 0xFFFFF
}

/// The families to try, in order: icons first from the fonts made for them.
pub open spec fn families(ch: char) -> Seq<FontFamily> {
    if is_private_use(ch as u32) {
        seq![FontFamily::Symbols, FontFamily::JetBrains, FontFamily::Monospace]
    } else {
        seq![FontFamily::Monospace]
    }
}

/// The name of a family: none for whatever the system has.
pub open spec fn family_name(family: FontFamily) -> Option<Seq<char>> {
    match family {
        FontFamily::Symbols => Some("Symbols Nerd Font Mono"@),
        FontFamily::JetBrains => Some("JetBrainsMonoNL Nerd Font Mono"@),
        FontFamily::Monospace => None,
    }
}

/// The image as a bitmap, unless there is nothing in it.
pub open spec fn bitmap_of(image: Option<GlyphImage>, is_color: bool) -> Option<GlyphBitmap> {
    match image {
        Some(i) => if i.width > 0 && i.height > 0 {
            Some(
                GlyphBitmap {
                    width: i.width as usize,
                    left: i.left,
                    top: i.top,
                    data: i.data,
                    is_color,
                },
            )
        } else {
            None
        },
        None => None,
    }
}

/// What a shaped glyph comes to: nothing if it stands for a missing one.
pub open spec fn shaped_bitmap(glyph: Option<ShapedGlyph>) -> Option<GlyphBitmap> {
    match glyph {
        Some(g) => if g.glyph_id != 0 {
            match g.image {
                Some(i) => bitmap_of(Some(i), i.content != ImageContent::Mask),
                None => None,
            }
        } else {
            None
        },
        None => None,
    }
}

/// What a rendered outline comes to.
pub open spec fn outline_bitmap(image: Option<GlyphImage>) -> Option<GlyphBitmap> {
    bitmap_of(image, false)
}

/// The binary32 value of 1.2.
pub open spec fn six_fifths() -> Single {
    Single { significand: 10_066_330, exponent: (-23) as i32 }
}

/// The binary32 value of 0.6.
pub open spec fn three_fifths() -> Single {
    Single { significand: 10_066_330, exponent: (-24) as i32 }
}

/// The binary32 value of 0.85.
pub open spec fn most_of_one() -> Single {
    Single { significand: 14_260_634, exponent: (-24) as i32 }
}

/// The height of a line of text.
pub open spec fn line_height(font_size: Single) -> Single {
    font_size.product(six_fifths())
}

/// How many rows a bitmap has, one byte a pixel.
pub open spec fn bitmap_rows(bitmap: GlyphBitmap) -> nat {
    if bitmap.width == 0 {
        bitmap.data@.len()
    } else {
        bitmap.data@.len() / (bitmap.width as nat)
    }
}

/// The glyph is lower than three fifths of a line, but not empty.
pub open spec fn is_too_small(bitmap: GlyphBitmap, font_size: Single) -> bool {
    &&& 0 < bitmap_rows(bitmap) < line_height(font_size).product(three_fifths()).whole(
        usize::MAX as nat,
    )
    &&& bitmap.width > 0
}

/// The size at which a glyph that has `rows` rows at the font size fills most
/// of the line.
pub open spec fn grown_size(font_size: Single, rows: nat) -> Single {
    font_size.product(line_height(font_size).quotient(Single::nearest(rows))).product(most_of_one())
}

/// The sizes of a cell that follow from a font size are normal numbers, so
/// they are those of binary32.
pub proof fn lemma_cell_sizes_normal(font_size: Single)
    requires
        font_size.is_font_size(),
    ensures
        line_height(font_size).is_normal(),
        font_size.product(three_fifths()).is_normal(),
{
    lemma_product_exponent(font_size, six_fifths());
    lemma_product_exponent(font_size, three_fifths());
}

/// So is the size at which a glyph that is too small is rendered again, with
/// everything on the way to it.
pub proof fn lemma_grown_size_normal(bitmap: GlyphBitmap, font_size: Single)
    requires
        font_size.is_font_size(),
        is_too_small(bitmap, font_size),
    ensures
        ({
            let height = line_height(font_size);
            let scale = height.quotient(Single::nearest(bitmap_rows(bitmap)));
            &&& scale.is_normal()
            &&& font_size.product(scale).is_normal()
            &&& grown_size(font_size, bitmap_rows(bitmap)).is_normal()
        }),
{
    let height = line_height(font_size);
    let count = Single::nearest(bitmap_rows(bitmap));
    let limit = height.product(three_fifths());
    lemma_product_exponent(font_size, six_fifths());
    lemma_product_exponent(height, three_fifths());
    lemma_whole_exponent(limit, usize::MAX as nat);
    lemma_nearest_exponent(bitmap_rows(bitmap));
    lemma_quotient_exponent(height, count);
    let scale = height.quotient(count);
    lemma_product_exponent(font_size, scale);
    lemma_product_exponent(font_size.product(scale), most_of_one());
}

impl FontFamily {
    /// The name of the family, if it has one.
    pub fn name(&self) -> (r: Option<String>)
        ensures
            match r {
                Some(s) => family_name(*self) == Some(s@),
                None => family_name(*self) is None,
            },
    {
        match self {
            FontFamily::Symbols => Some("Symbols Nerd Font Mono".to_owned()),
            FontFamily::JetBrains => Some("JetBrainsMonoNL Nerd Font Mono".to_owned()),
            FontFamily::Monospace => None,
        }
    }
}

/// Whether the character is in a private use area.
fn is_icon(ch: char) -> (r: bool)
    ensures
        r == is_private_use(ch as u32),
{
    let cp: u32 = ch as u32;
    (0xE000 <= cp && cp <= 0xF8FF) || (0xF0000 <= cp && cp <= 0xFFFFF)
}

/// The size at which a bitmap is to be rendered again, if it is too small.
fn larger_size(bitmap: &GlyphBitmap, font_size: Single) -> (r: Option<Single>)
    requires
        font_size.is_font_size(),
    ensures
        r == if is_too_small(*bitmap, font_size) {
            Some(grown_size(font_size, bitmap_rows(*bitmap)))
        } else {
            None
        },
{
    let rows: usize = if bitmap.width == 0 {
        bitmap.data.len()
    } else {
        bitmap.data.len() / bitmap.width
    };
    let cell_h: Single = font_size.mul(&Single { significand: 10_066_330, exponent: -23 });
    let limit: u64 = cell_h.mul(&Single { significand: 10_066_330, exponent: -24 }).floor(
        usize::MAX as u64,
    );
    if 0 < rows && (rows as u64) < limit && bitmap.width > 0 {
        let scale: Single = cell_h.div(&Single::from_whole(rows as u64));
        let grown: Single = font_size.mul(&scale);
        Some(grown.mul(&Single { significand: 14_260_634, exponent: -24 }))
    } else {
        None
    }
}

/// The image as a bitmap, unless there is nothing in it.
fn to_bitmap(image: Option<GlyphImage>, is_color: bool) -> (r: Option<GlyphBitmap>)
    ensures
        r == bitmap_of(image, is_color),
{
    match image {
        Some(i) => {
            if i.width > 0 && i.height > 0 {
                Some(
                    GlyphBitmap {
                        width: i.width as usize,
                        left: i.left,
                        top: i.top,
                        data: i.data,
                        is_color,
                    },
                )
            } else {
                None
            }
        },
        None => None,
    }
}

impl GlyphSearch {
    /// The font size is one, and a family that is waited for is in the list.
    pub open spec fn wf(self) -> bool {
        &&& self.font_size.is_font_size()
        &&& match self.state {
            SearchState::Shaping(i) => i < families(self.ch).len(),
            SearchState::Enlarging(_, small) => is_too_small(small, self.font_size),
            _ => true,
        }
    }

    /// The search in another state.
    pub open spec fn with(self, state: SearchState) -> GlyphSearch {
        GlyphSearch { ch: self.ch, font_size: self.font_size, state }
    }

    /// What the search wants to know.
    pub open spec fn wants(self) -> SearchStep {
        match self.state {
            SearchState::Shaping(i) => SearchStep::Shape(families(self.ch)[i as int]),
            SearchState::Rendering(font) => SearchStep::Outline(font, self.font_size),
            SearchState::Enlarging(font, small) => SearchStep::Outline(
                font,
                grown_size(self.font_size, bitmap_rows(small)),
            ),
            SearchState::Finished(_) => SearchStep::Done,
        }
    }

    /// The state once a family was tried: the first glyph that is there is
    /// kept.  Past the last family, characters beyond ASCII are looked for in
    /// the font files.
    pub open spec fn after_shaping(self, glyph: Option<ShapedGlyph>) -> SearchState {
        let tried = self.state->Shaping_0;
        if shaped_bitmap(glyph) is Some {
            SearchState::Finished(shaped_bitmap(glyph))
        } else if tried + 1 < families(self.ch).len() {
            SearchState::Shaping((tried + 1) as usize)
        } else if self.ch as u32 > 0x7F {
            SearchState::Rendering(EmbeddedFont::Regular)
        } else {
            SearchState::Finished(None)
        }
    }

    /// The state once an outline was rendered: one that is too small is to be
    /// rendered again, a missing one is looked for in the next font.
    pub open spec fn after_rendering(self, image: Option<GlyphImage>) -> SearchState {
        match self.state {
            SearchState::Rendering(font) => match outline_bitmap(image) {
                Some(bitmap) => if is_too_small(bitmap, self.font_size) {
                    SearchState::Enlarging(font, bitmap)
                } else {
                    SearchState::Finished(Some(bitmap))
                },
                None => match font {
                    EmbeddedFont::Regular => SearchState::Rendering(EmbeddedFont::Symbols),
                    EmbeddedFont::Symbols => SearchState::Finished(None),
                },
            },
            SearchState::Enlarging(_, small) => SearchState::Finished(
                match outline_bitmap(image) {
                    Some(bigger) => Some(bigger),
                    None => Some(small),
                },
            ),
            _ => self.state,
        }
    }

    /// A search for a character of text.
    pub fn for_text(ch: char, font_size: Single) -> (r: GlyphSearch)
        requires
            font_size.is_font_size(),
        ensures
            r == (GlyphSearch { ch, font_size, state: SearchState::Shaping(0) }),
            r.wf(),
    {
        GlyphSearch { ch, font_size, state: SearchState::Shaping(0) }
    }

    /// A search for a character in the font files alone.
    pub fn for_outline(ch: char, font_size: Single) -> (r: GlyphSearch)
        requires
            font_size.is_font_size(),
        ensures
            r == (GlyphSearch {
                ch,
                font_size,
                state: SearchState::Rendering(EmbeddedFont::Regular),
            }),
            r.wf(),
    {
        GlyphSearch { ch, font_size, state: SearchState::Rendering(EmbeddedFont::Regular) }
    }

    /// What the search wants to know.
    pub fn step(&self) -> (r: SearchStep)
        requires
            self.wf(),
        ensures
            r == self.wants(),
    {
        match &self.state {
            SearchState::Shaping(i) => {
                let is_pua: bool = is_icon(self.ch);
                if is_pua && *i == 0 {
                    SearchStep::Shape(FontFamily::Symbols)
                } else if is_pua && *i == 1 {
                    SearchStep::Shape(FontFamily::JetBrains)
                } else {
                    SearchStep::Shape(FontFamily::Monospace)
                }
            },
            SearchState::Rendering(font) => SearchStep::Outline(*font, self.font_size),
            SearchState::Enlarging(font, small) => match larger_size(small, self.font_size) {
                Some(size) => SearchStep::Outline(*font, size),
                None => SearchStep::Done,
            },
            SearchState::Finished(_) => SearchStep::Done,
        }
    }

    /// Tells the search the glyph that a family was found to have.
    pub fn on_shaped(self, glyph: Option<ShapedGlyph>) -> (r: GlyphSearch)
        requires
            self.wf(),
            self.state is Shaping,
        ensures
            r == self.with(self.after_shaping(glyph)),
            r.wf(),
            r.ch == self.ch,
            r.font_size == self.font_size,
            r.state == self.after_shaping(glyph),
    {
        let found: Option<GlyphBitmap> = match glyph {
            Some(g) => {
                if g.glyph_id != 0 {
                    match g.image {
                        Some(i) => {
                            let is_color: bool = match i.content {
                                ImageContent::Mask => false,
                                _ => true,
                            };
                            to_bitmap(Some(i), is_color)
                        },
                        None => None,
                    }
                } else {
                    None
                }
            },
            None => None,
        };
        let state: SearchState = match self.state {
            SearchState::Shaping(tried) => {
                if found.is_some() {
                    SearchState::Finished(found)
                } else if tried < 2 && is_icon(self.ch) {
                    SearchState::Shaping(tried + 1)
                } else if self.ch as u32 > 0x7F {
                    SearchState::Rendering(EmbeddedFont::Regular)
                } else {
                    SearchState::Finished(None)
                }
            },
            other => other,
        };
        GlyphSearch { ch: self.ch, font_size: self.font_size, state }
    }

    /// Tells the search the outline that a font was found to have.
    pub fn on_outline(self, image: Option<GlyphImage>) -> (r: GlyphSearch)
        requires
            self.wf(),
            self.state is Rendering || self.state is Enlarging,
        ensures
            r == self.with(self.after_rendering(image)),
            r.wf(),
            r.ch == self.ch,
            r.font_size == self.font_size,
            r.state == self.after_rendering(image),
    {
        let found: Option<GlyphBitmap> = to_bitmap(image, false);
        let state: SearchState = match self.state {
            SearchState::Rendering(font) => match found {
                Some(bitmap) => {
                    if larger_size(&bitmap, self.font_size).is_some() {
                        SearchState::Enlarging(font, bitmap)
                    } else {
                        SearchState::Finished(Some(bitmap))
                    }
                },
                None => match font {
                    EmbeddedFont::Regular => SearchState::Rendering(EmbeddedFont::Symbols),
                    EmbeddedFont::Symbols => SearchState::Finished(None),
                },
            },
            SearchState::Enlarging(_, small) => SearchState::Finished(
                match found {
                    Some(bigger) => Some(bigger),
                    None => Some(small),
                },
            ),
            other => other,
        };
        GlyphSearch { ch: self.ch, font_size: self.font_size, state }
    }

    /// What the search has found.
    pub fn into_found(self) -> (r: Option<GlyphBitmap>)
        ensures
            r == match self.state {
                SearchState::Finished(found) => found,
                _ => None,
            },
    {
        match self.state {
            SearchState::Finished(found) => found,
            _ => None,
        }
    }
}

/// What the fonts answer: the glyph of each family, and the outline of each
/// font at each size.
pub struct FontAnswers {
    pub shaped: spec_fn(FontFamily) -> Option<ShapedGlyph>,
    pub outline: spec_fn(EmbeddedFont, Single) -> Option<GlyphImage>,
}

/// The glyph of the first family that has one.
pub open spec fn first_shaped(list: Seq<FontFamily>, answers: FontAnswers) -> Option<GlyphBitmap>
    decreases list.len(),
{
    if list.len() == 0 {
        None
    } else if shaped_bitmap((answers.shaped)(list[0])) is Some {
        shaped_bitmap((answers.shaped)(list[0]))
    } else {
        first_shaped(list.drop_first(), answers)
    }
}

/// The outline of one font, enlarged where it is too small and the font can.
pub open spec fn outline_from(
    font: EmbeddedFont,
    font_size: Single,
    answers: FontAnswers,
) -> Option<GlyphBitmap> {
    match outline_bitmap((answers.outline)(font, font_size)) {
        Some(bitmap) => if is_too_small(bitmap, font_size) {
            match outline_bitmap(
                (answers.outline)(font, grown_size(font_size, bitmap_rows(bitmap))),
            ) {
                Some(bigger) => Some(bigger),
                None => Some(bitmap),
            }
        } else {
            Some(bitmap)
        },
        None => None,
    }
}

/// The outline of the first font that has one.
pub open spec fn embedded_outline(font_size: Single, answers: FontAnswers) -> Option<GlyphBitmap> {
    match outline_from(EmbeddedFont::Regular, font_size, answers) {
        Some(bitmap) => Some(bitmap),
        None => outline_from(EmbeddedFont::Symbols, font_size, answers),
    }
}

/// The glyph of a character of text: shaped, or else, beyond ASCII, from the
/// font files.
pub open spec fn text_glyph(ch: char, font_size: Single, answers: FontAnswers) -> Option<
    GlyphBitmap,
> {
    match first_shaped(families(ch), answers) {
        Some(bitmap) => Some(bitmap),
        None => if ch as u32 > 0x7F {
            embedded_outline(font_size, answers)
        } else {
            None
        },
    }
}

impl GlyphSearch {
    /// The search once it was told what it wants to know.
    pub open spec fn told(self, answers: FontAnswers) -> GlyphSearch {
        match self.wants() {
            SearchStep::Shape(family) => self.with(
                self.after_shaping((answers.shaped)(family)),
            ),
            SearchStep::Outline(font, size) => self.with(
                self.after_rendering((answers.outline)(font, size)),
            ),
            SearchStep::Done => self,
        }
    }

    /// The search after `n` answers.
    pub open spec fn after(self, answers: FontAnswers, n: nat) -> GlyphSearch
        decreases n,
    {
        if n == 0 {
            self
        } else {
            self.told(answers).after(answers, (n - 1) as nat)
        }
    }
}

/// A search in the font files is done after three answers, with the outline of
/// the first font that has one.
pub proof fn lemma_outline_search(search: GlyphSearch, answers: FontAnswers)
    requires
        search.state == SearchState::Rendering(EmbeddedFont::Regular),
    ensures
        search.after(answers, 3).state == SearchState::Finished(
            embedded_outline(search.font_size, answers),
        ),
{
    reveal_with_fuel(GlyphSearch::after, 4);
}

/// More answers do not change a search that is done.
proof fn lemma_done_stays(search: GlyphSearch, answers: FontAnswers, n: nat)
    requires
        search.state is Finished,
    ensures
        search.after(answers, n) == search,
    decreases n,
{
    if n > 0 {
        lemma_done_stays(search, answers, (n - 1) as nat);
    }
}

/// A search for a character of text is done after six answers, with the first
/// glyph that shaping gives, or else the first outline of the font files.
#[verifier::spinoff_prover]
#[verifier::rlimit(40)]
pub proof fn lemma_text_search(ch: char, font_size: Single, answers: FontAnswers)
    ensures
        (GlyphSearch { ch, font_size, state: SearchState::Shaping(0) }).after(answers, 6).state
            == SearchState::Finished(text_glyph(ch, font_size, answers)),
{
    let search = GlyphSearch { ch, font_size, state: SearchState::Shaping(0) };
    let list = families(ch);
    reveal_with_fuel(GlyphSearch::after, 4);
    reveal_with_fuel(first_shaped, 4);
    let first = search.told(answers);
    let second = first.told(answers);
    let third = second.told(answers);
    assert(search.after(answers, 6) == first.after(answers, 5));
    assert(first.after(answers, 5) == second.after(answers, 4));
    assert(second.after(answers, 4) == third.after(answers, 3));
    if is_private_use(ch as u32) {
        assert(list.drop_first() == seq![FontFamily::JetBrains, FontFamily::Monospace]);
        assert(list.drop_first().drop_first() == seq![FontFamily::Monospace]);
        if third.state is Rendering {
            lemma_outline_search(third, answers);
        } else {
            lemma_done_stays(third, answers, 3);
        }
    } else if first.state is Rendering {
        lemma_outline_search(first, answers);
        lemma_done_stays(first.after(answers, 3), answers, 2);
    } else {
        lemma_done_stays(first, answers, 5);
    }
}

/// The factors are the numbers of 24 bits nearest to 6/5, 3/5 and 17/20.
pub proof fn lemma_factors()
    ensures
        ({
            let s = six_fifths();
            s.wf() && s.exponent == -23 && -5 <= 2 * (5 * s.significand - 6 * 0x80_0000) <= 5
        }),
        ({
            let s = three_fifths();
            s.wf() && s.exponent == -24 && -5 <= 2 * (5 * s.significand - 3 * 0x100_0000) <= 5
        }),
        ({
            let s = most_of_one();
            s.wf() && s.exponent == -24 && -20 <= 2 * (20 * s.significand - 17 * 0x100_0000) <= 20
        }),
{
}

/// A line of text is six fifths of the font size high, as near as 24 bits come
/// to it.
pub proof fn lemma_line_is_six_fifths(font_size: Single)
    requires
        font_size.is_font_size(),
    ensures
        ({
            let height = line_height(font_size);
            let k = height.exponent - font_size.exponent;
            let got = height.significand * pow2(k as nat);
            &&& 0 <= k <= 1
            &&& 0x80_0000 <= height.significand < 0x100_0000
            &&& -10 <= 5 * got - 6 * font_size.significand <= 10
            &&& -(0x80_0000 * pow2(k as nat)) <= 2 * (got * 0x80_0000 - font_size.significand
                * 10_066_330) <= 0x80_0000 * pow2(k as nat)
        }),
{
    let height = line_height(font_size);
    let k = height.exponent - font_size.exponent;
    let m = font_size.significand as int;
    lemma_product_is_nearest(font_size, six_fifths());
    lemma2_to64();
    lemma_pow2_adds(k as nat, 23);
    let u = pow2(k as nat) as int;
    assert(height.significand * (u * 0x80_0000) == (height.significand * u) * 0x80_0000)
        by (nonlinear_arith);
    assert(u == 1 || u == 2);
}

/// A column without a glyph to measure is three fifths of the font size wide, in
/// the same way.
pub proof fn lemma_column_is_three_fifths(font_size: Single)
    requires
        font_size.is_font_size(),
    ensures
        ({
            let width = font_size.product(three_fifths());
            let k = width.exponent - font_size.exponent + 1;
            let got = width.significand * pow2(k as nat);
            &&& 0 <= k <= 1
            &&& 0x80_0000 <= width.significand < 0x100_0000
            &&& -10 <= 5 * got - 6 * font_size.significand <= 10
            &&& -(0x80_0000 * pow2(k as nat)) <= 2 * (got * 0x80_0000 - font_size.significand
                * 10_066_330) <= 0x80_0000 * pow2(k as nat)
        }),
{
    let width = font_size.product(three_fifths());
    let k = width.exponent - font_size.exponent + 1;
    lemma_product_is_nearest(font_size, three_fifths());
    lemma2_to64();
    lemma_pow2_adds(k as nat, 23);
    let u = pow2(k as nat) as int;
    assert(width.significand * (u * 0x80_0000) == (width.significand * u) * 0x80_0000)
        by (nonlinear_arith);
    assert(u == 1 || u == 2);
}

/// Which families are asked, and in which order: for the icons of the private
/// use areas the font of icons, then the text font, then the system's; for any
/// other character the system's alone.
pub proof fn lemma_family_order(search: GlyphSearch, i: usize)
    requires
        search.state == SearchState::Shaping(i),
        search.wf(),
    ensures
        ({
            let cp = search.ch as u32;
            let icon = 0xE000 <= cp <= 0xF8FF || 0xF0000 <= cp <= 0xFFFFF;
            &&& icon ==> i < 3
            &&& !icon ==> i == 0
            &&& icon && i == 0 ==> search.wants() == SearchStep::Shape(FontFamily::Symbols)
            &&& icon && i == 1 ==> search.wants() == SearchStep::Shape(FontFamily::JetBrains)
            &&& icon && i == 2 ==> search.wants() == SearchStep::Shape(FontFamily::Monospace)
            &&& !icon ==> search.wants() == SearchStep::Shape(FontFamily::Monospace)
        }),
{
}

/// What counts as a glyph: one whose number is not zero and whose image has a
/// width and a height.  It is kept as it came, in colour unless it is a mask.
pub proof fn lemma_what_is_a_glyph(glyph: Option<ShapedGlyph>)
    ensures
        shaped_bitmap(glyph) is Some <==> {
            &&& glyph is Some
            &&& glyph->0.glyph_id != 0
            &&& glyph->0.image is Some
            &&& glyph->0.image->0.width > 0
            &&& glyph->0.image->0.height > 0
        },
        shaped_bitmap(glyph) matches Some(bitmap) ==> {
            let image = glyph->0.image->0;
            &&& bitmap.width == image.width
            &&& bitmap.left == image.left
            &&& bitmap.top == image.top
            &&& bitmap.data == image.data
            &&& bitmap.is_color <==> image.content is Color || image.content is SubpixelMask
        },
{
}

/// What counts as an outline: an image with a width and a height, which is a
/// mask.
pub proof fn lemma_what_is_an_outline(image: Option<GlyphImage>)
    ensures
        outline_bitmap(image) is Some <==> image is Some && image->0.width > 0 && image->0.height
            > 0,
        outline_bitmap(image) matches Some(bitmap) ==> bitmap.width == image->0.width && bitmap.left
            == image->0.left && bitmap.top == image->0.top && bitmap.data == image->0.data
            && !bitmap.is_color,
{
}

/// What a search does with an answer.  A glyph that is there ends it.  Without
/// one the next family is asked; after the last, characters beyond ASCII are
/// looked for in the font files, the text font first and the font of icons
/// second, and ASCII is given up.  An outline that is too small is asked for
/// once more, larger, and kept where the larger one is missing.
pub proof fn lemma_search_order(
    search: GlyphSearch,
    glyph: Option<ShapedGlyph>,
    image: Option<GlyphImage>,
)
    requires
        search.wf(),
    ensures
        search.state matches SearchState::Shaping(i) ==> {
            let cp = search.ch as u32;
            let icon = 0xE000 <= cp <= 0xF8FF || 0xF0000 <= cp <= 0xFFFFF;
            let last = !icon || i == 2;
            let next = search.after_shaping(glyph);
            &&& shaped_bitmap(glyph) is Some ==> next == SearchState::Finished(shaped_bitmap(glyph))
            &&& shaped_bitmap(glyph) is None && !last ==> next == SearchState::Shaping(
                (i + 1) as usize,
            )
            &&& shaped_bitmap(glyph) is None && last && cp >= 0x80 ==> next
                == SearchState::Rendering(EmbeddedFont::Regular)
            &&& shaped_bitmap(glyph) is None && last && cp < 0x80 ==> next == SearchState::Finished(
                None,
            )
        },
        search.state matches SearchState::Rendering(font) ==> {
            let next = search.after_rendering(image);
            let found = outline_bitmap(image);
            &&& search.wants() == SearchStep::Outline(font, search.font_size)
            &&& found matches Some(bitmap) ==> is_too_small(bitmap, search.font_size) ==> next
                == SearchState::Enlarging(font, bitmap)
            &&& found matches Some(bitmap) ==> !is_too_small(bitmap, search.font_size) ==> next
                == SearchState::Finished(Some(bitmap))
            &&& found is None && font is Regular ==> next == SearchState::Rendering(
                EmbeddedFont::Symbols,
            )
            &&& found is None && font is Symbols ==> next == SearchState::Finished(None)
        },
        search.state matches SearchState::Enlarging(font, small) ==> {
            let next = search.after_rendering(image);
            let found = outline_bitmap(image);
            &&& search.wants() matches SearchStep::Outline(asked, _) && asked == font
            &&& found is Some ==> next == SearchState::Finished(found)
            &&& found is None ==> next == SearchState::Finished(Some(small))
        },
        search.state is Finished ==> search.wants() is Done,
{
}

/// The search as a whole, in terms of what the fonts have: an icon comes from
/// the first of the three families that has it, any other character from the
/// system's; beyond ASCII the font files come after that, the text font before
/// the font of icons.
pub proof fn lemma_where_glyphs_come_from(ch: char, font_size: Single, answers: FontAnswers)
    ensures
        ({
            let cp = ch as u32;
            let icon = 0xE000 <= cp <= 0xF8FF || 0xF0000 <= cp <= 0xFFFFF;
            let symbols = shaped_bitmap((answers.shaped)(FontFamily::Symbols));
            let text = shaped_bitmap((answers.shaped)(FontFamily::JetBrains));
            let system = shaped_bitmap((answers.shaped)(FontFamily::Monospace));
            let first = outline_from(EmbeddedFont::Regular, font_size, answers);
            let second = outline_from(EmbeddedFont::Symbols, font_size, answers);
            let found = (GlyphSearch { ch, font_size, state: SearchState::Shaping(0) }).after(
                answers,
                6,
            ).state;
            let shaped = if icon && symbols is Some {
                symbols
            } else if icon && text is Some {
                text
            } else {
                system
            };
            &&& shaped is Some ==> found == SearchState::Finished(shaped)
            &&& shaped is None && cp < 0x80 ==> found == SearchState::Finished(None)
            &&& shaped is None && cp >= 0x80 && first is Some ==> found == SearchState::Finished(
                first,
            )
            &&& shaped is None && cp >= 0x80 && first is None ==> found == SearchState::Finished(
                second,
            )
        }),
{
    lemma_text_search(ch, font_size, answers);
    reveal_with_fuel(first_shaped, 4);
    let list = families(ch);
    if is_private_use(ch as u32) {
        assert(list.drop_first() == seq![FontFamily::JetBrains, FontFamily::Monospace]);
        assert(list.drop_first().drop_first() == seq![FontFamily::Monospace]);
    }
}

/// Which outlines are too small: those that are not empty and have at least one
/// row less than three fifths of a line, so that one row more still fits below
/// that.  Rows are counted as one byte a pixel.
pub proof fn lemma_what_is_too_small(bitmap: GlyphBitmap, font_size: Single, rows: nat)
    requires
        font_size.is_font_size(),
        bitmap.width > 0,
        rows * bitmap.width <= bitmap.data@.len() < (rows + 1) * bitmap.width,
        rows < usize::MAX,
    ensures
        ({
            let line = font_size.product(Single { significand: 10_066_330, exponent: (-23) as i32 });
            let limit = line.product(Single { significand: 10_066_330, exponent: (-24) as i32 });
            &&& bitmap_rows(bitmap) == rows
            &&& limit.exponent < 0 ==> (is_too_small(bitmap, font_size) <==> rows > 0 && (rows + 1)
                * pow2((-limit.exponent) as nat) <= limit.significand)
            &&& limit.exponent >= 0 ==> (is_too_small(bitmap, font_size) <==> rows > 0 && rows + 1
                <= limit.significand * pow2(limit.exponent as nat))
        }),
{
    let w = bitmap.width as int;
    let len = bitmap.data@.len() as int;
    assert((rows + 1) * w == rows * w + w) by (nonlinear_arith);
    vstd::arithmetic::div_mod::lemma_fundamental_div_mod_converse(
        len,
        w,
        rows as int,
        len - rows * w,
    );
    let line = line_height(font_size);
    let limit = line.product(three_fifths());
    lemma_whole_is_floor(limit, usize::MAX as nat);
    let b = limit.whole(usize::MAX as nat);
    if limit.exponent < 0 {
        let u = pow2((-limit.exponent) as nat);
        lemma_pow2_pos((-limit.exponent) as nat);
        if rows + 1 <= b {
            assert((rows + 1) * u <= b * u) by (nonlinear_arith)
                requires
                    rows + 1 <= b,
            ;
        } else {
            assert((b + 1) * u <= (rows + 1) * u) by (nonlinear_arith)
                requires
                    b <= rows,
            ;
        }
    }
}

/// How large a small outline is asked for: by the ratio of the line to its rows,
/// and 0.85 of that.
pub proof fn lemma_how_it_grows(font_size: Single, rows: nat)
    ensures
        ({
            let line = font_size.product(Single { significand: 10_066_330, exponent: (-23) as i32 });
            let ratio = line.quotient(Single::nearest(rows));
            grown_size(font_size, rows) == font_size.product(ratio).product(
                Single { significand: 14_260_634, exponent: (-24) as i32 },
            )
        }),
{
}

/// A glyph without columns or rows is not enlarged.
pub proof fn lemma_empty_is_not_small(bitmap: GlyphBitmap, font_size: Single)
    requires
        bitmap.width == 0 || bitmap.data@.len() < bitmap.width,
    ensures
        !is_too_small(bitmap, font_size),
{
    if bitmap.width > 0 {
        vstd::arithmetic::div_mod::lemma_basic_div(
            bitmap.data@.len() as int,
            bitmap.width as int,
        );
    }
}

/// The names of the two families that come with the program; the third is the
/// system's, whatever its name is.
pub proof fn lemma_family_names()
    ensures
        family_name(FontFamily::Monospace) is None,
        family_name(FontFamily::Symbols) matches Some(name) && name == "Symbols Nerd Font Mono"@,
        family_name(FontFamily::JetBrains) matches Some(name) && name
            == "JetBrainsMonoNL Nerd Font Mono"@,
{
}

} // verus!
