//! Choosing what to draw next: a character of the charset and a cell of
//! the terminal, both at random.
use vstd::prelude::*;
use rand::rngs::ThreadRng;
use rand::seq::IndexedRandom;
use rand::RngExt;
use crate::config::Charset;

verus! {

#[verifier::external_type_specification]
#[verifier::external_body]
pub struct ExThreadRng(ThreadRng);

/// `rand::rng`: a handle to the thread-local random number generator.
/// Nothing is claimed of it; the crate documents a panic where the
/// operating system's random source fails at the first seeding, which no
/// argument can rule out.
#[verifier::external_body]
fn thread_rng() -> ThreadRng {
    rand::rng()
}

/// `RngExt::random_range` over `0..bound`: claims only that the number is
/// below `bound` (which one is chance). The range must not be empty: the
/// crate asserts that it is not. A failure of the operating system's random
/// source when the generator reseeds panics, and is left unstated.
#[verifier::external_body]
fn random_below(rng: &mut ThreadRng, bound: u16) -> (r: u16)
    requires
        bound > 0,
    ensures
        r < bound,
{
    rng.random_range(0..bound)
}

/// `IndexedRandom::choose` on a slice of chars: claims `None` exactly for an
/// empty slice, and otherwise one of its chars (which one is chance). A
/// failure of the operating system's random source when the generator
/// reseeds panics, and is left unstated.
#[verifier::external_body]
fn choose_char(rng: &mut ThreadRng, chars: &[char]) -> (r: Option<char>)
    ensures
        r is None <==> chars@.len() == 0,
        r matches Some(c) ==> chars@.contains(c),
{
    chars.choose(rng).copied()
}

/// Picks the characters and the cells of the animation.
pub struct Renderer {
    rng: ThreadRng,
    charset: Charset,
    term_dims: (u16, u16),
}

/// What a [`Renderer`] picks from: the characters, and the terminal's width
/// and height.
pub struct RendererView {
    pub charset: Seq<char>,
    pub term_dims: (u16, u16),
}

impl View for Renderer {
    type V = RendererView;

    closed spec fn view(&self) -> RendererView {
        RendererView { charset: self.charset@, term_dims: self.term_dims }
    }
}

impl Renderer {
    /// Creates a renderer that draws the characters of `charset` on a
    /// terminal of `term_dims` columns and rows.
    pub fn new(charset: Charset, term_dims: (u16, u16)) -> (r: Self)
        ensures
            r@.charset == charset@,
            r@.term_dims == term_dims,
    {
        Renderer { rng: thread_rng(), charset, term_dims }
    }

    /// A character of the charset, chosen at random.
    pub fn next_char(&mut self) -> (c: char)
        requires
            old(self)@.charset.len() > 0,
        ensures
            final(self)@ == old(self)@,
            old(self)@.charset.contains(c),
    {
        match choose_char(&mut self.rng, self.charset.chars.as_slice()) {
            Some(c) => c,
            None => {
                assert(false);
                ' '
            },
        }
    }

    /// A cell of the terminal, chosen at random: a column and a row below
    /// the terminal's width and height.
    pub fn next_pos(&mut self) -> (pos: (u16, u16))
        requires
            old(self)@.term_dims.0 > 0,
            old(self)@.term_dims.1 > 0,
        ensures
            final(self)@ == old(self)@,
            pos.0 < old(self)@.term_dims.0,
            pos.1 < old(self)@.term_dims.1,
    {
        let x = random_below(&mut self.rng, self.term_dims.0);
        let y = random_below(&mut self.rng, self.term_dims.1);
        (x, y)
    }
}

} // verus!
