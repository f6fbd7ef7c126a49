//! Configuration for the rainbow.
use vstd::prelude::*;
use crate::color_gen::{spec_hue_shift_config, HueShiftConfig, HueShiftConfigView};

pub mod set;
pub use set::{
    keys_of, lemma_lookup_without_key, lemma_without_key, lookup, spec_parse_config_set,
    without_key, ConfigError, ConfigErrorView, ConfigSet, FromConfig, Pairs,
};

verus! {

/// A character set.
#[derive(Debug)]
pub struct Charset {
    /// The chars in the character set.
    pub chars: Vec<char>,
}

impl View for Charset {
    type V = Seq<char>;

    open spec fn view(&self) -> Seq<char> {
        self.chars@
    }
}

impl Clone for Charset {
    fn clone(&self) -> (r: Self)
        ensures
            r@ == self@,
    {
        let chars = self.chars.clone();
        assert(chars@ =~= self.chars@);
        Charset { chars }
    }
}

impl Charset {
    /// Creates a charset from a static slice of characters.
    pub fn borrowed(chars: &'static [char]) -> (r: Self)
        ensures
            r@ == chars@,
    {
        Charset { chars: vstd::slice::slice_to_vec(chars) }
    }

    /// Creates an owned charset from a vector of characters.
    pub fn owned(chars: Vec<char>) -> (r: Self)
        ensures
            r@ == chars@,
    {
        Charset { chars }
    }
}

/// A template for a character set.
#[derive(Debug, Clone, Copy, PartialEq, Eq, Structural)]
pub enum CharsetTemplate {
    /// The default character set.
    Default,
    /// A character set of blocks.
    Blocks,
    /// A character set of corners.
    Corners,
    /// Corners and blocks, including a white space char.
    CornerBlock,
}

/// The characters of each template: `@#$%&?` by default; the blocks
/// full, medium shade and light shade; the four quadrant corners; and the
/// blocks and corners after a space.
pub open spec fn template_chars(t: CharsetTemplate) -> Seq<char> {
    match t {
        CharsetTemplate::Default => seq!['@', '#', '$', '%', '&', '?'],
        CharsetTemplate::Blocks => seq!['\u{2588}', '\u{2592}', '\u{2591}'],
        CharsetTemplate::Corners => seq!['\u{2598}', '\u{259d}', '\u{2596}', '\u{2597}'],
        CharsetTemplate::CornerBlock => seq![
            ' ',
            '\u{2588}',
            '\u{2592}',
            '\u{2591}',
            '\u{2598}',
            '\u{259d}',
            '\u{2596}',
            '\u{2597}',
        ],
    }
}

impl CharsetTemplate {
    /// Converts the template to a charset.
    pub fn build_charset(&self) -> (r: Charset)
        ensures
            r@ == template_chars(*self),
    {
        let chars = match self {
            CharsetTemplate::Default => vec!['@', '#', '$', '%', '&', '?'],
            CharsetTemplate::Blocks => vec!['\u{2588}', '\u{2592}', '\u{2591}'],
            CharsetTemplate::Corners => vec!['\u{2598}', '\u{259d}', '\u{2596}', '\u{2597}'],
            CharsetTemplate::CornerBlock => vec![
                ' ',
                '\u{2588}',
                '\u{2592}',
                '\u{2591}',
                '\u{2598}',
                '\u{259d}',
                '\u{2596}',
                '\u{2597}',
            ],
        };
        assert(chars@ =~= template_chars(*self));
        Charset { chars }
    }
}

/// A generator for a color generator, using a given config.
#[derive(Debug)]
#[non_exhaustive]
pub enum ColorGeneratorConfig {
    /// A color generator that shifts the hue of the output color by a defined rate each sample.
    HueShift(HueShiftConfig),
}

/// What a [`ColorGeneratorConfig`] holds, its text as sequences of `char`.
pub enum ColorGeneratorConfigView {
    HueShift(HueShiftConfigView),
}

impl View for ColorGeneratorConfig {
    type V = ColorGeneratorConfigView;

    open spec fn view(&self) -> ColorGeneratorConfigView {
        match self {
            ColorGeneratorConfig::HueShift(c) => ColorGeneratorConfigView::HueShift(c@),
        }
    }
}

impl Clone for ColorGeneratorConfig {
    fn clone(&self) -> (r: Self)
        ensures
            r@ == self@,
    {
        match self {
            ColorGeneratorConfig::HueShift(c) => ColorGeneratorConfig::HueShift(c.clone()),
        }
    }
}

/// The view of a parse result.
pub open spec fn generator_result(r: Result<ColorGeneratorConfig, ConfigError>) -> Result<
    ColorGeneratorConfigView,
    ConfigErrorView,
> {
    match r {
        Ok(c) => Ok(c@),
        Err(e) => Err(e@),
    }
}

/// The generator config that a generator type and an attribute string
/// denote: the attributes are parsed first, and their errors come first;
/// `hue_shift` is the one generator type there is, and an empty (omitted)
/// generator type stands for it.
pub open spec fn spec_parse_generator(gentype: Seq<char>, attributes: Seq<char>) -> Result<
    ColorGeneratorConfigView,
    ConfigErrorView,
> {
    match spec_parse_config_set(attributes) {
        Err(e) => Err(e),
        Ok(ps) => if gentype.len() == 0 || gentype == "hue_shift"@ {
            match spec_hue_shift_config(ps) {
                Ok(c) => Ok(ColorGeneratorConfigView::HueShift(c)),
                Err(e) => Err(e),
            }
        } else {
            Err(ConfigErrorView::UnknownGenerator(gentype))
        },
    }
}

/// An omitted generator type is `hue_shift`.
pub proof fn law_empty_generator_type_is_hue_shift(attributes: Seq<char>)
    ensures
        spec_parse_generator(Seq::<char>::empty(), attributes) == spec_parse_generator(
            "hue_shift"@,
            attributes,
        ),
{
}

impl ColorGeneratorConfig {
    /// Parses a color generator config from a generator type and a string of attributes. The generator type is optional and defaults to "hue_shift"
    pub fn parse(gentype: &str, attribs: &str) -> (r: Result<Self, ConfigError>)
        ensures
            generator_result(r) == spec_parse_generator(gentype@, attribs@),
    {
        match ConfigSet::parse_str(attribs) {
            Err(e) => Err(e),
            Ok(attributes) => {
                let mut attributes = attributes;
                if gentype.unicode_len() == 0 || String::from_str(gentype) == String::from_str(
                    "hue_shift",
                ) {
                    match HueShiftConfig::from_config(&mut attributes) {
                        Ok(c) => Ok(ColorGeneratorConfig::HueShift(c)),
                        Err(e) => Err(e),
                    }
                } else {
                    Err(ConfigError::UnknownGenerator { name: String::from_str(gentype) })
                }
            },
        }
    }
}

impl Default for ColorGeneratorConfig {
    fn default() -> (r: Self)
        ensures
            r matches ColorGeneratorConfig::HueShift(c) && c.rate is None && c.hue is None
                && c.saturation is None && c.lightness is None,
    {
        ColorGeneratorConfig::HueShift(HueShiftConfig::default())
    }
}

/// Configuration for the rainbow.
#[derive(Debug)]
pub struct RustBowConfig {
    /// The characters to draw. Default is "@#$%&?".
    pub charset: Charset,
    /// The foreground color config.
    pub foreground: ColorGeneratorConfig,
    /// The background color config. If `None`, no background color will be used.
    pub background: Option<ColorGeneratorConfig>,
    /// The length of a frame in nanoseconds. Default is 0, which means to run as fast as possible.
    pub frame_nanos: u64,
    /// The number of characters to print per frame. Default is 3.
    pub chars_per_frame: usize,
}

/// A modifier for the RustBowConfig. This is used to modify the config with command line arguments.
#[derive(Debug)]
pub struct RustBowConfigModifier {
    /// The characters to draw instead.
    pub charset: Option<Charset>,
    /// The foreground color config modifier.
    pub foreground_config: Option<ColorGeneratorConfig>,
    /// The background color config modifier.
    pub background_config: Option<ColorGeneratorConfig>,
    /// The length of a frame in nanoseconds.
    pub frame_nanos: Option<u64>,
    /// The number of characters to print per frame.
    pub chars_per_frame: Option<usize>,
}

/// What a [`RustBowConfig`] holds.
pub struct RustBowConfigView {
    pub charset: Seq<char>,
    pub foreground: ColorGeneratorConfigView,
    pub background: Option<ColorGeneratorConfigView>,
    pub frame_nanos: u64,
    pub chars_per_frame: usize,
}

/// What a [`RustBowConfigModifier`] holds.
pub struct RustBowConfigModifierView {
    pub charset: Option<Seq<char>>,
    pub foreground: Option<ColorGeneratorConfigView>,
    pub background: Option<ColorGeneratorConfigView>,
    pub frame_nanos: Option<u64>,
    pub chars_per_frame: Option<usize>,
}

/// The view of an optional generator config.
pub open spec fn generator_option(o: Option<ColorGeneratorConfig>) -> Option<ColorGeneratorConfigView> {
    match o {
        Some(c) => Some(c@),
        None => None,
    }
}

impl View for RustBowConfig {
    type V = RustBowConfigView;

    open spec fn view(&self) -> RustBowConfigView {
        RustBowConfigView {
            charset: self.charset@,
            foreground: self.foreground@,
            background: generator_option(self.background),
            frame_nanos: self.frame_nanos,
            chars_per_frame: self.chars_per_frame,
        }
    }
}

impl View for RustBowConfigModifier {
    type V = RustBowConfigModifierView;

    open spec fn view(&self) -> RustBowConfigModifierView {
        RustBowConfigModifierView {
            charset: match self.charset {
                Some(c) => Some(c@),
                None => None,
            },
            foreground: generator_option(self.foreground_config),
            background: generator_option(self.background_config),
            frame_nanos: self.frame_nanos,
            chars_per_frame: self.chars_per_frame,
        }
    }
}

/// The value the modifier sets, where it sets one, else the config's own.
pub open spec fn override_with<T>(modifier: Option<T>, current: T) -> T {
    match modifier {
        Some(v) => v,
        None => current,
    }
}

/// The config that `m` makes of `c`: each field that `m` sets replaces the
/// config's, and every other field stays as it was.
pub open spec fn spec_modify(c: RustBowConfigView, m: RustBowConfigModifierView) -> RustBowConfigView {
    RustBowConfigView {
        charset: override_with(m.charset, c.charset),
        foreground: override_with(m.foreground, c.foreground),
        background: match m.background {
            Some(b) => Some(b),
            None => c.background,
        },
        frame_nanos: override_with(m.frame_nanos, c.frame_nanos),
        chars_per_frame: override_with(m.chars_per_frame, c.chars_per_frame),
    }
}

/// The number of characters per frame when none is given.
pub const DEFAULT_CHARS_PER_FRAME: usize = 3;

/// The number of characters per frame that a requested number gives: zero
/// stands for the default.
pub fn chars_per_frame_of(requested: u32) -> (n: usize)
    ensures
        n == if requested == 0 { DEFAULT_CHARS_PER_FRAME as int } else { requested as int },
{
    if requested == 0 {
        DEFAULT_CHARS_PER_FRAME
    } else {
        requested as usize
    }
}

fn clone_generator_option(o: &Option<ColorGeneratorConfig>) -> (r: Option<ColorGeneratorConfig>)
    ensures
        generator_option(r) == generator_option(*o),
{
    match o {
        Some(c) => Some(c.clone()),
        None => None,
    }
}

impl RustBowConfig {
    /// Modifies the config with the given modifier. If a field in the modifier is `None`, the config's own value is kept.
    pub fn modify_with(&self, modifier: &RustBowConfigModifier) -> (r: Self)
        ensures
            r@ == spec_modify(self@, modifier@),
            r.charset@ == match modifier.charset {
                Some(c) => c@,
                None => self.charset@,
            },
            r.foreground@ == match modifier.foreground_config {
                Some(f) => f@,
                None => self.foreground@,
            },
            generator_option(r.background) == match modifier.background_config {
                Some(b) => Some(b@),
                None => generator_option(self.background),
            },
            r.frame_nanos == match modifier.frame_nanos {
                Some(f) => f,
                None => self.frame_nanos,
            },
            r.chars_per_frame == match modifier.chars_per_frame {
                Some(n) => n,
                None => self.chars_per_frame,
            },
    {
        let charset = match &modifier.charset {
            Some(c) => c.clone(),
            None => self.charset.clone(),
        };
        let foreground = match &modifier.foreground_config {
            Some(c) => c.clone(),
            None => self.foreground.clone(),
        };
        let background = match &modifier.background_config {
            Some(c) => Some(c.clone()),
            None => clone_generator_option(&self.background),
        };
        let frame_nanos = match modifier.frame_nanos {
            Some(f) => f,
            None => self.frame_nanos,
        };
        let chars_per_frame = match modifier.chars_per_frame {
            Some(n) => n,
            None => self.chars_per_frame,
        };
        RustBowConfig { charset, foreground, background, frame_nanos, chars_per_frame }
    }
}

impl Default for RustBowConfig {
    /// The default charset, the default hue shift foreground, no background,
    /// frames as fast as possible and three characters per frame.
    fn default() -> (r: Self)
        ensures
            r@.charset == template_chars(CharsetTemplate::Default),
            r.foreground matches ColorGeneratorConfig::HueShift(c) && c.rate is None && c.hue
                is None && c.saturation is None && c.lightness is None,
            r.background is None,
            r@.frame_nanos == 0,
            r@.chars_per_frame == DEFAULT_CHARS_PER_FRAME,
    {
        RustBowConfig {
            charset: CharsetTemplate::Default.build_charset(),
            foreground: ColorGeneratorConfig::default(),
            background: None,
            frame_nanos: 0,
            chars_per_frame: DEFAULT_CHARS_PER_FRAME,
        }
    }
}

/// Each field that a modifier sets replaces the config's, and each field
/// it leaves unset keeps the config's value.
pub proof fn law_modify_sets_each_field(c: RustBowConfigView, m: RustBowConfigModifierView)
    ensures
        m.charset matches Some(x) ==> spec_modify(c, m).charset == x,
        m.charset is None ==> spec_modify(c, m).charset == c.charset,
        m.foreground matches Some(f) ==> spec_modify(c, m).foreground == f,
        m.foreground is None ==> spec_modify(c, m).foreground == c.foreground,
        m.background matches Some(b) ==> spec_modify(c, m).background == Some(b),
        m.background is None ==> spec_modify(c, m).background == c.background,
        m.frame_nanos matches Some(f) ==> spec_modify(c, m).frame_nanos == f,
        m.frame_nanos is None ==> spec_modify(c, m).frame_nanos == c.frame_nanos,
        m.chars_per_frame matches Some(n) ==> spec_modify(c, m).chars_per_frame == n,
        m.chars_per_frame is None ==> spec_modify(c, m).chars_per_frame == c.chars_per_frame,
{
}

/// Modifying with a modifier that sets nothing leaves the config as it was.
pub proof fn law_modify_with_nothing(c: RustBowConfigView)
    ensures
        spec_modify(
            c,
            RustBowConfigModifierView {
                charset: None,
                foreground: None,
                background: None,
                frame_nanos: None,
                chars_per_frame: None,
            },
        ) == c,
{
}

/// Modifying twice with the same modifier is modifying once.
pub proof fn law_modify_idempotent(c: RustBowConfigView, m: RustBowConfigModifierView)
    ensures
        spec_modify(spec_modify(c, m), m) == spec_modify(c, m),
{
}

/// A later modifier wins: modifying with `m1` and then `m2` is modifying
/// with `m2` the config that `m1` made.
pub proof fn law_modify_later_wins(
    c: RustBowConfigView,
    m1: RustBowConfigModifierView,
    m2: RustBowConfigModifierView,
)
    ensures
        spec_modify(spec_modify(c, m1), m2) == spec_modify(
            c,
            RustBowConfigModifierView {
                charset: match m2.charset {
                    Some(v) => Some(v),
                    None => m1.charset,
                },
                foreground: match m2.foreground {
                    Some(v) => Some(v),
                    None => m1.foreground,
                },
                background: match m2.background {
                    Some(v) => Some(v),
                    None => m1.background,
                },
                frame_nanos: match m2.frame_nanos {
                    Some(v) => Some(v),
                    None => m1.frame_nanos,
                },
                chars_per_frame: match m2.chars_per_frame {
                    Some(v) => Some(v),
                    None => m1.chars_per_frame,
                },
            },
        ),
{
}

} // verus!
