//! Colours and the ways of mixing two of them.
use vstd::prelude::*;
use crate::config::{
    keys_of, lookup, lemma_lookup_without_key, lemma_without_key, without_key, ConfigError,
    ConfigErrorView, ConfigSet, FromConfig, Pairs,
};

verus! {

/// An 8-bit RGBA colour.
#[derive(Debug, Clone, Copy, PartialEq, Eq, Structural)]
pub struct Rgba8 {
    pub r: u8,
    pub g: u8,
    pub b: u8,
    pub a: u8,
}

/// A method for mixing two colors together.
#[derive(Debug, Clone, Copy, PartialEq, Eq, Hash, Structural)]
pub enum MixMethod {
    /// Adds the RGB values of the modifier color to the base color, clamping at 255.
    Additive,
    /// Multiplies the RGB values of the base color by the modifier color, treating the modifier color as a value between 0 and 1.
    Multiply,
}

/// One channel mixed additively: the sum, clamped at 255.
pub open spec fn additive_channel(base: u8, modifier: u8) -> u8 {
    if base + modifier > 255 { 255 } else { (base + modifier) as u8 }
}

/// One channel mixed multiplicatively: `base * modifier / 255`, rounded down.
pub open spec fn multiply_channel(base: u8, modifier: u8) -> u8 {
    ((base * modifier) / 255) as u8
}

/// The channel that `method` gives for a base and a modifier channel.
pub open spec fn mix_channel(method: MixMethod, base: u8, modifier: u8) -> u8 {
    match method {
        MixMethod::Additive => additive_channel(base, modifier),
        MixMethod::Multiply => multiply_channel(base, modifier),
    }
}

/// The colour that `method` makes of `base` and `modifier`: each of red,
/// green and blue is mixed on its own, and alpha is the base's.
pub open spec fn spec_mix(method: MixMethod, base: Rgba8, modifier: Rgba8) -> Rgba8 {
    Rgba8 {
        r: mix_channel(method, base.r, modifier.r),
        g: mix_channel(method, base.g, modifier.g),
        b: mix_channel(method, base.b, modifier.b),
        a: base.a,
    }
}

fn multiply_u8(x: u8, y: u8) -> (r: u8)
    ensures
        r == multiply_channel(x, y),
{
    assert(x * y <= 65025) by (nonlinear_arith)
        requires
            x <= 255,
            y <= 255,
    ;
    let p: u16 = x as u16 * y as u16;
    (p / 255) as u8
}

/// Adding black changes nothing.
pub proof fn law_additive_black_is_identity(base: Rgba8, a: u8)
    ensures
        spec_mix(MixMethod::Additive, base, Rgba8 { r: 0, g: 0, b: 0, a }) == base,
{
}

/// Additive mixing never darkens a channel.
pub proof fn law_additive_brightens(base: Rgba8, modifier: Rgba8)
    ensures
        spec_mix(MixMethod::Additive, base, modifier).r >= base.r,
        spec_mix(MixMethod::Additive, base, modifier).g >= base.g,
        spec_mix(MixMethod::Additive, base, modifier).b >= base.b,
{
}

proof fn lemma_multiply_channel(x: u8, y: u8)
    ensures
        multiply_channel(x, y) == (x * y) / 255,
        multiply_channel(x, y) <= x,
        y == 255 ==> multiply_channel(x, y) == x,
        y == 0 ==> multiply_channel(x, y) == 0,
{
    assert((x * y) / 255 <= x) by (nonlinear_arith)
        requires
            x <= 255,
            y <= 255,
    ;
    assert(y == 255 ==> (x * y) / 255 == x) by (nonlinear_arith);
    assert(y == 0 ==> (x * y) / 255 == 0) by (nonlinear_arith);
}

/// Multiplying by white changes nothing: the modifier counts as 1.
pub proof fn law_multiply_white_is_identity(base: Rgba8, a: u8)
    ensures
        spec_mix(MixMethod::Multiply, base, Rgba8 { r: 255, g: 255, b: 255, a }) == base,
{
    lemma_multiply_channel(base.r, 255);
    lemma_multiply_channel(base.g, 255);
    lemma_multiply_channel(base.b, 255);
}

/// Multiplying by black gives black, with the base's alpha: the modifier counts as 0.
pub proof fn law_multiply_black_is_black(base: Rgba8, a: u8)
    ensures
        spec_mix(MixMethod::Multiply, base, Rgba8 { r: 0, g: 0, b: 0, a }) == (Rgba8 {
            r: 0,
            g: 0,
            b: 0,
            a: base.a,
        }),
{
    lemma_multiply_channel(base.r, 0);
    lemma_multiply_channel(base.g, 0);
    lemma_multiply_channel(base.b, 0);
}

/// Multiplying never brightens a channel.
pub proof fn law_multiply_darkens(base: Rgba8, modifier: Rgba8)
    ensures
        spec_mix(MixMethod::Multiply, base, modifier).r <= base.r,
        spec_mix(MixMethod::Multiply, base, modifier).g <= base.g,
        spec_mix(MixMethod::Multiply, base, modifier).b <= base.b,
{
    lemma_multiply_channel(base.r, modifier.r);
    lemma_multiply_channel(base.g, modifier.g);
    lemma_multiply_channel(base.b, modifier.b);
}

/// Additive mixing adds each channel of the modifier to the same channel of
/// the base, clamped at 255; the base's alpha is kept.
pub proof fn law_additive_adds_channelwise(base: Rgba8, modifier: Rgba8)
    ensures
        spec_mix(MixMethod::Additive, base, modifier).r == if base.r + modifier.r > 255 {
            255
        } else {
            base.r + modifier.r
        },
        spec_mix(MixMethod::Additive, base, modifier).g == if base.g + modifier.g > 255 {
            255
        } else {
            base.g + modifier.g
        },
        spec_mix(MixMethod::Additive, base, modifier).b == if base.b + modifier.b > 255 {
            255
        } else {
            base.b + modifier.b
        },
        spec_mix(MixMethod::Additive, base, modifier).a == base.a,
{
}

/// Multiplying scales each channel of the base by the same channel of the
/// modifier read as a fraction of 255, rounded down; the base's alpha is kept.
pub proof fn law_multiply_scales_channelwise(base: Rgba8, modifier: Rgba8)
    ensures
        spec_mix(MixMethod::Multiply, base, modifier).r == (base.r * modifier.r) / 255,
        spec_mix(MixMethod::Multiply, base, modifier).g == (base.g * modifier.g) / 255,
        spec_mix(MixMethod::Multiply, base, modifier).b == (base.b * modifier.b) / 255,
        spec_mix(MixMethod::Multiply, base, modifier).a == base.a,
{
    lemma_multiply_channel(base.r, modifier.r);
    lemma_multiply_channel(base.g, modifier.g);
    lemma_multiply_channel(base.b, modifier.b);
}

impl MixMethod {
    /// Mixes the base color and modifier color together using the specified mix method.
    pub fn mix(&self, base: Rgba8, modifier: Rgba8) -> (res: Rgba8)
        ensures
            res == spec_mix(*self, base, modifier),
            res.a == base.a,
            *self == MixMethod::Additive ==> {
                &&& res.r == if base.r + modifier.r > 255 { 255 } else { base.r + modifier.r }
                &&& res.g == if base.g + modifier.g > 255 { 255 } else { base.g + modifier.g }
                &&& res.b == if base.b + modifier.b > 255 { 255 } else { base.b + modifier.b }
            },
            *self == MixMethod::Multiply ==> {
                &&& res.r == (base.r * modifier.r) / 255
                &&& res.g == (base.g * modifier.g) / 255
                &&& res.b == (base.b * modifier.b) / 255
            },
    {
        proof {
            lemma_multiply_channel(base.r, modifier.r);
            lemma_multiply_channel(base.g, modifier.g);
            lemma_multiply_channel(base.b, modifier.b);
        }
        match self {
            MixMethod::Additive => Rgba8 {
                r: base.r.saturating_add(modifier.r),
                g: base.g.saturating_add(modifier.g),
                b: base.b.saturating_add(modifier.b),
                a: base.a,
            },
            MixMethod::Multiply => Rgba8 {
                r: multiply_u8(base.r, modifier.r),
                g: multiply_u8(base.g, modifier.g),
                b: multiply_u8(base.b, modifier.b),
                a: base.a,
            },
        }
    }
}

} // verus!

verus! {

/// The settings of a generator that shifts the hue of its colour by a
/// fixed rate at each sample, as given in a configuration string: the
/// change rate (`rate`) and the initial hue, saturation and lightness
/// (`h`, `s`, `l`), each as the text that was given, or `None` where the
/// key was absent and the generator's default applies.
#[derive(Debug)]
pub struct HueShiftConfig {
    pub rate: Option<String>,
    pub hue: Option<String>,
    pub saturation: Option<String>,
    pub lightness: Option<String>,
}

/// The text of a [`HueShiftConfig`] as sequences of `char`.
pub struct HueShiftConfigView {
    pub rate: Option<Seq<char>>,
    pub hue: Option<Seq<char>>,
    pub saturation: Option<Seq<char>>,
    pub lightness: Option<Seq<char>>,
}

impl View for HueShiftConfig {
    type V = HueShiftConfigView;

    open spec fn view(&self) -> HueShiftConfigView {
        HueShiftConfigView {
            rate: self.rate.deep_view(),
            hue: self.hue.deep_view(),
            saturation: self.saturation.deep_view(),
            lightness: self.lightness.deep_view(),
        }
    }
}

/// The pairs left once the keys of a hue shift generator are taken out.
pub open spec fn hue_shift_rest(ps: Pairs) -> Pairs {
    without_key(without_key(without_key(without_key(ps, "rate"@), "h"@), "s"@), "l"@)
}

/// The hue shift settings that the pairs `ps` give: the values of `rate`,
/// `h`, `s` and `l`, or an error naming the keys that are none of these.
pub open spec fn spec_hue_shift_config(ps: Pairs) -> Result<HueShiftConfigView, ConfigErrorView> {
    let rest = hue_shift_rest(ps);
    if rest.len() == 0 {
        Ok(
            HueShiftConfigView {
                rate: lookup(ps, "rate"@),
                hue: lookup(ps, "h"@),
                saturation: lookup(ps, "s"@),
                lightness: lookup(ps, "l"@),
            },
        )
    } else {
        Err(ConfigErrorView::UnknownKeys(keys_of(rest)))
    }
}

impl Clone for HueShiftConfig {
    fn clone(&self) -> (r: Self)
        ensures
            r@ == self@,
    {
        HueShiftConfig {
            rate: match &self.rate {
                Some(v) => Some(v.clone()),
                None => None,
            },
            hue: match &self.hue {
                Some(v) => Some(v.clone()),
                None => None,
            },
            saturation: match &self.saturation {
                Some(v) => Some(v.clone()),
                None => None,
            },
            lightness: match &self.lightness {
                Some(v) => Some(v.clone()),
                None => None,
            },
        }
    }
}

impl Default for HueShiftConfig {
    /// The settings with every value left to the generator's default.
    fn default() -> (r: Self)
        ensures
            r.rate is None,
            r.hue is None,
            r.saturation is None,
            r.lightness is None,
    {
        HueShiftConfig { rate: None, hue: None, saturation: None, lightness: None }
    }
}

impl FromConfig for HueShiftConfig {
    type Err = ConfigError;

    /// Takes `rate`, `h`, `s` and `l` out of `cfg`; any other key left there
    /// is an error.
    fn from_config(cfg: &mut ConfigSet) -> (r: Result<Self, ConfigError>)
        ensures
            final(cfg)@ == hue_shift_rest(old(cfg)@),
            match spec_hue_shift_config(old(cfg)@) {
                Ok(c) => r matches Ok(x) && x@ == c,
                Err(e) => r matches Err(x) && x@ == e,
            },
    {
        let ghost ps = cfg@;
        let rate = cfg.take("rate");
        let hue = cfg.take("h");
        let saturation = cfg.take("s");
        let lightness = cfg.take("l");
        proof {
            reveal_strlit("rate");
            reveal_strlit("h");
            reveal_strlit("s");
            reveal_strlit("l");
            assert("rate"@.len() == 4);
            assert("h"@.len() == 1);
            assert("h"@[0] == 'h');
            assert("s"@[0] == 's');
            assert("l"@[0] == 'l');
            let p1 = without_key(ps, "rate"@);
            let p2 = without_key(p1, "h"@);
            lemma_lookup_without_key(ps, "rate"@, "h"@);
            lemma_without_key(ps, "rate"@);
            lemma_lookup_without_key(ps, "rate"@, "s"@);
            lemma_lookup_without_key(p1, "h"@, "s"@);
            lemma_without_key(p1, "h"@);
            lemma_lookup_without_key(ps, "rate"@, "l"@);
            lemma_lookup_without_key(p1, "h"@, "l"@);
            lemma_lookup_without_key(p2, "s"@, "l"@);
        }
        if cfg.len() == 0 {
            Ok(HueShiftConfig { rate, hue, saturation, lightness })
        } else {
            Err(ConfigError::UnknownKeys { keys: cfg.keys() })
        }
    }
}

} // verus!
