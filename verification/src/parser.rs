//! Utils for parsing CLI arguments.
use vstd::prelude::*;
use crate::color_gen::{spec_hue_shift_config, HueShiftConfig, HueShiftConfigView};
use crate::config::set::{
    distinct_keys, key_index, lemma_key_index, lemma_lookup_without_key, lemma_with_entry_distinct,
    lemma_without_key, with_entry, without_key,
};
use crate::config::{
    generator_result, spec_parse_generator, ColorGeneratorConfig, ConfigError, ConfigErrorView,
    ConfigSet, FromConfig, Pairs,
};
use crate::text::{
    before_first, chars_of, count_char, count_in, find_char, find_in, lemma_count_char_pos,
    all_whitespace, is_trimmed, law_trim, lemma_find_char, lemma_split_on_len, split_on, string_of,
    trim, trim_bounds,
};

verus! {

/// The default color generator type to use if not specified in the config string.
pub const DEFAULT_COLOR_GEN_TYPE: &'static str = "hue_shift";

/// The generator type and the attributes that lead a colour string, if it
/// names a generator. The first section, before any `,`, is looked at:
/// with no `:` it is a bare generator type and there are no attributes;
/// with one `:` that does not end it, it is an attribute (`rate:0.1`) and
/// no generator is named; otherwise the generator type is what comes before
/// the first `:` and the attributes are all that follows it.
pub open spec fn spec_leading_component(s: Seq<char>) -> Option<(Seq<char>, Seq<char>)> {
    let section = before_first(s, ',');
    let colons = count_char(section, ':');
    if colons == 0 {
        Some((section, Seq::<char>::empty()))
    } else if colons == 1 && section.last() != ':' {
        None
    } else {
        let i = find_char(s, ':').unwrap();
        Some((s.take(i), s.skip(i + 1)))
    }
}

/// The generator config that a colour string denotes, `hue_shift` where it
/// names no generator type.
pub open spec fn spec_parse_color_str(s: Seq<char>) -> Result<
    crate::config::ColorGeneratorConfigView,
    crate::config::ConfigErrorView,
> {
    match spec_leading_component(s) {
        Some((gentype, attributes)) => spec_parse_generator(gentype, attributes),
        None => spec_parse_generator(DEFAULT_COLOR_GEN_TYPE@, s),
    }
}

/// Where the first section holds a `:`, the generator type and the
/// attributes are the string cut at its first `:`: the type holds no `:`,
/// and type, `:` and attributes together give the string back.
pub proof fn law_leading_component_cuts_at_first_colon(s: Seq<char>)
    requires
        count_char(before_first(s, ','), ':') > 0,
        spec_leading_component(s) is Some,
    ensures
        spec_leading_component(s) matches Some((g, a)) && s == g.push(':') + a && !g.contains(
            ':',
        ),
{
    let section = before_first(s, ',');
    lemma_count_char_pos(section, ':');
    lemma_find_char(s, ',');
    let j = choose|j: int| 0 <= j < section.len() && section[j] == ':';
    assert(s[j] == ':');
    lemma_find_char(s, ':');
    let i = find_char(s, ':').unwrap();
    assert(s.take(i).push(':') + s.skip(i + 1) =~= s);
    assert forall|k: int| 0 <= k < s.take(i).len() implies s.take(i)[k] != ':' by {}
}

/// Parses a color generator config string into a `ColorGeneratorConfig`.
///
/// The format of this string is the following, where `generator_type` is optional and defaults to `hue_shift`:
///
/// `generator_type:attrib1:value1,attrib2:value2,...`
pub fn parse_color_str(cstr: &str) -> (r: Result<ColorGeneratorConfig, ConfigError>)
    ensures
        generator_result(r) == spec_parse_color_str(cstr@),
{
    match leading_component(cstr) {
        Some((gentype, attributes)) => ColorGeneratorConfig::parse(gentype, attributes),
        None => ColorGeneratorConfig::parse(DEFAULT_COLOR_GEN_TYPE, cstr),
    }
}

/// Splits the leading generator type off a colour string; see
/// [`spec_leading_component`].
pub fn leading_component(s: &str) -> (r: Option<(&str, &str)>)
    ensures
        match spec_leading_component(s@) {
            Some((g, a)) => r matches Some((x, y)) && x@ == g && y@ == a,
            None => r is None,
        },
{
    let v = chars_of(s);
    let n = v.len();
    proof {
        assert(v@.subrange(0, n as int) =~= v@);
    }
    let end = match find_in(&v, 0, n, ',') {
        Some(i) => i,
        None => n,
    };
    let ghost section = v@.subrange(0, end as int);
    assert(section =~= before_first(s@, ','));
    let colons = count_in(&v, 0, end, ':');
    if colons == 0 {
        return Some((s.substring_char(0, end), s.substring_char(n, n)));
    }
    proof {
        lemma_count_char_pos(section, ':');
    }
    if colons == 1 && v[end - 1] != ':' {
        return None;
    }
    proof {
        let j = choose|j: int| 0 <= j < section.len() && section[j] == ':';
        assert(v@[j] == ':');
        lemma_find_char(v@, ':');
    }
    match find_in(&v, 0, n, ':') {
        Some(i) => {
            assert(s@.take(i as int) =~= s@.subrange(0, i as int));
            assert(s@.skip(i + 1) =~= s@.subrange(i + 1, n as int));
            Some((s.substring_char(0, i), s.substring_char(i + 1, n)))
        },
        None => None,
    }
}

/// The two parts of a speed string `<fps>:<chars_per_frame>`: the text
/// before the first `:` and the text between it and the next `:` (or the
/// end), each trimmed. A string with no `:` has no second part.
pub open spec fn spec_split_speed(s: Seq<char>) -> Option<(Seq<char>, Seq<char>)> {
    match find_char(s, ':') {
        None => None,
        Some(i) => Some((trim(s.take(i)), trim(before_first(s.skip(i + 1), ':')))),
    }
}

/// Splits a speed string `<fps>:<chars_per_frame>` into its two parts; see
/// [`spec_split_speed`]. Parts after the second are ignored.
pub fn split_speed(speed_str: &str) -> (r: Option<(&str, &str)>)
    ensures
        match spec_split_speed(speed_str@) {
            Some((f, c)) => r matches Some((x, y)) && x@ == f && y@ == c,
            None => r is None,
        },
{
    let v = chars_of(speed_str);
    let n = v.len();
    proof {
        assert(v@.subrange(0, n as int) =~= v@);
    }
    match find_in(&v, 0, n, ':') {
        None => None,
        Some(i) => {
            let j = match find_in(&v, i + 1, n, ':') {
                Some(j) => j,
                None => n,
            };
            let ghost rest = speed_str@.skip(i + 1);
            assert(rest =~= v@.subrange(i + 1, n as int));
            assert(before_first(rest, ':') =~= v@.subrange(i + 1, j as int));
            assert(speed_str@.take(i as int) =~= v@.subrange(0, i as int));
            let (a, b) = trim_bounds(&v, 0, i);
            let (c, d) = trim_bounds(&v, i + 1, j);
            Some((speed_str.substring_char(a, b), speed_str.substring_char(c, d)))
        },
    }
}

/// The keys that an inline colour string may give.
pub open spec fn inline_key_known(k: Seq<char>) -> bool {
    k == "rate"@ || k == "h"@ || k == "s"@ || k == "l"@
}

/// What one comma-separated part of an inline colour string gives: the
/// part is trimmed, its key is what comes before the first `:` (trimmed),
/// and its value what follows (trimmed). A key other than `rate`, `h`, `s`
/// and `l` is an error, and so, after that, is a part with no `:`.
pub open spec fn inline_entry(part: Seq<char>) -> Result<(Seq<char>, Seq<char>), ConfigErrorView> {
    let t = trim(part);
    let key = trim(before_first(t, ':'));
    if !inline_key_known(key) {
        Err(ConfigErrorView::UnknownKeys(seq![key]))
    } else {
        match find_char(t, ':') {
            None => Err(ConfigErrorView::MissingValue(t)),
            Some(i) => Ok((key, trim(t.skip(i + 1)))),
        }
    }
}

/// The pairs that the parts give, a later value for a key replacing an
/// earlier one; or the error of the first bad part.
pub open spec fn inline_entries(parts: Seq<Seq<char>>) -> Result<Pairs, ConfigErrorView>
    decreases parts.len(),
{
    if parts.len() == 0 {
        Ok(Seq::empty())
    } else {
        match inline_entries(parts.drop_last()) {
            Err(e) => Err(e),
            Ok(ps) => match inline_entry(parts.last()) {
                Err(e) => Err(e),
                Ok((k, v)) => Ok(with_entry(ps, k, v)),
            },
        }
    }
}

/// The hue shift settings that an inline colour string
/// `key:value,key:value,...` gives.
pub open spec fn spec_parse_inline_color_str(s: Seq<char>) -> Result<
    HueShiftConfigView,
    ConfigErrorView,
> {
    match inline_entries(split_on(s, ',')) {
        Err(e) => Err(e),
        Ok(ps) => spec_hue_shift_config(ps),
    }
}

/// Every key of `ps` is one an inline colour string may give.
pub open spec fn keys_known(ps: Pairs) -> bool {
    forall|j: int| 0 <= j < ps.len() ==> inline_key_known(#[trigger] ps[j].0)
}

proof fn lemma_inline_entries_known(parts: Seq<Seq<char>>)
    ensures
        inline_entries(parts) matches Ok(ps) ==> keys_known(ps) && distinct_keys(ps),
    decreases parts.len(),
{
    if parts.len() > 0 {
        lemma_inline_entries_known(parts.drop_last());
        match inline_entries(parts.drop_last()) {
            Ok(ps) => match inline_entry(parts.last()) {
                Ok((k, v)) => {
                    lemma_with_entry_distinct(ps, k, v);
                    lemma_key_index(ps, k);
                    let r = with_entry(ps, k, v);
                    assert forall|j: int| 0 <= j < r.len() implies inline_key_known(
                        #[trigger] r[j].0,
                    ) by {
                        if j < ps.len() && r[j] == ps[j] {
                        } else {
                            assert(r[j].0 == k);
                        }
                    }
                },
                Err(_) => {},
            },
            Err(_) => {},
        }
    }
}

proof fn lemma_without_key_known(ps: Pairs, k: Seq<char>)
    requires
        keys_known(ps),
    ensures
        keys_known(without_key(ps, k)),
{
    lemma_key_index(ps, k);
    match key_index(ps, k) {
        Some(i) => {
            let r = without_key(ps, k);
            assert forall|j: int| 0 <= j < r.len() implies inline_key_known(#[trigger] r[j].0) by {
                assert(r[j] == ps[if j < i { j } else { j + 1 }]);
            }
        },
        None => {},
    }
}

/// An inline colour string whose parts all parse gives hue shift settings:
/// it cannot hold a key that the settings do not take.
pub proof fn law_inline_entries_give_settings(s: Seq<char>)
    requires
        inline_entries(split_on(s, ',')) is Ok,
    ensures
        spec_parse_inline_color_str(s) is Ok,
{
    let ps = match inline_entries(split_on(s, ',')) {
        Ok(ps) => ps,
        Err(_) => Seq::empty(),
    };
    lemma_inline_entries_known(split_on(s, ','));
    reveal_strlit("rate");
    reveal_strlit("h");
    reveal_strlit("s");
    reveal_strlit("l");
    assert("rate"@.len() == 4);
    assert("h"@.len() == 1 && "h"@[0] == 'h');
    assert("s"@.len() == 1 && "s"@[0] == 's');
    assert("l"@.len() == 1 && "l"@[0] == 'l');
    let p1 = without_key(ps, "rate"@);
    let p2 = without_key(p1, "h"@);
    let p3 = without_key(p2, "s"@);
    let p4 = without_key(p3, "l"@);
    lemma_without_key(ps, "rate"@);
    lemma_without_key(p1, "h"@);
    lemma_without_key(p2, "s"@);
    lemma_without_key(p3, "l"@);
    lemma_without_key_known(ps, "rate"@);
    lemma_without_key_known(p1, "h"@);
    lemma_without_key_known(p2, "s"@);
    lemma_without_key_known(p3, "l"@);
    lemma_lookup_without_key(p1, "h"@, "rate"@);
    lemma_lookup_without_key(p2, "s"@, "rate"@);
    lemma_lookup_without_key(p3, "l"@, "rate"@);
    lemma_lookup_without_key(p2, "s"@, "h"@);
    lemma_lookup_without_key(p3, "l"@, "h"@);
    lemma_lookup_without_key(p3, "l"@, "s"@);
    if p4.len() > 0 {
        let k = p4[0].0;
        assert(inline_key_known(k));
        lemma_key_index(p4, k);
        lemma_key_index(p4, "rate"@);
        lemma_key_index(p4, "h"@);
        lemma_key_index(p4, "s"@);
        lemma_key_index(p4, "l"@);
    }
}

/// The key and the value of an inline entry carry no surrounding white
/// space: the value is the text after the part's first `:` with only the
/// white space around it taken off.
pub proof fn law_inline_entry_trims(part: Seq<char>)
    ensures
        inline_entry(part) matches Ok((k, v)) ==> {
            let t = trim(part);
            let after = t.skip(find_char(t, ':').unwrap() + 1);
            &&& is_trimmed(k)
            &&& is_trimmed(v)
            &&& exists|a: int, b: int|
                0 <= a <= b <= after.len() && after.subrange(a, b) == v && all_whitespace(
                    after.take(a),
                ) && all_whitespace(after.skip(b))
        },
{
    let t = trim(part);
    law_trim(before_first(t, ':'));
    match find_char(t, ':') {
        Some(i) => {
            let r = law_trim(t.skip(i + 1));
        },
        None => {},
    }
}

/// Every value an inline colour string gives has no surrounding white space.
pub proof fn law_inline_values_trimmed(s: Seq<char>)
    ensures
        spec_parse_inline_color_str(s) matches Ok(c) ==> {
            &&& c.rate matches Some(v) ==> is_trimmed(v)
            &&& c.hue matches Some(v) ==> is_trimmed(v)
            &&& c.saturation matches Some(v) ==> is_trimmed(v)
            &&& c.lightness matches Some(v) ==> is_trimmed(v)
        },
{
    let parts = split_on(s, ',');
    lemma_inline_values_trimmed(parts);
    match inline_entries(parts) {
        Ok(ps) => {
            lemma_key_index(ps, "rate"@);
            lemma_key_index(ps, "h"@);
            lemma_key_index(ps, "s"@);
            lemma_key_index(ps, "l"@);
        },
        Err(_) => {},
    }
}

proof fn lemma_inline_values_trimmed(parts: Seq<Seq<char>>)
    ensures
        inline_entries(parts) matches Ok(ps) ==> forall|j: int|
            0 <= j < ps.len() ==> is_trimmed(#[trigger] ps[j].1),
    decreases parts.len(),
{
    if parts.len() > 0 {
        lemma_inline_values_trimmed(parts.drop_last());
        law_inline_entry_trims(parts.last());
        match inline_entries(parts.drop_last()) {
            Ok(ps) => match inline_entry(parts.last()) {
                Ok((k, v)) => {
                    lemma_key_index(ps, k);
                    let r = with_entry(ps, k, v);
                    assert forall|j: int| 0 <= j < r.len() implies is_trimmed(#[trigger] r[j].1) by {
                        if j < ps.len() && r[j] == ps[j] {
                        } else {
                            assert(r[j].1 == v);
                        }
                    }
                },
                Err(_) => {},
            },
            Err(_) => {},
        }
    }
}

/// The view of an inline parse result.
pub open spec fn hue_shift_result(r: Result<HueShiftConfig, ConfigError>) -> Result<
    HueShiftConfigView,
    ConfigErrorView,
> {
    match r {
        Ok(c) => Ok(c@),
        Err(e) => Err(e@),
    }
}

/// Parses the part `s[lo..hi]` of an inline colour string; see [`inline_entry`].
fn inline_part(s: &[char], lo: usize, hi: usize) -> (r: Result<(String, String), ConfigError>)
    requires
        lo <= hi <= s@.len(),
    ensures
        match inline_entry(s@.subrange(lo as int, hi as int)) {
            Ok((k, v)) => r matches Ok((x, y)) && x@ == k && y@ == v,
            Err(e) => r matches Err(x) && x@ == e,
        },
{
    let (a, b) = trim_bounds(s, lo, hi);
    let ghost t = s@.subrange(a as int, b as int);
    let colon = find_in(s, a, b, ':');
    let end = match colon {
        Some(i) => i,
        None => b,
    };
    assert(before_first(t, ':') =~= s@.subrange(a as int, end as int));
    let (ka, kb) = trim_bounds(s, a, end);
    let key = string_of(s, ka, kb);
    let known = key == String::from_str("rate") || key == String::from_str("h") || key
        == String::from_str("s") || key == String::from_str("l");
    if !known {
        let keys = vec![key];
        assert(keys.deep_view() =~= seq![keys@[0]@]);
        return Err(ConfigError::UnknownKeys { keys });
    }
    match colon {
        None => Err(ConfigError::MissingValue { entry: string_of(s, a, b) }),
        Some(i) => {
            assert(t.skip(i - a + 1) =~= s@.subrange(i + 1, b as int));
            let (va, vb) = trim_bounds(s, i + 1, b);
            Ok((key, string_of(s, va, vb)))
        },
    }
}

/// Parses an inline colour string `key:value,key:value,...` with the keys
/// `rate`, `h`, `s` and `l` into hue shift settings; see
/// [`spec_parse_inline_color_str`]. Every part must be such an entry: a
/// blank part is an unknown (empty) key.
pub fn parse_inline_color_str(cstr: &str) -> (r: Result<HueShiftConfig, ConfigError>)
    ensures
        hue_shift_result(r) == spec_parse_inline_color_str(cstr@),
{
    let v = chars_of(cstr);
    let n = v.len();
    let mut set = ConfigSet::empty();
    let mut failure: Option<ConfigError> = None;
    let mut start: usize = 0;
    let mut i: usize = 0;
    proof {
        assert(v@.take(0) =~= Seq::<char>::empty());
        assert(split_on(v@.take(0), ',').drop_last() =~= Seq::<Seq<char>>::empty());
        assert(v@.subrange(0, 0) =~= Seq::<char>::empty());
    }
    while i < n
        invariant
            v@ == cstr@,
            n == v@.len(),
            start <= i <= n,
            split_on(v@.take(i as int), ',').len() >= 1,
            split_on(v@.take(i as int), ',').last() == v@.subrange(start as int, i as int),
            match failure {
                None => inline_entries(split_on(v@.take(i as int), ',').drop_last()) == Ok::<
                    Pairs,
                    ConfigErrorView,
                >(set@),
                Some(e) => inline_entries(split_on(v@.take(i as int), ',').drop_last()) == Err::<
                    Pairs,
                    ConfigErrorView,
                >(e@),
            },
        decreases n - i,
    {
        let ghost prev = split_on(v@.take(i as int), ',');
        assert(v@.take(i + 1).drop_last() =~= v@.take(i as int));
        if v[i] == ',' {
            let ghost next = split_on(v@.take(i + 1), ',');
            assert(next == prev.push(Seq::<char>::empty()));
            assert(next.drop_last() =~= prev);
            if failure.is_none() {
                match inline_part(&v, start, i) {
                    Ok((k, val)) => set.insert(k, val),
                    Err(e) => {
                        failure = Some(e);
                    },
                }
            }
            start = i + 1;
            assert(next.last() =~= v@.subrange(start as int, i + 1));
        } else {
            let ghost next = split_on(v@.take(i + 1), ',');
            assert(next.drop_last() =~= prev.drop_last());
            assert(next.last() =~= v@.subrange(start as int, i + 1));
        }
        i = i + 1;
    }
    proof {
        assert(v@.take(n as int) =~= v@);
        lemma_split_on_len(v@, ',');
    }
    match failure {
        Some(e) => Err(e),
        None => match inline_part(&v, start, n) {
            Ok((k, val)) => {
                set.insert(k, val);
                HueShiftConfig::from_config(&mut set)
            },
            Err(e) => Err(e),
        },
    }
}

/// Whether every char of `s` is an ASCII digit.
pub open spec fn all_digits(s: Seq<char>) -> bool {
    forall|i: int| 0 <= i < s.len() ==> '0' <= #[trigger] s[i] <= '9'
}

/// The number that the decimal digits `s` write.
pub open spec fn digits_value(s: Seq<char>) -> nat
    decreases s.len(),
{
    if s.len() == 0 {
        0
    } else {
        digits_value(s.drop_last()) * 10 + ((s.last() as u32) - ('0' as u32)) as nat
    }
}

/// The `u32` that `s` writes, as `u32::from_str` reads it: an optional `+`
/// and then one or more decimal digits, of a value that fits; `None` for
/// anything else (no white space is allowed).
pub open spec fn spec_parse_u32(s: Seq<char>) -> Option<u32> {
    let d = if s.len() > 0 && s[0] == '+' { s.drop_first() } else { s };
    if d.len() > 0 && all_digits(d) && digits_value(d) <= u32::MAX {
        Some(digits_value(d) as u32)
    } else {
        None
    }
}

/// A longer run of digits writes at least as large a number.
proof fn lemma_digits_value_prefix(s: Seq<char>, i: int)
    requires
        all_digits(s),
        0 <= i <= s.len(),
    ensures
        digits_value(s.take(i)) <= digits_value(s),
    decreases s.len(),
{
    if i < s.len() {
        assert(s.drop_last().take(i) =~= s.take(i));
        lemma_digits_value_prefix(s.drop_last(), i);
    } else {
        assert(s.take(i) =~= s);
    }
}

/// Parses a `u32` as `u32::from_str` does; see [`spec_parse_u32`].
pub fn parse_u32(s: &str) -> (r: Option<u32>)
    ensures
        r == spec_parse_u32(s@),
{
    let v = chars_of(s);
    let n = v.len();
    let start: usize = if n > 0 && v[0] == '+' { 1 } else { 0 };
    let ghost d = if s@.len() > 0 && s@[0] == '+' { s@.drop_first() } else { s@ };
    assert(d =~= v@.subrange(start as int, n as int));
    if start == n {
        return None;
    }
    let mut value: u64 = 0;
    let mut i: usize = start;
    proof {
        assert(d.take(0) =~= Seq::<char>::empty());
    }
    while i < n
        invariant
            start <= i <= n,
            n == v@.len(),
            d == v@.subrange(start as int, n as int),
            d == (if s@.len() > 0 && s@[0] == '+' { s@.drop_first() } else { s@ }),
            value <= u32::MAX,
            value == digits_value(d.take(i - start)),
            all_digits(d.take(i - start)),
        decreases n - i,
    {
        let c = v[i];
        if !('0' <= c && c <= '9') {
            assert(d[i - start] == c);
            assert(!all_digits(d));
            return None;
        }
        let digit = (c as u32 - '0' as u32) as u64;
        assert(d.take(i - start + 1).drop_last() =~= d.take(i - start));
        assert(d.take(i - start + 1).last() == c);
        let next = value * 10 + digit;
        if next > 0xFFFF_FFFFu64 {
            proof {
                assert(digits_value(d.take(i - start + 1)) == value * 10 + digit);
                if all_digits(d) {
                    lemma_digits_value_prefix(d, i - start + 1);
                    assert(digits_value(d) > u32::MAX);
                }
            }
            return None;
        }
        value = next;
        i = i + 1;
        assert(all_digits(d.take(i - start))) by {
            assert forall|j: int| 0 <= j < d.take(i - start).len() implies '0' <= #[trigger] d.take(
                i - start,
            )[j] <= '9' by {
                if j < i - start - 1 {
                    assert(d.take(i - start)[j] == d.take(i - start - 1)[j]);
                }
            }
        }
    }
    assert(d.take(n - start) =~= d);
    Some(value as u32)
}

} // verus!
