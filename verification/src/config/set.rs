//! Sets of configuration key-value pairs, parsed from `key1:value1,key2:value2,...`.
use vstd::prelude::*;
use crate::text::{
    chars_of, find_char, find_in, lemma_split_on_join, lemma_split_on_len, split_on, string_of, trim, trim_bounds,
};

verus! {

/// Key-value pairs in the order in which their keys first came.
pub type Pairs = Seq<(Seq<char>, Seq<char>)>;

/// An error in a configuration string.
#[derive(Debug)]
pub enum ConfigError {
    /// An entry with no `:`, and so no value.
    MissingValue { entry: String },
    /// Keys that nothing asked for.
    UnknownKeys { keys: Vec<String> },
    /// A colour generator type that does not exist.
    UnknownGenerator { name: String },
}

/// What a [`ConfigError`] says, with its text as sequences of `char`.
pub enum ConfigErrorView {
    MissingValue(Seq<char>),
    UnknownKeys(Seq<Seq<char>>),
    UnknownGenerator(Seq<char>),
}

impl View for ConfigError {
    type V = ConfigErrorView;

    open spec fn view(&self) -> ConfigErrorView {
        match self {
            ConfigError::MissingValue { entry } => ConfigErrorView::MissingValue(entry@),
            ConfigError::UnknownKeys { keys } => ConfigErrorView::UnknownKeys(keys.deep_view()),
            ConfigError::UnknownGenerator { name } => ConfigErrorView::UnknownGenerator(name@),
        }
    }
}

/// Something worth telling about a configuration string that still parses.
#[derive(Debug)]
pub enum ConfigNote {
    /// An entry that is blank, and so ignored.
    EmptyEntry,
    /// A key given again: the new value replaces the old one.
    DuplicateKey { key: String, old: String, new: String },
}

/// What a [`ConfigNote`] says, with its text as sequences of `char`.
pub enum ConfigNoteView {
    EmptyEntry,
    DuplicateKey(Seq<char>, Seq<char>, Seq<char>),
}

impl View for ConfigNote {
    type V = ConfigNoteView;

    open spec fn view(&self) -> ConfigNoteView {
        match self {
            ConfigNote::EmptyEntry => ConfigNoteView::EmptyEntry,
            ConfigNote::DuplicateKey { key, old, new } => ConfigNoteView::DuplicateKey(
                key@,
                old@,
                new@,
            ),
        }
    }
}

/// The views of a sequence of notes.
pub open spec fn notes_view(v: Seq<ConfigNote>) -> Seq<ConfigNoteView> {
    v.map_values(|n: ConfigNote| n@)
}

/// The note that a piece gives when taken onto the pairs `ps`: a blank
/// piece is ignored, and a key that `ps` already holds is replaced.
pub open spec fn note_of(ps: Pairs, piece: Seq<char>) -> Option<ConfigNoteView> {
    match entry_of(piece) {
        None => Some(ConfigNoteView::EmptyEntry),
        Some(Ok((k, v))) => match lookup(ps, k) {
            Some(old) => Some(ConfigNoteView::DuplicateKey(k, old, v)),
            None => None,
        },
        Some(Err(_)) => None,
    }
}

/// The notes that the pieces give, in order, up to the first bad piece.
pub open spec fn parse_notes(pieces: Seq<Seq<char>>) -> Seq<ConfigNoteView>
    decreases pieces.len(),
{
    if pieces.len() == 0 {
        Seq::empty()
    } else {
        let prev = parse_notes(pieces.drop_last());
        match parse_pieces(pieces.drop_last()) {
            Ok(ps) => match note_of(ps, pieces.last()) {
                Some(n) => prev.push(n),
                None => prev,
            },
            Err(_) => prev,
        }
    }
}

/// The notes about a configuration string.
pub open spec fn spec_config_notes(s: Seq<char>) -> Seq<ConfigNoteView> {
    parse_notes(split_on(s, ','))
}

/// No key occurs twice.
pub open spec fn distinct_keys(ps: Pairs) -> bool {
    forall|i: int, j: int| 0 <= i < j < ps.len() ==> ps[i].0 != ps[j].0
}

/// The index of the pair with key `k`, if there is one.
pub open spec fn key_index(ps: Pairs, k: Seq<char>) -> Option<int>
    decreases ps.len(),
{
    if ps.len() == 0 {
        None
    } else if ps[0].0 == k {
        Some(0)
    } else {
        match key_index(ps.drop_first(), k) {
            Some(i) => Some(i + 1),
            None => None,
        }
    }
}

/// The value stored under `k`.
pub open spec fn lookup(ps: Pairs, k: Seq<char>) -> Option<Seq<char>> {
    match key_index(ps, k) {
        Some(i) => Some(ps[i].1),
        None => None,
    }
}

/// `ps` with `k` mapped to `v`: the value replaced where `k` is present,
/// the pair added at the end where it is not.
pub open spec fn with_entry(ps: Pairs, k: Seq<char>, v: Seq<char>) -> Pairs {
    match key_index(ps, k) {
        Some(i) => ps.update(i, (k, v)),
        None => ps.push((k, v)),
    }
}

/// `ps` without the pair whose key is `k`.
pub open spec fn without_key(ps: Pairs, k: Seq<char>) -> Pairs {
    match key_index(ps, k) {
        Some(i) => ps.remove(i),
        None => ps,
    }
}

/// The keys of `ps`, in order.
pub open spec fn keys_of(ps: Pairs) -> Seq<Seq<char>> {
    ps.map_values(|p: (Seq<char>, Seq<char>)| p.0)
}

/// What one comma-separated piece of a configuration string contributes:
/// nothing where it is blank, else a key and value split at the first `:`,
/// each trimmed, or an error where there is no `:`.
pub open spec fn entry_of(piece: Seq<char>) -> Option<Result<(Seq<char>, Seq<char>), ConfigErrorView>> {
    let t = trim(piece);
    if t.len() == 0 {
        None
    } else {
        match find_char(t, ':') {
            None => Some(Err(ConfigErrorView::MissingValue(t))),
            Some(i) => Some(Ok((trim(t.take(i)), trim(t.skip(i + 1))))),
        }
    }
}

/// The pairs that the pieces give, taken in order, a later value for a key
/// replacing an earlier one; or the error of the first bad piece.
pub open spec fn parse_pieces(pieces: Seq<Seq<char>>) -> Result<Pairs, ConfigErrorView>
    decreases pieces.len(),
{
    if pieces.len() == 0 {
        Ok(Seq::empty())
    } else {
        match parse_pieces(pieces.drop_last()) {
            Err(e) => Err(e),
            Ok(ps) => match entry_of(pieces.last()) {
                None => Ok(ps),
                Some(Err(e)) => Err(e),
                Some(Ok((k, v))) => Ok(with_entry(ps, k, v)),
            },
        }
    }
}

/// The configuration set that a string `key1:value1,key2:value2,...` denotes.
pub open spec fn spec_parse_config_set(s: Seq<char>) -> Result<Pairs, ConfigErrorView> {
    parse_pieces(split_on(s, ','))
}

/// `key_index` finds the first pair with the key, and `None` only where there is none.
pub proof fn lemma_key_index(ps: Pairs, k: Seq<char>)
    ensures
        match key_index(ps, k) {
            Some(i) => 0 <= i < ps.len() && ps[i].0 == k && forall|j: int| 0 <= j < i ==> ps[j].0 != k,
            None => forall|j: int| 0 <= j < ps.len() ==> ps[j].0 != k,
        },
    decreases ps.len(),
{
    if ps.len() > 0 && ps[0].0 != k {
        lemma_key_index(ps.drop_first(), k);
        assert forall|j: int| 1 <= j < ps.len() implies ps[j] == ps.drop_first()[j - 1] by {}
    }
}

/// Adding an entry keeps the keys distinct.
pub proof fn lemma_with_entry_distinct(ps: Pairs, k: Seq<char>, v: Seq<char>)
    requires
        distinct_keys(ps),
    ensures
        distinct_keys(with_entry(ps, k, v)),
{
    lemma_key_index(ps, k);
}

/// Removing a key keeps the keys distinct, and the key is gone.
pub proof fn lemma_without_key(ps: Pairs, k: Seq<char>)
    requires
        distinct_keys(ps),
    ensures
        distinct_keys(without_key(ps, k)),
        key_index(without_key(ps, k), k) is None,
{
    lemma_key_index(ps, k);
    let r = without_key(ps, k);
    match key_index(ps, k) {
        Some(i) => {
            assert forall|a: int, b: int| 0 <= a < b < r.len() implies r[a].0 != r[b].0 by {
                let a2 = if a < i { a } else { a + 1 };
                let b2 = if b < i { b } else { b + 1 };
                assert(r[a] == ps[a2]);
                assert(r[b] == ps[b2]);
            }
            lemma_key_index(r, k);
            assert forall|j: int| 0 <= j < r.len() implies r[j].0 != k by {
                let j2 = if j < i { j } else { j + 1 };
                assert(r[j] == ps[j2]);
            }
        },
        None => {
            lemma_key_index(r, k);
        },
    }
}

/// Removing one key leaves what every other key looks up.
pub proof fn lemma_lookup_without_key(ps: Pairs, k1: Seq<char>, k2: Seq<char>)
    requires
        distinct_keys(ps),
        k1 != k2,
    ensures
        lookup(without_key(ps, k1), k2) == lookup(ps, k2),
{
    lemma_key_index(ps, k1);
    lemma_key_index(ps, k2);
    let r = without_key(ps, k1);
    lemma_key_index(r, k2);
    match key_index(ps, k1) {
        Some(i) => {
            assert forall|a: int| 0 <= a < r.len() implies r[a] == ps[if a < i { a } else { a + 1 }] by {}
            match key_index(ps, k2) {
                Some(j) => {
                    let j2 = if j < i { j } else { j - 1 };
                    assert(r[j2] == ps[j]);
                    match key_index(r, k2) {
                        Some(m) => {
                            let m2 = if m < i { m } else { m + 1 };
                            assert(r[m] == ps[m2]);
                            assert(m == j2);
                        },
                        None => {
                            assert(r[j2].0 == k2);
                        },
                    }
                },
                None => {
                    match key_index(r, k2) {
                        Some(m) => {
                            let m2 = if m < i { m } else { m + 1 };
                            assert(r[m] == ps[m2]);
                        },
                        None => {},
                    }
                },
            }
        },
        None => {},
    }
}

/// What is stored under a key is what was last written there, and writing
/// one key leaves the others as they were.
pub proof fn law_lookup_after_insert(ps: Pairs, k: Seq<char>, v: Seq<char>, other: Seq<char>)
    requires
        distinct_keys(ps),
        other != k,
    ensures
        lookup(with_entry(ps, k, v), k) == Some(v),
        lookup(with_entry(ps, k, v), other) == lookup(ps, other),
{
    lemma_key_index(ps, k);
    lemma_key_index(ps, other);
    lemma_with_entry_distinct(ps, k, v);
    let r = with_entry(ps, k, v);
    lemma_key_index(r, k);
    lemma_key_index(r, other);
    match key_index(ps, k) {
        Some(i) => {
            assert(r[i].0 == k);
            match key_index(ps, other) {
                Some(j) => {
                    assert(r[j] == ps[j]);
                },
                None => {},
            }
        },
        None => {
            assert(r[ps.len() as int].0 == k);
            match key_index(ps, other) {
                Some(j) => {
                    assert(r[j] == ps[j]);
                },
                None => {},
            }
        },
    }
}

/// Once a key is taken out, nothing is stored under it.
pub proof fn law_nothing_after_take(ps: Pairs, k: Seq<char>)
    requires
        distinct_keys(ps),
    ensures
        lookup(without_key(ps, k), k) is None,
{
    lemma_without_key(ps, k);
}

/// A parsed config set never holds a key twice.
pub proof fn law_parsed_keys_distinct(pieces: Seq<Seq<char>>)
    ensures
        parse_pieces(pieces) matches Ok(ps) ==> distinct_keys(ps),
    decreases pieces.len(),
{
    if pieces.len() > 0 {
        law_parsed_keys_distinct(pieces.drop_last());
        match parse_pieces(pieces.drop_last()) {
            Ok(ps) => match entry_of(pieces.last()) {
                Some(Ok((k, v))) => lemma_with_entry_distinct(ps, k, v),
                _ => {},
            },
            Err(_) => {},
        }
    }
}

/// Of two entries for one key, the later one's value is kept.
pub proof fn law_later_value_wins(pieces: Seq<Seq<char>>, piece: Seq<char>, k: Seq<char>, v: Seq<char>)
    requires
        entry_of(piece) == Some(Ok::<(Seq<char>, Seq<char>), ConfigErrorView>((k, v))),
        parse_pieces(pieces) is Ok,
    ensures
        parse_pieces(pieces.push(piece)) matches Ok(ps) && lookup(ps, k) == Some(v),
{
    assert(pieces.push(piece).drop_last() =~= pieces);
    law_parsed_keys_distinct(pieces);
    let ps = match parse_pieces(pieces) {
        Ok(ps) => ps,
        Err(_) => Seq::empty(),
    };
    lemma_with_entry_distinct(ps, k, v);
    lemma_key_index(ps, k);
    let r = with_entry(ps, k, v);
    lemma_key_index(r, k);
    match key_index(ps, k) {
        Some(i) => assert(r[i].0 == k),
        None => assert(r[ps.len() as int].0 == k),
    }
}

/// What the pieces give when taken onto the pairs `ps` rather than onto
/// an empty set.
pub open spec fn parse_pieces_onto(ps: Pairs, pieces: Seq<Seq<char>>) -> Result<Pairs, ConfigErrorView>
    decreases pieces.len(),
{
    if pieces.len() == 0 {
        Ok(ps)
    } else {
        match parse_pieces_onto(ps, pieces.drop_last()) {
            Err(e) => Err(e),
            Ok(qs) => match entry_of(pieces.last()) {
                None => Ok(qs),
                Some(Err(e)) => Err(e),
                Some(Ok((k, v))) => Ok(with_entry(qs, k, v)),
            },
        }
    }
}

/// Parsing pieces one after the other is parsing the later ones onto what
/// the earlier ones gave.
pub proof fn lemma_parse_pieces_append(p: Seq<Seq<char>>, q: Seq<Seq<char>>)
    ensures
        parse_pieces(p + q) == match parse_pieces(p) {
            Err(e) => Err(e),
            Ok(ps) => parse_pieces_onto(ps, q),
        },
    decreases q.len(),
{
    if q.len() == 0 {
        assert(p + q =~= p);
    } else {
        lemma_parse_pieces_append(p, q.drop_last());
        assert((p + q).drop_last() =~= p + q.drop_last());
        assert((p + q).last() == q.last());
    }
}

/// Parsing pieces onto `ps` succeeds exactly where parsing them alone does,
/// with the same error; where it succeeds, a key looks up what the pieces
/// gave it, or else what `ps` held.
pub proof fn lemma_parse_pieces_onto(ps: Pairs, q: Seq<Seq<char>>)
    requires
        distinct_keys(ps),
    ensures
        match (parse_pieces_onto(ps, q), parse_pieces(q)) {
            (Ok(c), Ok(b)) => distinct_keys(c) && forall|k: Seq<char>|
                #![trigger lookup(c, k)]
                lookup(c, k) == if lookup(b, k) is Some {
                    lookup(b, k)
                } else {
                    lookup(ps, k)
                },
            (Err(e1), Err(e2)) => e1 == e2,
            _ => false,
        },
    decreases q.len(),
{
    if q.len() == 0 {
        assert forall|k: Seq<char>| #![trigger lookup(ps, k)] lookup(Seq::empty(), k) is None by {
            lemma_key_index(Seq::empty(), k);
        }
    } else {
        lemma_parse_pieces_onto(ps, q.drop_last());
        law_parsed_keys_distinct(q.drop_last());
        match (parse_pieces_onto(ps, q.drop_last()), parse_pieces(q.drop_last())) {
            (Ok(c), Ok(b)) => match entry_of(q.last()) {
                Some(Ok((k, v))) => {
                    lemma_with_entry_distinct(c, k, v);
                    let c2 = with_entry(c, k, v);
                    let b2 = with_entry(b, k, v);
                    assert forall|j: Seq<char>| #![trigger lookup(c2, j)]
                        lookup(c2, j) == if lookup(b2, j) is Some {
                            lookup(b2, j)
                        } else {
                            lookup(ps, j)
                        } by {
                        let other = if j == k { seq!['x'] + k } else { j };
                        assert(other.len() != k.len() || j != k);
                        law_lookup_after_insert(c, k, v, other);
                        law_lookup_after_insert(b, k, v, other);
                        assert(lookup(c, j) == if lookup(b, j) is Some {
                            lookup(b, j)
                        } else {
                            lookup(ps, j)
                        });
                    }
                },
                _ => {},
            },
            _ => {},
        }
    }
}

/// Joining two configuration strings with a comma: the joined string
/// parses where both do, every key of either is present, and a key of the
/// second keeps the second's value (later entries override earlier ones).
pub proof fn law_join_later_overrides(a: Seq<char>, b: Seq<char>)
    requires
        spec_parse_config_set(a) is Ok,
        spec_parse_config_set(b) is Ok,
    ensures
        spec_parse_config_set(a + seq![','] + b) matches Ok(c) && forall|k: Seq<char>|
            #![trigger lookup(c, k)]
            lookup(c, k) == match spec_parse_config_set(b) {
                Ok(pb) => if lookup(pb, k) is Some {
                    lookup(pb, k)
                } else {
                    match spec_parse_config_set(a) {
                        Ok(pa) => lookup(pa, k),
                        Err(_) => None,
                    }
                },
                Err(_) => None,
            },
{
    lemma_split_on_join(a, b, ',');
    let p = split_on(a, ',');
    let q = split_on(b, ',');
    assert(split_on(a + seq![','] + b, ',') == p + q);
    lemma_parse_pieces_append(p, q);
    law_parsed_keys_distinct(p);
    let pa = match parse_pieces(p) {
        Ok(x) => x,
        Err(_) => Seq::empty(),
    };
    lemma_parse_pieces_onto(pa, q);
}

/// Blank entries are ignored.
pub proof fn law_blank_entry_ignored(pieces: Seq<Seq<char>>, piece: Seq<char>)
    requires
        trim(piece).len() == 0,
    ensures
        parse_pieces(pieces.push(piece)) == parse_pieces(pieces),
{
    assert(pieces.push(piece).drop_last() =~= pieces);
}

/// `ps` without the pairs whose keys are in `ks`.
pub open spec fn without_keys(ps: Pairs, ks: Seq<Seq<char>>) -> Pairs
    decreases ks.len(),
{
    if ks.len() == 0 {
        ps
    } else {
        without_key(without_keys(ps, ks.drop_last()), ks.last())
    }
}

/// The value of the first key of `ks` that `ps` holds.
pub open spec fn first_present(ps: Pairs, ks: Seq<Seq<char>>) -> Option<Seq<char>>
    decreases ks.len(),
{
    if ks.len() == 0 {
        None
    } else {
        match first_present(ps, ks.drop_last()) {
            Some(v) => Some(v),
            None => lookup(ps, ks.last()),
        }
    }
}

/// The keys of `ks` found present when they are taken out of `ps` one after
/// the other (a key listed twice is found once at most).
pub open spec fn found_keys(ps: Pairs, ks: Seq<Seq<char>>) -> Seq<Seq<char>>
    decreases ks.len(),
{
    if ks.len() == 0 {
        Seq::empty()
    } else {
        let prev = found_keys(ps, ks.drop_last());
        if lookup(without_keys(ps, ks.drop_last()), ks.last()) is Some {
            prev.push(ks.last())
        } else {
            prev
        }
    }
}

/// Removing keys keeps the others distinct, leaves what the other keys look
/// up, and leaves nothing under the removed ones.
pub proof fn lemma_without_keys(ps: Pairs, ks: Seq<Seq<char>>, k: Seq<char>)
    requires
        distinct_keys(ps),
    ensures
        distinct_keys(without_keys(ps, ks)),
        lookup(without_keys(ps, ks), k) == if ks.contains(k) {
            None
        } else {
            lookup(ps, k)
        },
    decreases ks.len(),
{
    if ks.len() > 0 {
        let prev = without_keys(ps, ks.drop_last());
        lemma_without_keys(ps, ks.drop_last(), k);
        lemma_without_key(prev, ks.last());
        if ks.last() != k {
            lemma_lookup_without_key(prev, ks.last(), k);
        }
        assert(ks.contains(k) <==> (ks.drop_last().contains(k) || ks.last() == k)) by {
            if ks.contains(k) {
                let j = choose|j: int| 0 <= j < ks.len() && ks[j] == k;
                if j < ks.len() - 1 {
                    assert(ks.drop_last()[j] == k);
                }
            }
            if ks.drop_last().contains(k) {
                let j = choose|j: int| 0 <= j < ks.drop_last().len() && ks.drop_last()[j] == k;
                assert(ks[j] == k);
            }
            if ks.last() == k {
                assert(ks[ks.len() - 1] == k);
            }
        }
    }
}

/// Where no key of `ks` is present, each of them looks up nothing.
pub proof fn lemma_first_present_none(ps: Pairs, ks: Seq<Seq<char>>, k: Seq<char>)
    requires
        first_present(ps, ks) is None,
        ks.contains(k),
    ensures
        lookup(ps, k) is None,
    decreases ks.len(),
{
    if ks.last() != k {
        let j = choose|j: int| 0 <= j < ks.len() && ks[j] == k;
        assert(ks.drop_last()[j] == k);
        lemma_first_present_none(ps, ks.drop_last(), k);
    }
}

/// A set of config key-value pairs, used for parsing color generator configs.
///
/// This is in the format of `key1:value1,key2:value2,...`. The keys and values are both strings, and the keys are case-sensitive.
/// There is no escaping mechanism, so probably only numeral values should be used
#[derive(Debug)]
pub struct ConfigSet {
    entries: Vec<(String, String)>,
}

impl View for ConfigSet {
    type V = Pairs;

    closed spec fn view(&self) -> Pairs {
        self.entries.deep_view()
    }
}

impl ConfigSet {
    /// No key occurs twice.
    #[verifier::type_invariant]
    spec fn inv(&self) -> bool {
        distinct_keys(self@)
    }

    /// Creates an empty config set.
    pub fn empty() -> (r: Self)
        ensures
            r@ == Seq::<(Seq<char>, Seq<char>)>::empty(),
    {
        let r = ConfigSet { entries: Vec::new() };
        assert(r@ =~= Seq::<(Seq<char>, Seq<char>)>::empty());
        r
    }

    /// The number of pairs.
    pub fn len(&self) -> (n: usize)
        ensures
            n == self@.len(),
            distinct_keys(self@),
    {
        proof {
            use_type_invariant(self);
        }
        self.entries.len()
    }

    /// The index of the pair with key `key`.
    fn index_of(&self, key: &String) -> (r: Option<usize>)
        ensures
            match r {
                Some(i) => key_index(self@, key@) == Some(i as int),
                None => key_index(self@, key@) is None,
            },
    {
        proof {
            lemma_key_index(self@, key@);
        }
        let n = self.entries.len();
        let mut i: usize = 0;
        while i < n
            invariant
                n == self.entries@.len(),
                n == self@.len(),
                0 <= i <= n,
                forall|j: int| 0 <= j < i ==> self@[j].0 != key@,
                match key_index(self@, key@) {
                    Some(i) => 0 <= i < self@.len() && self@[i].0 == key@ && forall|j: int|
                        0 <= j < i ==> self@[j].0 != key@,
                    None => forall|j: int| 0 <= j < self@.len() ==> self@[j].0 != key@,
                },
            decreases n - i,
        {
            assert(self@[i as int].0 == self.entries@[i as int].0@);
            if self.entries[i].0 == *key {
                return Some(i);
            }
            i = i + 1;
        }
        None
    }

    /// Maps `key` to `value`, replacing the value that `key` had.
    pub fn insert(&mut self, key: String, value: String)
        ensures
            final(self)@ == with_entry(old(self)@, key@, value@),
    {
        proof {
            use_type_invariant(&*self);
            lemma_with_entry_distinct(self@, key@, value@);
            lemma_key_index(self@, key@);
        }
        let ghost k = key@;
        let ghost v = value@;
        let found = self.index_of(&key);
        let mut entries: Vec<(String, String)> = Vec::new();
        std::mem::swap(&mut entries, &mut self.entries);
        match found {
            Some(i) => {
                entries.set(i, (key, value));
            },
            None => {
                entries.push((key, value));
            },
        }
        assert(entries.deep_view() =~= with_entry(old(self)@, k, v));
        self.entries = entries;
    }

    /// Removes the pair with key `key` from the config set and gives its
    /// value, as text: a caller that wants a number parses it, or uses
    /// [`ConfigSet::take_with_parser`].
    pub fn take(&mut self, key: &str) -> (r: Option<String>)
        ensures
            final(self)@ == without_key(old(self)@, key@),
            r.deep_view() == lookup(old(self)@, key@),
            distinct_keys(old(self)@),
            distinct_keys(final(self)@),
    {
        proof {
            use_type_invariant(&*self);
            lemma_without_key(self@, key@);
            lemma_key_index(self@, key@);
        }
        let k = String::from_str(key);
        match self.index_of(&k) {
            Some(i) => {
                let mut entries: Vec<(String, String)> = Vec::new();
                std::mem::swap(&mut entries, &mut self.entries);
                let (_, v) = entries.remove(i);
                assert(entries.deep_view() =~= without_key(old(self)@, key@));
                self.entries = entries;
                Some(v)
            },
            None => None,
        }
    }

    /// Removes all of the given keys, and gives the value of the first of
    /// them that was present (a value under a later key is dropped).
    pub fn take_any(&mut self, keys: &[&str]) -> (r: Option<String>)
        ensures
            final(self)@ == without_keys(old(self)@, keys@.map_values(|k: &str| k@)),
            r.deep_view() == first_present(old(self)@, keys@.map_values(|k: &str| k@)),
    {
        let (value, _) = self.take_any_noting(keys);
        value
    }

    /// Does what [`ConfigSet::take_any`] does, and also gives the keys that
    /// were found, in the order of `keys`: where there are two or more, the
    /// value of the first was kept and the others dropped.
    pub fn take_any_noting(&mut self, keys: &[&str]) -> (r: (Option<String>, Vec<String>))
        ensures
            final(self)@ == without_keys(old(self)@, keys@.map_values(|k: &str| k@)),
            r.0.deep_view() == first_present(old(self)@, keys@.map_values(|k: &str| k@)),
            r.1.deep_view() == found_keys(old(self)@, keys@.map_values(|k: &str| k@)),
    {
        proof {
            use_type_invariant(&*self);
        }
        let ghost ps = self@;
        let ghost ks = keys@.map_values(|k: &str| k@);
        let mut result: Option<String> = None;
        let mut found: Vec<String> = Vec::new();
        let mut i: usize = 0;
        proof {
            assert(ks.take(0) =~= Seq::<Seq<char>>::empty());
            assert(found.deep_view() =~= Seq::<Seq<char>>::empty());
        }
        while i < keys.len()
            invariant
                0 <= i <= keys@.len(),
                ks == keys@.map_values(|k: &str| k@),
                ps == old(self)@,
                distinct_keys(ps),
                self@ == without_keys(ps, ks.take(i as int)),
                result.deep_view() == first_present(ps, ks.take(i as int)),
                found.deep_view() == found_keys(ps, ks.take(i as int)),
            decreases keys@.len() - i,
        {
            let ghost before = self@;
            let k = keys[i];
            let value = self.take(k);
            proof {
                let prefix = ks.take(i as int);
                assert(ks.take(i + 1).drop_last() =~= prefix);
                assert(ks.take(i + 1).last() == k@);
                lemma_without_keys(ps, prefix, k@);
                if prefix.contains(k@) && first_present(ps, prefix) is None {
                    lemma_first_present_none(ps, prefix, k@);
                }
            }
            if value.is_some() {
                let name = String::from_str(k);
                let ghost old_found = found.deep_view();
                found.push(name);
                assert(found.deep_view() =~= old_found.push(k@));
            }
            if result.is_none() {
                result = value;
            }
            i = i + 1;
        }
        proof {
            assert(ks.take(keys@.len() as int) =~= ks);
        }
        (result, found)
    }

    /// Attempts to parse a value of type `P` from the given key using the provided parser function, removing it from the config set if it exists.
    pub fn take_with_parser<P, E, F: FnOnce(&str) -> Result<P, E>>(
        &mut self,
        key: &str,
        parser: F,
    ) -> (r: Result<Option<P>, E>)
        requires
            forall|s: &str| call_requires(parser, (s,)),
        ensures
            final(self)@ == without_key(old(self)@, key@),
            lookup(old(self)@, key@) is None ==> r matches Ok(None),
            lookup(old(self)@, key@) matches Some(v) ==> exists|s: &str|
                s@ == v && match r {
                    Ok(Some(p)) => call_ensures(parser, (s,), Ok(p)),
                    Err(e) => call_ensures(parser, (s,), Err(e)),
                    Ok(None) => false,
                },
    {
        match self.take(key) {
            Some(value) => {
                let s = value.as_str();
                let res = parser(s);
                match res {
                    Ok(p) => Ok(Some(p)),
                    Err(e) => Err(e),
                }
            },
            None => Ok(None),
        }
    }

    /// Adds what the piece `s[lo..hi]` of a configuration string contributes.
    fn add_piece(&mut self, s: &[char], lo: usize, hi: usize) -> (r: Result<
        Option<ConfigNote>,
        ConfigError,
    >)
        requires
            lo <= hi <= s@.len(),
        ensures
            r matches Ok(n) ==> match n {
                Some(n) => note_of(old(self)@, s@.subrange(lo as int, hi as int)) == Some(n@),
                None => note_of(old(self)@, s@.subrange(lo as int, hi as int)) is None,
            },
            match entry_of(s@.subrange(lo as int, hi as int)) {
                None => r is Ok && final(self)@ == old(self)@,
                Some(Err(e)) => r matches Err(x) && x@ == e,
                Some(Ok((k, v))) => r is Ok && final(self)@ == with_entry(old(self)@, k, v),
            },
    {
        let (a, b) = trim_bounds(s, lo, hi);
        let ghost t = s@.subrange(a as int, b as int);
        if a == b {
            assert(t.len() == 0);
            return Ok(Some(ConfigNote::EmptyEntry));
        }
        match find_in(s, a, b, ':') {
            None => Err(ConfigError::MissingValue { entry: string_of(s, a, b) }),
            Some(i) => {
                assert(t.take(i - a) =~= s@.subrange(a as int, i as int));
                assert(t.skip(i - a + 1) =~= s@.subrange(i + 1, b as int));
                let (ka, kb) = trim_bounds(s, a, i);
                let (va, vb) = trim_bounds(s, i + 1, b);
                let key = string_of(s, ka, kb);
                let value = string_of(s, va, vb);
                proof {
                    use_type_invariant(&*self);
                    lemma_key_index(self@, key@);
                }
                let note = match self.index_of(&key) {
                    Some(j) => {
                        assert(self@[j as int].1 == self.entries@[j as int].1@);
                        Some(
                            ConfigNote::DuplicateKey {
                                key: key.clone(),
                                old: self.entries[j].1.clone(),
                                new: value.clone(),
                            },
                        )
                    },
                    None => None,
                };
                self.insert(key, value);
                Ok(note)
            },
        }
    }

    /// Parses a config set from `key1:value1,key2:value2,...`: entries are
    /// separated by `,`, blank entries are skipped, key and value are split at
    /// the first `:` and trimmed, and a later value for a key replaces an
    /// earlier one. An entry with no `:` is an error.
    pub fn parse_str(s: &str) -> (r: Result<ConfigSet, ConfigError>)
        ensures
            match spec_parse_config_set(s@) {
                Ok(ps) => r matches Ok(c) && c@ == ps,
                Err(e) => r matches Err(x) && x@ == e,
            },
    {
        match ConfigSet::parse_noted(s) {
            Ok((set, _)) => Ok(set),
            Err(e) => Err(e),
        }
    }

    /// Parses a config set as [`ConfigSet::parse_str`] does, and also gives
    /// the notes about the string: each blank entry, and each key given
    /// again with its old and new value, in order.
    pub fn parse_noted(s: &str) -> (r: Result<(ConfigSet, Vec<ConfigNote>), ConfigError>)
        ensures
            match spec_parse_config_set(s@) {
                Ok(ps) => r matches Ok((c, notes)) && c@ == ps && notes_view(notes@)
                    == spec_config_notes(s@),
                Err(e) => r matches Err(x) && x@ == e,
            },
    {
        let v = chars_of(s);
        let n = v.len();
        let mut set = ConfigSet::empty();
        let mut notes: Vec<ConfigNote> = Vec::new();
        let mut failure: Option<ConfigError> = None;
        let mut start: usize = 0;
        let mut i: usize = 0;
        proof {
            assert(v@.take(0) =~= Seq::<char>::empty());
            assert(split_on(v@.take(0), ',').drop_last() =~= Seq::<Seq<char>>::empty());
            assert(v@.subrange(0, 0) =~= Seq::<char>::empty());
            assert(notes_view(notes@) =~= Seq::<ConfigNoteView>::empty());
        }
        while i < n
            invariant
                v@ == s@,
                n == v@.len(),
                start <= i <= n,
                split_on(v@.take(i as int), ',').len() >= 1,
                split_on(v@.take(i as int), ',').last() == v@.subrange(start as int, i as int),
                match failure {
                    None => parse_pieces(split_on(v@.take(i as int), ',').drop_last()) == Ok::<
                        Pairs,
                        ConfigErrorView,
                    >(set@) && notes_view(notes@) == parse_notes(
                        split_on(v@.take(i as int), ',').drop_last(),
                    ),
                    Some(e) => parse_pieces(split_on(v@.take(i as int), ',').drop_last()) == Err::<
                        Pairs,
                        ConfigErrorView,
                    >(e@),
                },
            decreases n - i,
        {
            let ghost prev = split_on(v@.take(i as int), ',');
            assert(v@.take(i + 1).drop_last() =~= v@.take(i as int));
            if v[i] == ',' {
                let ghost next = split_on(v@.take(i + 1), ',');
                assert(next == prev.push(Seq::<char>::empty()));
                assert(next.drop_last() =~= prev);
                if failure.is_none() {
                    let ghost before = notes@;
                    match set.add_piece(&v, start, i) {
                        Ok(Some(note)) => {
                            notes.push(note);
                            assert(notes_view(notes@) =~= notes_view(before).push(note@));
                        },
                        Ok(None) => {},
                        Err(e) => {
                            failure = Some(e);
                        },
                    }
                }
                start = i + 1;
                assert(next.last() =~= v@.subrange(start as int, i + 1));
            } else {
                let ghost next = split_on(v@.take(i + 1), ',');
                assert(next.drop_last() =~= prev.drop_last());
                assert(next.last() =~= v@.subrange(start as int, i + 1));
            }
            i = i + 1;
        }
        proof {
            assert(v@.take(n as int) =~= v@);
            lemma_split_on_len(v@, ',');
        }
        match failure {
            Some(e) => Err(e),
            None => {
                let ghost before = notes@;
                match set.add_piece(&v, start, n) {
                    Ok(Some(note)) => {
                        notes.push(note);
                        assert(notes_view(notes@) =~= notes_view(before).push(note@));
                        Ok((set, notes))
                    },
                    Ok(None) => Ok((set, notes)),
                    Err(e) => Err(e),
                }
            },
        }
    }

    /// The keys, in order.
    pub fn keys(&self) -> (r: Vec<String>)
        ensures
            r.deep_view() == keys_of(self@),
    {
        let n = self.entries.len();
        let mut r: Vec<String> = Vec::new();
        let mut i: usize = 0;
        while i < n
            invariant
                n == self.entries@.len(),
                0 <= i <= n,
                r.deep_view() == keys_of(self@).take(i as int),
            decreases n - i,
        {
            let k = self.entries[i].0.clone();
            let ghost old_r = r.deep_view();
            r.push(k);
            assert(self@[i as int].0 == self.entries@[i as int].0@);
            assert(r.deep_view() =~= old_r.push(k@));
            assert(r.deep_view() =~= keys_of(self@).take(i + 1));
            i = i + 1;
        }
        assert(keys_of(self@).take(n as int) =~= keys_of(self@));
        r
    }

    /// Finishes processing the config set, returning an error if there are any unknown keys left.
    pub fn finish(self) -> (r: Result<(), ConfigError>)
        ensures
            r is Ok <==> self@.len() == 0,
            r matches Err(e) ==> e@ == ConfigErrorView::UnknownKeys(keys_of(self@)),
    {
        if self.entries.len() == 0 {
            Ok(())
        } else {
            Err(ConfigError::UnknownKeys { keys: self.keys() })
        }
    }
}

/// A trait for types that can be constructed from a config set.
pub trait FromConfig where Self: Sized {
    /// The error type that can occur when parsing the config.
    type Err;

    /// Constructs the type from the given config set, consuming the config set in the process.
    fn from_config(cfg: &mut ConfigSet) -> Result<Self, Self::Err>;
}

impl Clone for ConfigSet {
    fn clone(&self) -> (r: Self)
        ensures
            r@ == self@,
    {
        proof {
            use_type_invariant(self);
        }
        let n = self.entries.len();
        let mut entries: Vec<(String, String)> = Vec::new();
        let mut i: usize = 0;
        while i < n
            invariant
                n == self.entries@.len(),
                0 <= i <= n,
                entries.deep_view() == self@.take(i as int),
            decreases n - i,
        {
            let k = self.entries[i].0.clone();
            let v = self.entries[i].1.clone();
            let ghost before = entries.deep_view();
            entries.push((k, v));
            assert(entries.deep_view() =~= before.push((k@, v@)));
            assert(self@[i as int] == (self.entries@[i as int].0@, self.entries@[i as int].1@));
            assert(entries.deep_view() =~= self@.take(i + 1));
            i = i + 1;
        }
        assert(self@.take(n as int) =~= self@);
        ConfigSet { entries }
    }
}

impl std::str::FromStr for ConfigSet {
    type Err = ConfigError;

    fn from_str(s: &str) -> (r: Result<ConfigSet, ConfigError>)
        ensures
            match spec_parse_config_set(s@) {
                Ok(ps) => r matches Ok(c) && c@ == ps,
                Err(e) => r matches Err(x) && x@ == e,
            },
    {
        ConfigSet::parse_str(s)
    }
}

} // verus!
