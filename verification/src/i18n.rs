//! Translated message texts, looked up in a `rust_i18n` key/value backend.
use rust_i18n::Backend;
use rust_i18n::SimpleBackend;
use std::collections::HashMap;
use vstd::prelude::*;

verus! {

#[verifier::external_type_specification]
#[verifier::external_body]
pub struct ExSimpleBackend(SimpleBackend);

/// The translations a backend holds, flattened to `(locale, key) -> text`.
pub uninterp spec fn backend_table(b: SimpleBackend) -> Map<(Seq<char>, Seq<char>), Seq<char>>;

/// What `rust_i18n::replace_patterns` makes of a template, the pattern names
/// and the values put in their place.
pub uninterp spec fn replaced_patterns(
    input: Seq<char>,
    patterns: Seq<Seq<char>>,
    values: Seq<Seq<char>>,
) -> Seq<char>;

/// The table of a backend that holds no translation.
pub open spec fn empty_table() -> Map<(Seq<char>, Seq<char>), Seq<char>> {
    Map::empty()
}

/// The table that a list of `(key, text)` pairs adds for one locale; where a key
/// occurs twice, the later pair wins.
pub open spec fn pairs_table(locale: Seq<char>, pairs: Seq<(String, String)>) -> Map<
    (Seq<char>, Seq<char>),
    Seq<char>,
>
    decreases pairs.len(),
{
    if pairs.len() == 0 {
        Map::empty()
    } else {
        let last = pairs.last();
        pairs_table(locale, pairs.drop_last()).insert((locale, last.0@), last.1@)
    }
}

/// `SimpleBackend::new`: a backend that holds no translation.
#[verifier::external_body]
fn backend_new() -> (b: SimpleBackend)
    ensures
        backend_table(b) == empty_table(),
{
    SimpleBackend::new()
}

/// `SimpleBackend::add_translations`: the pairs, read into a `HashMap` in
/// order (a later pair replaces an earlier one with the same key), are added
/// under `locale`, replacing texts already held for the same keys.
#[verifier::external_body]
fn backend_add(b: &mut SimpleBackend, locale: &str, data: &Vec<(String, String)>)
    ensures
        backend_table(*final(b)) == backend_table(*old(b)).union_prefer_right(
            pairs_table(locale@, data@),
        ),
{
    let map: HashMap<&str, &str> = data.iter().map(|(k, v)| (k.as_str(), v.as_str())).collect();
    b.add_translations(locale, &map)
}

/// `Backend::translate` of `SimpleBackend`: the text held for `key` under
/// `locale`, if any.
#[verifier::external_body]
fn backend_translate(b: &SimpleBackend, locale: &str, key: &str) -> (r: Option<String>)
    ensures
        r is Some <==> backend_table(*b).contains_key((locale@, key@)),
        r matches Some(t) ==> t@ == backend_table(*b)[(locale@, key@)],
{
    match b.translate(locale, key) {
        Some(t) => Some(t.to_string()),
        None => None,
    }
}

/// `rust_i18n::replace_patterns`: puts each value in place of its `%{name}`.
/// The function copies the text up to the byte before each `{` that it
/// takes for the start of a pattern, so it is called only on templates in
/// which every such `{` follows a one-byte character.
#[verifier::external_body]
fn replace_patterns(input: &str, patterns: &Vec<String>, values: &Vec<String>) -> (r: String)
    requires
        safe_template(input@),
    ensures
        r@ == replaced_patterns(input@, patterns.deep_view(), values.deep_view()),
{
    let names: Vec<&str> = patterns.iter().map(|p| p.as_str()).collect();
    rust_i18n::replace_patterns(input, &names, values)
}

/// Whether the scan for `%{name}` patterns, from position `i` in state
/// `stage` (0: outside a pattern, 1: after a `%`, 2: inside `{..}`), finds
/// every `{` that may open a pattern, a `{` met after a `%`, right after a
/// one-byte (ASCII) character. The text is copied up to the byte before such
/// a `{`, so no character is cut there.
pub open spec fn scan_ok(t: Seq<char>, i: int, stage: int) -> bool
    decreases t.len() - i,
{
    if i < 0 || i >= t.len() {
        true
    } else if stage == 1 && t[i] == '{' {
        (i == 0 || t[i - 1] < '\u{80}') && scan_ok(t, i + 1, 2)
    } else if stage == 2 && t[i] == '}' {
        scan_ok(t, i + 1, 0)
    } else if t[i] == '%' {
        scan_ok(t, i + 1, 1)
    } else {
        scan_ok(t, i + 1, stage)
    }
}

/// The template can be filled without cutting a character: every `{` that
/// may open a pattern follows a one-byte character.
pub open spec fn safe_template(t: Seq<char>) -> bool {
    scan_ok(t, 0, 0)
}

/// Whether the template can be filled without cutting a character.
pub fn template_safe(t: &str) -> (r: bool)
    ensures
        r == safe_template(t@),
{
    let n = t.unicode_len();
    let mut i: usize = 0;
    let mut stage: u8 = 0;
    while i < n
        invariant
            n == t@.len(),
            i <= n,
            stage <= 2,
            scan_ok(t@, i as int, stage as int) == safe_template(t@),
        decreases n - i,
    {
        let c = t.get_char(i);
        if stage == 1 && c == '{' {
            if i > 0 && !(t.get_char(i - 1) < '\u{80}') {
                return false;
            }
            stage = 2;
        } else if stage == 2 && c == '}' {
            stage = 0;
        } else if c == '%' {
            stage = 1;
        }
        i = i + 1;
    }
    true
}

/// The position of the last `-` of a locale, or -1.
pub open spec fn last_dash(l: Seq<char>) -> int
    decreases l.len(),
{
    if l.len() == 0 {
        -1
    } else if l.last() == '-' {
        l.len() - 1
    } else {
        last_dash(l.drop_last())
    }
}

/// The locale with every trailing `-x` taken off.
pub open spec fn trim_private(l: Seq<char>) -> Seq<char>
    decreases l.len(),
{
    if l.len() >= 2 && l[l.len() - 2] == '-' && l[l.len() - 1] == 'x' {
        trim_private(l.subrange(0, l.len() - 2))
    } else {
        l
    }
}

/// Where the last `-` of a locale is.
pub proof fn lemma_last_dash(l: Seq<char>)
    ensures
        -1 <= last_dash(l) < l.len(),
        last_dash(l) >= 0 ==> l[last_dash(l)] == '-',
        forall|j: int| last_dash(l) < j < l.len() ==> l[j] != '-',
    decreases l.len(),
{
    if l.len() > 0 && l.last() != '-' {
        lemma_last_dash(l.drop_last());
        assert forall|j: int| last_dash(l) < j < l.len() implies l[j] != '-' by {
            if j < l.len() - 1 {
                assert(l.drop_last()[j] == l[j]);
            }
        }
    }
}

/// Taking off trailing `-x` does not make a locale longer.
pub proof fn lemma_trim_private_len(l: Seq<char>)
    ensures
        trim_private(l).len() <= l.len(),
    decreases l.len(),
{
    if l.len() >= 2 && l[l.len() - 2] == '-' && l[l.len() - 1] == 'x' {
        lemma_trim_private_len(l.subrange(0, l.len() - 2));
    }
}

/// The locale to look in after `l`: `l` cut before its last `-`, with
/// trailing `-x` taken off (`zh-Hant-CN` gives `zh-Hant`), or none where
/// `l` has no `-`.
pub open spec fn parent_locale(l: Seq<char>) -> Option<Seq<char>> {
    if last_dash(l) < 0 {
        None
    } else {
        Some(trim_private(l.subrange(0, last_dash(l))))
    }
}

/// The translation of `key` in locale `l`, or else in the locales that
/// `parent_locale` gives one after the other.
pub open spec fn lookup_chain(table: Map<(Seq<char>, Seq<char>), Seq<char>>, l: Seq<char>, key: Seq<char>) -> Option<Seq<char>>
    decreases l.len(),
{
    if table.contains_key((l, key)) {
        Some(table[(l, key)])
    } else {
        match parent_locale(l) {
            Some(p) => {
                proof {
                    lemma_last_dash(l);
                    lemma_trim_private_len(l.subrange(0, last_dash(l)));
                }
                lookup_chain(table, p, key)
            },
            None => None,
        }
    }
}

/// The translation of `key` in the first of the fallback locales that has one.
pub open spec fn lookup_fallback(table: Map<(Seq<char>, Seq<char>), Seq<char>>, fallback: Seq<Seq<char>>, key: Seq<char>) -> Option<Seq<char>>
    decreases fallback.len(),
{
    if fallback.len() == 0 {
        None
    } else if table.contains_key((fallback[0], key)) {
        Some(table[(fallback[0], key)])
    } else {
        lookup_fallback(table, fallback.drop_first(), key)
    }
}

/// The parent of a locale, as `parent_locale` gives it.
fn parent_of(l: &str) -> (r: Option<String>)
    ensures
        match r {
            Some(p) => parent_locale(l@) == Some(p@),
            None => parent_locale(l@) is None,
        },
{
    proof {
        lemma_last_dash(l@);
    }
    let n = l.unicode_len();
    let mut i: usize = n;
    while i > 0 && l.get_char(i - 1) != '-'
        invariant
            i <= n,
            n == l@.len(),
            forall|j: int| i <= j < n ==> l@[j] != '-',
        decreases i,
    {
        i = i - 1;
    }
    if i == 0 {
        assert(last_dash(l@) < 0) by {
            if last_dash(l@) >= 0 {
                assert(l@[last_dash(l@)] == '-');
            }
        }
        return None;
    }
    assert(last_dash(l@) == i - 1) by {
        if last_dash(l@) < i - 1 {
            assert(l@[i - 1] != '-');
        }
    }
    let mut cut: String = l.substring_char(0, i - 1).to_string();
    assert(cut@ == l@.subrange(0, i - 1));
    let ghost start = cut@;
    while cut.as_str().unicode_len() >= 2 && cut.as_str().get_char(cut.as_str().unicode_len() - 2) == '-'
        && cut.as_str().get_char(cut.as_str().unicode_len() - 1) == 'x'
        invariant
            trim_private(cut@) == trim_private(start),
        decreases cut@.len(),
    {
        let m = cut.as_str().unicode_len();
        let shorter = cut.as_str().substring_char(0, m - 2).to_string();
        cut = shorter;
    }
    Some(cut)
}

/// A set of translations, the locale in which texts are looked up and the
/// fallback locales tried after it.
pub struct Catalog {
    backend: SimpleBackend,
    locale: String,
    fallback: Vec<String>,
}

impl Catalog {
    /// The translations held, by `(locale, key)`.
    pub closed spec fn table(&self) -> Map<(Seq<char>, Seq<char>), Seq<char>> {
        backend_table(self.backend)
    }

    /// The locale in which texts are looked up.
    pub closed spec fn locale(&self) -> Seq<char> {
        self.locale@
    }

    /// The locales tried, in order, where neither the locale nor its parents
    /// have a text.
    pub closed spec fn fallback(&self) -> Seq<Seq<char>> {
        self.fallback.deep_view()
    }

    /// The text for `key`: its translation in the current locale or the
    /// locales it falls back on, or the key itself where there is none.
    pub open spec fn text(&self, key: Seq<char>) -> Seq<char> {
        match lookup_chain(self.table(), self.locale(), key) {
            Some(t) => t,
            None => match lookup_fallback(self.table(), self.fallback(), key) {
                Some(t) => t,
                None => key,
            },
        }
    }

    /// The text for `key` with each `%{name}` replaced by its value, where
    /// the text can be filled without cutting a character.
    pub open spec fn text_with(&self, key: Seq<char>, names: Seq<Seq<char>>, values: Seq<Seq<char>>) -> Option<Seq<char>> {
        if safe_template(self.text(key)) {
            Some(replaced_patterns(self.text(key), names, values))
        } else {
            None
        }
    }

    /// A catalog without translations that looks texts up in `locale`, with
    /// no fallback locales.
    pub fn new(locale: &str) -> (c: Catalog)
        ensures
            c.table() == empty_table(),
            c.locale() == locale@,
            c.fallback() == Seq::<Seq<char>>::empty(),
    {
        let c = Catalog { backend: backend_new(), locale: locale.to_owned(), fallback: Vec::new() };
        assert(c.fallback.deep_view() =~= Seq::<Seq<char>>::empty());
        c
    }

    /// Sets the fallback locales, tried in order.
    pub fn set_fallback(&mut self, fallback: Vec<String>)
        ensures
            final(self).fallback() == fallback.deep_view(),
            final(self).table() == old(self).table(),
            final(self).locale() == old(self).locale(),
    {
        self.fallback = fallback;
    }

    /// Adds the `(key, text)` pairs as translations for `locale`.
    pub fn add_translations(&mut self, locale: &str, data: &Vec<(String, String)>)
        ensures
            final(self).table() == old(self).table().union_prefer_right(pairs_table(locale@, data@)),
            final(self).locale() == old(self).locale(),
            final(self).fallback() == old(self).fallback(),
    {
        backend_add(&mut self.backend, locale, data);
    }

    /// The text for `key`.
    pub fn tr(&self, key: &str) -> (r: String)
        ensures
            r@ == self.text(key@),
    {
        let ghost table = self.table();
        let mut current: String = self.locale.clone();
        loop
            invariant
                table == self.table(),
                lookup_chain(table, current@, key@) == lookup_chain(table, self.locale(), key@),
            ensures
                lookup_chain(table, self.locale(), key@) is None,
            decreases current@.len(),
        {
            match backend_translate(&self.backend, current.as_str(), key) {
                Some(t) => return t,
                None => {},
            }
            match parent_of(current.as_str()) {
                Some(p) => {
                    proof {
                        lemma_last_dash(current@);
                        lemma_trim_private_len(current@.subrange(0, last_dash(current@)));
                    }
                    current = p;
                },
                None => break,
            }
        }
        let mut i: usize = 0;
        assert(self.fallback().skip(0) =~= self.fallback());
        while i < self.fallback.len()
            invariant
                table == self.table(),
                lookup_chain(table, self.locale(), key@) is None,
                i <= self.fallback@.len(),
                self.fallback() == self.fallback.deep_view(),
                lookup_fallback(table, self.fallback().skip(i as int), key@) == lookup_fallback(table, self.fallback(), key@),
            decreases self.fallback@.len() - i,
        {
            let r = backend_translate(&self.backend, self.fallback[i].as_str(), key);
            assert(self.fallback().skip(i as int)[0] == self.fallback[i as int]@);
            assert(self.fallback().skip(i as int).drop_first() =~= self.fallback().skip(i + 1));
            match r {
                Some(t) => return t,
                None => {},
            }
            i = i + 1;
        }
        key.to_owned()
    }

    /// The text for `key` with its `%{name}` patterns filled in; none where
    /// a `{` that may open a pattern follows a character of more than one
    /// byte, which filling would cut.
    pub fn tr_with(&self, key: &str, names: &Vec<String>, values: &Vec<String>) -> (r: Option<String>)
        ensures
            (match r {
                Some(t) => Some(t@),
                None => None,
            }) == self.text_with(key@, names.deep_view(), values.deep_view()),
    {
        let template = self.tr(key);
        if template_safe(template.as_str()) {
            Some(replace_patterns(template.as_str(), names, values))
        } else {
            None
        }
    }
}

} // verus!
