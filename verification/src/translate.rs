//! Rendering of user-facing texts: a dotted key is looked up in the
//! catalogue of a locale, and named placeholders in the text found there are
//! filled in.
//!
//! The catalogues are YAML documents and are read with `serde_yaml`. A
//! parsed document is opaque here; what the lookup needs to know of it is
//! the map `yaml_texts` from key paths to the strings found there.

use vstd::prelude::*;
use crate::i18n::{get_yaml, is_available, yaml_of, AVAILABLE_LOCALES};
use crate::search::{first_index, lemma_first_index_absent, lemma_first_index_found};
use crate::text::{
    replace_all, replace_chars, split, split_on, str_chars, str_eq, string_from_chars, text_views,
};

verus! {

/// A parsed YAML value.
#[verifier::external_type_specification]
#[verifier::external_body]
pub struct ExYamlValue(serde_yaml::Value);

/// The strings inside a YAML value, by position: a path of mapping keys is
/// in the domain exactly when following these keys from the value, one
/// mapping at a time, ends at a string, and it is mapped to that string. The
/// empty path is in the domain when the value itself is a string.
pub uninterp spec fn yaml_texts(value: serde_yaml::Value) -> Map<Seq<Seq<char>>, Seq<char>>;

/// The strings, by position, of the value that a YAML text parses to; `None`
/// when the text is not a YAML document.
pub uninterp spec fn parsed_yaml(content: Seq<char>) -> Option<Map<Seq<Seq<char>>, Seq<char>>>;

/// Parses a YAML document.
///
/// Trusted: calls `serde_yaml::from_str` for a `serde_yaml::Value` and turns
/// an error into `None`. Parsing depends on the text alone, so its result
/// has a name, `parsed_yaml`; the contract says no more than that the value
/// returned holds the strings so named.
#[verifier::external_body]
fn parse_yaml(content: &str) -> (document: Option<serde_yaml::Value>)
    ensures
        match document {
            Some(value) => parsed_yaml(content@) == Some(yaml_texts(value)),
            None => parsed_yaml(content@) is None,
        },
{
    serde_yaml::from_str::<serde_yaml::Value>(content).ok()
}

/// The entry of a YAML mapping under a string key.
///
/// Trusted: calls `serde_yaml::Value::get` with a `&str` index, which
/// returns the entry of a mapping under that key and `None` for a missing
/// key and for a value that is no mapping. The contract restates this over
/// `yaml_texts`: the strings inside the entry are those of the value whose
/// paths start with the key, and a value without such an entry has no
/// string on any path that starts with the key.
#[verifier::external_body]
fn yaml_get<'a>(value: &'a serde_yaml::Value, key: &str) -> (entry: Option<&'a serde_yaml::Value>)
    ensures
        match entry {
            Some(child) => forall|path: Seq<Seq<char>>|
                {
                    &&& (#[trigger] yaml_texts(*child).contains_key(path)) == yaml_texts(
                        *value,
                    ).contains_key(seq![key@] + path)
                    &&& yaml_texts(*child).contains_key(path) ==> yaml_texts(*child)[path]
                        == yaml_texts(*value)[seq![key@] + path]
                },
            None => forall|path: Seq<Seq<char>>|
                path.len() > 0 && path[0] == key@ ==> !(#[trigger] yaml_texts(*value).contains_key(
                    path,
                )),
        },
{
    value.get(key)
}

/// The string that a YAML value is, if it is one.
///
/// Trusted: calls `serde_yaml::Value::as_str`, which returns the string of a
/// string value and `None` for every other value. Over `yaml_texts`: the
/// string found at the empty path.
#[verifier::external_body]
fn yaml_as_str<'a>(value: &'a serde_yaml::Value) -> (text: Option<&'a str>)
    ensures
        match text {
            Some(t) => yaml_texts(*value).contains_key(Seq::<Seq<char>>::empty()) && yaml_texts(
                *value,
            )[Seq::<Seq<char>>::empty()] == t@,
            None => !yaml_texts(*value).contains_key(Seq::<Seq<char>>::empty()),
        },
{
    value.as_str()
}

/// The locale whose catalogue is used where the requested one is missing.
pub const DEFAULT_LOCALE: &'static str = "en";

/// The strings of a document, by position.
pub type Texts = Map<Seq<Seq<char>>, Seq<char>>;

/// Named values to fill into a text: each name with its value, applied in
/// the order listed.
pub type Params = Vec<(String, String)>;

/// The views of a list of parameters.
pub open spec fn param_views(params: Seq<(String, String)>) -> Seq<(Seq<char>, Seq<char>)> {
    params.map_values(|p: (String, String)| (p.0@, p.1@))
}

/// The views of an optional list of parameters.
pub open spec fn opt_param_views(params: Option<&Params>) -> Option<Seq<(Seq<char>, Seq<char>)>> {
    match params {
        Some(list) => Some(param_views(list@)),
        None => None,
    }
}

/// The strings of the catalogue of `locale`, if that catalogue ships and is
/// a YAML document.
pub open spec fn catalogue(locale: Seq<char>) -> Option<Texts> {
    if is_available(locale) {
        match yaml_of(locale) {
            Some(content) => parsed_yaml(content),
            None => None,
        }
    } else {
        None
    }
}

/// The place in a text where the value of the parameter `name` goes: the
/// name in braces.
pub open spec fn placeholder(name: Seq<char>) -> Seq<char> {
    seq!['{'] + name + seq!['}']
}

/// `text` with the parameters filled in, one after the other in the order
/// listed: each replaces every occurrence of its placeholder in the text as
/// the parameters before it left it.
pub open spec fn fill(text: Seq<char>, params: Seq<(Seq<char>, Seq<char>)>) -> Seq<char>
    decreases params.len(),
{
    if params.len() == 0 {
        text
    } else {
        replace_all(
            fill(text, params.drop_last()),
            placeholder(params.last().0),
            params.last().1,
        )
    }
}

/// The text under `key` in `texts`, with `params` filled in; the key itself
/// where `texts` has no string under it. The key is a path of names
/// separated by dots.
pub open spec fn rendered(
    texts: Texts,
    key: Seq<char>,
    params: Option<Seq<(Seq<char>, Seq<char>)>>,
) -> Seq<char> {
    let path = split_on(key, '.');
    if texts.contains_key(path) {
        match params {
            Some(list) => fill(texts[path], list),
            None => texts[path],
        }
    } else {
        key
    }
}

/// The text for `key` in `locale`: rendered from the catalogue of the
/// locale, or from that of the default locale where the locale has none;
/// the key itself where neither exists.
pub open spec fn translation(
    locale: Seq<char>,
    key: Seq<char>,
    params: Option<Seq<(Seq<char>, Seq<char>)>>,
) -> Seq<char> {
    match catalogue(locale) {
        Some(texts) => rendered(texts, key, params),
        None => match catalogue(DEFAULT_LOCALE@) {
            Some(texts) => rendered(texts, key, params),
            None => key,
        },
    }
}

/// Fills the parameters into a text.
pub fn fill_in(text: &str, params: &Params) -> (out: String)
    ensures
        out@ == fill(text@, param_views(params@)),
{
    let mut current = str_chars(text);
    let ghost views = param_views(params@);
    let mut i: usize = 0;
    assert(views.take(0) =~= Seq::<(Seq<char>, Seq<char>)>::empty());
    while i < params.len()
        invariant
            i <= params.len(),
            views == param_views(params@),
            current@ == fill(text@, views.take(i as int)),
        decreases params.len() - i,
    {
        let name = str_chars(params[i].0.as_str());
        let value = str_chars(params[i].1.as_str());
        let mut pattern: Vec<char> = Vec::new();
        pattern.push('{');
        let mut k: usize = 0;
        while k < name.len()
            invariant
                k <= name.len(),
                pattern@ == seq!['{'] + name@.take(k as int),
            decreases name.len() - k,
        {
            pattern.push(name[k]);
            assert(pattern@ =~= seq!['{'] + name@.take(k + 1));
            k += 1;
        }
        assert(name@.take(k as int) =~= name@);
        pattern.push('}');
        assert(pattern@ =~= placeholder(name@));
        proof {
            assert(views.take(i + 1).drop_last() =~= views.take(i as int));
            assert(views.take(i + 1).last() == views[i as int]);
        }
        current = replace_chars(&current, &pattern, &value);
        i += 1;
    }
    assert(views.take(i as int) =~= views);
    string_from_chars(&current)
}

/// The parsed catalogue of one locale.
pub struct Catalogue {
    locale: String,
    document: serde_yaml::Value,
}

/// The parsed catalogues of all locales that ship.
pub struct Translations {
    catalogues: Vec<Catalogue>,
}

impl Translations {
    /// The strings of the catalogue held for `locale`.
    pub closed spec fn texts(&self, locale: Seq<char>) -> Option<Texts> {
        match first_index(self.catalogues@, |c: Catalogue| c.locale@ == locale) {
            Some(i) => Some(yaml_texts(self.catalogues@[i].document)),
            None => None,
        }
    }

    /// Whether these are the catalogues that ship.
    pub open spec fn complete(&self) -> bool {
        forall|locale: Seq<char>| #[trigger] self.texts(locale) == catalogue(locale)
    }

    /// The text for `key` in `locale` from these catalogues: rendered from
    /// the catalogue of the locale, or from that of the default locale where
    /// the locale has none; the key itself where neither is held.
    pub open spec fn text_for(
        &self,
        locale: Seq<char>,
        key: Seq<char>,
        params: Option<Seq<(Seq<char>, Seq<char>)>>,
    ) -> Seq<char> {
        match self.texts(locale) {
            Some(texts) => rendered(texts, key, params),
            None => match self.texts(DEFAULT_LOCALE@) {
                Some(texts) => rendered(texts, key, params),
                None => key,
            },
        }
    }

    /// The catalogue held for a locale.
    fn document(&self, locale: &str) -> (found: Option<&serde_yaml::Value>)
        ensures
            match found {
                Some(value) => self.texts(locale@) == Some(yaml_texts(*value)),
                None => self.texts(locale@) is None,
            },
    {
        let ghost p = |c: Catalogue| c.locale@ == locale@;
        let mut i: usize = 0;
        while i < self.catalogues.len()
            invariant
                i <= self.catalogues.len(),
                p == |c: Catalogue| c.locale@ == locale@,
                forall|k: int| 0 <= k < i ==> !p(#[trigger] self.catalogues@[k]),
            decreases self.catalogues.len() - i,
        {
            if str_eq(self.catalogues[i].locale.as_str(), locale) {
                proof {
                    lemma_first_index_found(self.catalogues@, p, i as int);
                }
                return Some(&self.catalogues[i].document);
            }
            i += 1;
        }
        proof {
            lemma_first_index_absent(self.catalogues@, p);
        }
        None
    }

    /// Whether a catalogue is held for the locale.
    pub fn has(&self, locale: &str) -> (held: bool)
        ensures
            held == self.texts(locale@) is Some,
    {
        self.document(locale).is_some()
    }

    /// Reads the catalogues of all available locales. A locale whose
    /// catalogue is missing or is no YAML document is left out.
    pub fn load() -> (translations: Translations)
        ensures
            translations.complete(),
    {
        let mut translations = Translations { catalogues: Vec::new() };
        let mut i: usize = 0;
        while i < AVAILABLE_LOCALES.len()
            invariant
                i <= AVAILABLE_LOCALES@.len(),
                forall|locale: Seq<char>| #[trigger]
                    translations.texts(locale) == if exists|k: int|
                        0 <= k < i && (#[trigger] AVAILABLE_LOCALES@[k])@ == locale {
                        catalogue(locale)
                    } else {
                        None
                    },
            decreases AVAILABLE_LOCALES@.len() - i,
        {
            let locale = AVAILABLE_LOCALES[i];
            let ghost before = translations;
            let known = translations.has(locale);
            let parsed = if known {
                None
            } else {
                match get_yaml(locale) {
                    Some(content) => parse_yaml(content.as_str()),
                    None => None,
                }
            };
            assert(is_available(locale@));
            assert(!known ==> match parsed {
                Some(value) => catalogue(locale@) == Some(yaml_texts(value)),
                None => catalogue(locale@) is None,
            });
            let mut added = false;
            if let Some(document) = parsed {
                translations.catalogues.push(Catalogue { locale: locale.to_owned(), document });
                added = true;
            }
            proof {
                assert forall|l: Seq<char>| #[trigger]
                    translations.texts(l) == if exists|k: int|
                        0 <= k < i + 1 && (#[trigger] AVAILABLE_LOCALES@[k])@ == l {
                        catalogue(l)
                    } else {
                        None
                    } by {
                    let p = |c: Catalogue| c.locale@ == l;
                    let was = before.catalogues@;
                    let is = translations.catalogues@;
                    crate::search::lemma_first_index(was, p);
                    let listed_before = exists|k: int|
                        0 <= k < i && (#[trigger] AVAILABLE_LOCALES@[k])@ == l;
                    assert(before.texts(l) == if listed_before {
                        catalogue(l)
                    } else {
                        None
                    });
                    if added {
                        let last = is.len() - 1;
                        assert forall|k: int| 0 <= k < last implies is[k] == was[k] by {}
                        if l == locale@ {
                            assert(p(is[last]));
                            assert forall|k: int| 0 <= k < last implies !p(#[trigger] is[k]) by {
                                assert(!p(was[k]));
                            }
                            lemma_first_index_found(is, p, last);
                        } else {
                            match first_index(was, p) {
                                Some(j) => {
                                    assert(p(is[j]));
                                    assert forall|k: int| 0 <= k < j implies !p(#[trigger] is[k]) by {
                                        assert(!p(was[k]));
                                    }
                                    lemma_first_index_found(is, p, j);
                                },
                                None => {
                                    assert forall|k: int| 0 <= k < is.len() implies !p(
                                        #[trigger] is[k],
                                    ) by {
                                        if k < last {
                                            assert(!p(was[k]));
                                        }
                                    }
                                    lemma_first_index_absent(is, p);
                                },
                            }
                        }
                    } else {
                        assert(is == was);
                    }
                    if l == locale@ {
                        assert(AVAILABLE_LOCALES@[i as int]@ == l);
                    } else {
                        if exists|k: int| 0 <= k < i + 1 && (#[trigger] AVAILABLE_LOCALES@[k])@ == l {
                            let k = choose|k: int|
                                0 <= k < i + 1 && (#[trigger] AVAILABLE_LOCALES@[k])@ == l;
                            assert(k < i);
                            assert(listed_before);
                        }
                        if listed_before {
                            let k = choose|k: int|
                                0 <= k < i && (#[trigger] AVAILABLE_LOCALES@[k])@ == l;
                            assert(0 <= k < i + 1 && AVAILABLE_LOCALES@[k]@ == l);
                        }
                    }
                }
            }
            i += 1;
        }
        translations
    }

    /// The text for `key` in `locale`, with `params` filled in.
    pub fn text(&self, locale: &str, key: &str, params: Option<&Params>) -> (text: String)
        ensures
            text@ == self.text_for(locale@, key@, opt_param_views(params)),
    {
        let document = match self.document(locale) {
            Some(document) => document,
            None => match self.document(DEFAULT_LOCALE) {
                Some(document) => document,
                None => {
                    return key.to_owned();
                },
            },
        };
        let parts = split(key, '.');
        let ghost path = text_views(parts@);
        let mut value = document;
        let mut i: usize = 0;
        assert forall|rest: Seq<Seq<char>>| path.take(0) + rest == rest by {
            assert(path.take(0) + rest =~= rest);
        }
        while i < parts.len()
            invariant
                i <= parts.len(),
                path == text_views(parts@),
                path == split_on(key@, '.'),
                self.text_for(locale@, key@, opt_param_views(params)) == rendered(
                    yaml_texts(*document),
                    key@,
                    opt_param_views(params),
                ),
                forall|rest: Seq<Seq<char>>|
                    {
                        &&& (#[trigger] yaml_texts(*value).contains_key(rest)) == yaml_texts(
                            *document,
                        ).contains_key(path.take(i as int) + rest)
                        &&& yaml_texts(*value).contains_key(rest) ==> yaml_texts(*value)[rest]
                            == yaml_texts(*document)[path.take(i as int) + rest]
                    },
            decreases parts.len() - i,
        {
            let ghost outer = value;
            match yaml_get(value, parts[i].as_str()) {
                Some(child) => {
                    proof {
                        assert forall|rest: Seq<Seq<char>>|
                            {
                                &&& (#[trigger] yaml_texts(*child).contains_key(rest))
                                    == yaml_texts(*document).contains_key(path.take(i + 1) + rest)
                                &&& yaml_texts(*child).contains_key(rest) ==> yaml_texts(
                                    *child,
                                )[rest] == yaml_texts(*document)[path.take(i + 1) + rest]
                            } by {
                            let longer = seq![path[i as int]] + rest;
                            assert(path.take(i + 1) + rest =~= path.take(i as int) + longer);
                            assert(yaml_texts(*outer).contains_key(longer) == yaml_texts(
                                *document,
                            ).contains_key(path.take(i as int) + longer));
                        }
                    }
                    value = child;
                },
                None => {
                    proof {
                        let tail = path.skip(i as int);
                        assert(tail[0] == path[i as int]);
                        assert(path[i as int] == parts@[i as int]@);
                        assert(path.take(i as int) + tail =~= path);
                        assert(!yaml_texts(*outer).contains_key(tail));
                    }
                    return key.to_owned();
                },
            }
            i += 1;
        }
        proof {
            assert(path.take(i as int) + Seq::<Seq<char>>::empty() =~= path);
        }
        match yaml_as_str(value) {
            Some(found) => match params {
                Some(list) => fill_in(found, list),
                None => found.to_owned(),
            },
            None => key.to_owned(),
        }
    }
}

/// The text for `key` in `locale`, with `params` filled in. Reads the
/// catalogues anew on every call; hold on to a `Translations` to read them
/// once.
pub fn get_text(locale: &str, key: &str, params: Option<&Params>) -> (text: String)
    ensures
        text@ == translation(locale@, key@, opt_param_views(params)),
{
    let translations = Translations::load();
    translations.text(locale, key, params)
}

} // verus!
