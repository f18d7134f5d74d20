//! The two values that callers hold: the per-call options, and the engine
//! with its catalogs and settings.

use vstd::prelude::*;
use crate::catalog::{lookup, message_at, Catalog};
use crate::matcher::{
    distinct_normalized, lemma_known_tag_resolves_to_itself, match_locale, resolved, tags_of,
};
use crate::tag::{normalize_tag, normalized};
use crate::template::{args_of, has_opening, render_template, rendered_with};
use crate::text::same_chars;

verus! {

/// What a caller may set for one call.  Whatever is left out is taken from
/// the settings of the engine.
#[derive(Clone, Debug)]
pub struct TranslationConfig {
    /// An `Accept-Language` header from which `format_message` negotiates
    /// the locale.
    pub accept_language: Option<String>,
    /// The text to show where the key has no message.
    pub default_message: Option<String>,
    /// Values for the `{{name}}` placeholders, as pairs of name and value.
    pub args: Option<Vec<(String, String)>>,
    /// The locale tag that `render_message` resolves.
    pub locale: Option<String>,
    /// Whether a near match may stand in for the requested locale.
    pub fallback: Option<bool>,
    /// The text to show where the key has no message and no default is given.
    pub null_placeholder: Option<String>,
}

impl Default for TranslationConfig {
    fn default() -> (r: Self)
        ensures
            r.accept_language is None,
            r.default_message is None,
            r.args is None,
            r.locale is None,
            r.fallback is None,
            r.null_placeholder is None,
    {
        TranslationConfig {
            accept_language: None,
            default_message: None,
            args: None,
            locale: None,
            fallback: None,
            null_placeholder: None,
        }
    }
}

/// The characters of an optional string.
pub open spec fn text_of(s: Option<String>) -> Option<Seq<char>> {
    match s {
        Some(s) => Some(s@),
        None => None,
    }
}

/// The characters of an optional string slice.
pub open spec fn str_of(s: Option<&str>) -> Option<Seq<char>> {
    match s {
        Some(s) => Some(s@),
        None => None,
    }
}

/// An optional string, borrowed.
pub fn as_deref(s: &Option<String>) -> (r: Option<&str>)
    ensures
        str_of(r) == text_of(*s),
{
    match s {
        Some(s) => Some(s.as_str()),
        None => None,
    }
}

/// The text to render: the message found, else the default that the caller
/// gave, else the placeholder.
pub open spec fn text_or_default(
    found: Option<Seq<char>>,
    default_message: Option<Seq<char>>,
    placeholder: Seq<char>,
) -> Seq<char> {
    match found {
        Some(text) => text,
        None => match default_message {
            Some(text) => text,
            None => placeholder,
        },
    }
}

/// The engine as contracts see it.
pub struct I18nView {
    /// The known locale tags.
    pub tags: Seq<Seq<char>>,
    /// The catalog of each known tag, in the same order.
    pub catalogs: Seq<Catalog>,
    /// The locale to use when none is requested or set.
    pub default_locale: Seq<char>,
    /// The locale set for the calls to come, if one is set.
    pub current_locale: Option<Seq<char>>,
    /// Whether a near match may stand in for a requested locale.
    pub fallback: bool,
    /// The text shown where a key has no message and the caller gave no
    /// default.
    pub null_placeholder: Seq<char>,
}

impl I18nView {
    /// Every known tag has its catalog, and no two known tags share a
    /// canonical form.
    pub open spec fn wf(self) -> bool {
        &&& self.tags.len() == self.catalogs.len()
        &&& distinct_normalized(self.tags)
    }

    /// The catalog of the known tag `tag`.
    pub open spec fn catalog_of(self, tag: Seq<char>) -> Catalog {
        self.catalogs[self.tags.index_of(tag)]
    }

    /// The locale that a call works with: the one it names, else the
    /// current one, else the default.
    pub open spec fn effective_locale(self, locale: Option<Seq<char>>) -> Seq<char> {
        match locale {
            Some(tag) => tag,
            None => match self.current_locale {
                Some(tag) => tag,
                None => self.default_locale,
            },
        }
    }

    /// Whether a call allows fallback: what it says, else the setting.
    pub open spec fn effective_fallback(self, fallback: Option<bool>) -> bool {
        match fallback {
            Some(b) => b,
            None => self.fallback,
        }
    }

    /// The placeholder of a call: the one it names, else the setting.
    pub open spec fn effective_placeholder(self, null_placeholder: Option<Seq<char>>) -> Seq<char> {
        match null_placeholder {
            Some(text) => text,
            None => self.null_placeholder,
        }
    }

    /// The message of `key` in the catalog that `locale` resolves to; `None`
    /// where no catalog is matched or the catalog has no message for `key`.
    pub open spec fn message(self, locale: Seq<char>, fallback: bool, key: Seq<char>) -> Option<
        Seq<char>,
    > {
        match resolved(locale, fallback, self.tags) {
            Some(tag) => message_at(self.catalog_of(tag), key),
            None => None,
        }
    }

    /// The text that rendering `key` yields.
    pub open spec fn rendered(
        self,
        key: Seq<char>,
        locale: Option<Seq<char>>,
        fallback: Option<bool>,
        null_placeholder: Option<Seq<char>>,
        default_message: Option<Seq<char>>,
        args: Option<Seq<(Seq<char>, Seq<char>)>>,
    ) -> Seq<char> {
        rendered_with(
            text_or_default(
                self.message(self.effective_locale(locale), self.effective_fallback(fallback), key),
                default_message,
                self.effective_placeholder(null_placeholder),
            ),
            args,
        )
    }
}

/// The resources, as pairs of the characters of a tag and its catalog.
pub open spec fn entries_of(resources: Seq<(String, Catalog)>) -> Seq<(Seq<char>, Catalog)> {
    Seq::new(resources.len(), |i: int| (resources[i].0@, resources[i].1))
}

/// The tags of a list of entries.
pub open spec fn entry_tags(entries: Seq<(Seq<char>, Catalog)>) -> Seq<Seq<char>> {
    Seq::new(entries.len(), |i: int| entries[i].0)
}

/// The catalogs of a list of entries.
pub open spec fn entry_catalogs(entries: Seq<(Seq<char>, Catalog)>) -> Seq<Catalog> {
    Seq::new(entries.len(), |i: int| entries[i].1)
}

/// `entries` without those whose tag has the canonical form `canon`.
pub open spec fn without(entries: Seq<(Seq<char>, Catalog)>, canon: Seq<char>) -> Seq<
    (Seq<char>, Catalog),
>
    decreases entries.len(),
{
    if entries.len() == 0 {
        entries
    } else {
        let head = without(entries.drop_last(), canon);
        if normalized(entries.last().0) == canon {
            head
        } else {
            head.push(entries.last())
        }
    }
}

/// What is left when the resources are written one after another and each
/// replaces an earlier one whose tag has the same canonical form.
pub open spec fn last_writers(resources: Seq<(Seq<char>, Catalog)>) -> Seq<(Seq<char>, Catalog)>
    decreases resources.len(),
{
    if resources.len() == 0 {
        resources
    } else {
        without(last_writers(resources.drop_last()), normalized(resources.last().0)).push(
            resources.last(),
        )
    }
}

/// Removing a canonical form leaves none of it, takes nothing else away from
/// what was distinct, and adds nothing.
pub proof fn lemma_without(entries: Seq<(Seq<char>, Catalog)>, canon: Seq<char>)
    requires
        distinct_normalized(entry_tags(entries)),
    ensures
        distinct_normalized(entry_tags(without(entries, canon))),
        forall|k: int|
            0 <= k < without(entries, canon).len() ==> normalized(
                (#[trigger] without(entries, canon)[k]).0,
            ) != canon,
        forall|k: int|
            0 <= k < without(entries, canon).len() ==> entries.contains(
                #[trigger] without(entries, canon)[k],
            ),
    decreases entries.len(),
{
    if entries.len() > 0 {
        let front = entries.drop_last();
        let last = entries.last();
        assert forall|i: int, j: int|
            0 <= i < front.len() && 0 <= j < front.len() && i != j implies normalized(
            #[trigger] entry_tags(front)[i],
        ) != normalized(#[trigger] entry_tags(front)[j]) by {
            assert(entry_tags(front)[i] == entry_tags(entries)[i]);
            assert(entry_tags(front)[j] == entry_tags(entries)[j]);
        }
        lemma_without(front, canon);
        let head = without(front, canon);
        let w = without(entries, canon);
        assert forall|k: int| 0 <= k < w.len() implies entries.contains(#[trigger] w[k]) by {
            if k < head.len() {
                assert(front.contains(head[k]));
                let i = choose|i: int| 0 <= i < front.len() && front[i] == head[k];
                assert(entries[i] == head[k]);
            } else {
                assert(entries[entries.len() - 1] == last);
            }
        }
        if normalized(last.0) != canon {
            assert forall|i: int, j: int|
                0 <= i < w.len() && 0 <= j < w.len() && i != j implies normalized(
                #[trigger] entry_tags(w)[i],
            ) != normalized(#[trigger] entry_tags(w)[j]) by {
                if i < head.len() && j == head.len() {
                    lemma_apart(entries, head, w, i, j);
                }
                if j < head.len() && i == head.len() {
                    lemma_apart(entries, head, w, j, i);
                }
                if i < head.len() && j < head.len() {
                    assert(entry_tags(head)[i] == entry_tags(w)[i]);
                    assert(entry_tags(head)[j] == entry_tags(w)[j]);
                }
            }
        }
    }
}

/// An entry kept from the front of `entries` and the last entry of `entries`
/// have different canonical forms.
proof fn lemma_apart(
    entries: Seq<(Seq<char>, Catalog)>,
    head: Seq<(Seq<char>, Catalog)>,
    w: Seq<(Seq<char>, Catalog)>,
    i: int,
    j: int,
)
    requires
        entries.len() > 0,
        distinct_normalized(entry_tags(entries)),
        w == head.push(entries.last()),
        forall|k: int| 0 <= k < head.len() ==> entries.drop_last().contains(#[trigger] head[k]),
        0 <= i < head.len(),
        j == head.len(),
    ensures
        normalized(entry_tags(w)[i]) != normalized(entry_tags(w)[j]),
{
    let front = entries.drop_last();
    assert(front.contains(head[i]));
    let a = choose|a: int| 0 <= a < front.len() && front[a] == head[i];
    let b = entries.len() - 1;
    assert(entry_tags(entries)[a] == head[i].0);
    assert(entry_tags(entries)[b] == entries.last().0);
    assert(entry_tags(w)[i] == head[i].0);
    assert(entry_tags(w)[j] == entries.last().0);
}

/// No two entries that are left share a canonical form.
pub proof fn lemma_last_writers_distinct(resources: Seq<(Seq<char>, Catalog)>)
    ensures
        distinct_normalized(entry_tags(last_writers(resources))),
    decreases resources.len(),
{
    if resources.len() > 0 {
        let last = resources.last();
        let canon = normalized(last.0);
        lemma_last_writers_distinct(resources.drop_last());
        let before = last_writers(resources.drop_last());
        lemma_without(before, canon);
        let head = without(before, canon);
        let all = head.push(last);
        assert forall|i: int, j: int|
            0 <= i < all.len() && 0 <= j < all.len() && i != j implies normalized(
            #[trigger] entry_tags(all)[i],
        ) != normalized(#[trigger] entry_tags(all)[j]) by {
            if i < head.len() {
                assert(entry_tags(all)[i] == head[i].0);
                assert(entry_tags(head)[i] == head[i].0);
            } else {
                assert(entry_tags(all)[i] == last.0);
            }
            if j < head.len() {
                assert(entry_tags(all)[j] == head[j].0);
                assert(entry_tags(head)[j] == head[j].0);
            } else {
                assert(entry_tags(all)[j] == last.0);
            }
        }
    }
}

/// The engine: the catalogs of the known locales, and the settings that
/// calls fall back on.
#[derive(Debug)]
pub struct I18n {
    supported_languages: Vec<String>,
    inner: Vec<Catalog>,
    default_language: String,
    current_language: Option<String>,
    fallback: bool,
    null_placeholder: String,
}

impl View for I18n {
    type V = I18nView;

    closed spec fn view(&self) -> I18nView {
        I18nView {
            tags: tags_of(self.supported_languages@),
            catalogs: self.inner@,
            default_locale: self.default_language@,
            current_locale: text_of(self.current_language),
            fallback: self.fallback,
            null_placeholder: self.null_placeholder@,
        }
    }
}

impl I18n {
    #[verifier::type_invariant]
    closed spec fn inv(self) -> bool {
        self@.wf()
    }

    /// Builds the engine from the catalogs that were loaded, each with the
    /// tag of its locale.  Where two tags have the same canonical form, the
    /// later resource replaces the earlier one.  No current locale is set,
    /// fallback is allowed, and the placeholder is `null`.
    pub fn init(resources: Vec<(String, Catalog)>, default_language: String) -> (r: Self)
        ensures
            r@.wf(),
            r@.tags == entry_tags(last_writers(entries_of(resources@))),
            r@.catalogs == entry_catalogs(last_writers(entries_of(resources@))),
            r@.default_locale == default_language@,
            r@.current_locale is None,
            r@.fallback,
            r@.null_placeholder == "null"@,
    {
        let ghost all = entries_of(resources@);
        let mut kept: Vec<(String, Catalog)> = Vec::new();
        assert(all.take(0) =~= Seq::empty());
        assert(entries_of(kept@) =~= last_writers(all.take(0)));
        for entry in it: resources.into_iter()
            invariant
                it.seq() == resources@,
                all == entries_of(resources@),
                entries_of(kept@) == last_writers(all.take(it.index())),
        {
            let ghost done = all.take(it.index());
            let ghost before = entries_of(kept@);
            let canon = normalize_tag(entry.0.as_str());
            let mut next: Vec<(String, Catalog)> = Vec::new();
            assert(before.take(0) =~= Seq::empty());
            assert(entries_of(next@) =~= without(before.take(0), canon@));
            for old in jt: kept.into_iter()
                invariant
                    entries_of(jt.seq()) == before,
                    entries_of(next@) == without(before.take(jt.index()), canon@),
            {
                let ghost seen = before.take(jt.index() + 1);
                assert(seen.drop_last() =~= before.take(jt.index()));
                assert(seen.last() == (old.0@, old.1));
                let c = normalize_tag(old.0.as_str());
                if !same_chars(&c, &canon) {
                    next.push(old);
                    assert(entries_of(next@) =~= without(seen, canon@));
                }
            }
            assert(before.take(before.len() as int) =~= before);
            next.push(entry);
            proof {
                let grown = all.take(it.index() + 1);
                assert(grown.drop_last() =~= done);
                assert(grown.last() == (entry.0@, entry.1));
                assert(entries_of(next@) =~= last_writers(grown));
            }
            kept = next;
        }
        assert(all.take(all.len() as int) =~= all);
        let ghost left = entries_of(kept@);
        let mut tags: Vec<String> = Vec::new();
        let mut catalogs: Vec<Catalog> = Vec::new();
        for entry in kt: kept.into_iter()
            invariant
                entries_of(kt.seq()) == left,
                tags_of(tags@) == entry_tags(left).take(kt.index()),
                catalogs@ == entry_catalogs(left).take(kt.index()),
        {
            assert(left[kt.index()] == (entry.0@, entry.1));
            assert(entry_tags(left)[kt.index()] == entry.0@);
            assert(entry_catalogs(left)[kt.index()] == entry.1);
            let ghost tags_before = tags_of(tags@);
            let ghost tag = entry.0@;
            tags.push(entry.0);
            catalogs.push(entry.1);
            assert(tags_of(tags@) =~= tags_before.push(tag));
            assert(tags_of(tags@) =~= entry_tags(left).take(kt.index() + 1));
            assert(catalogs@ =~= entry_catalogs(left).take(kt.index() + 1));
        }
        proof {
            assert(entry_tags(left).take(left.len() as int) =~= entry_tags(left));
            assert(entry_catalogs(left).take(left.len() as int) =~= entry_catalogs(left));
            lemma_last_writers_distinct(all);
        }
        I18n {
            supported_languages: tags,
            inner: catalogs,
            default_language,
            current_language: None,
            fallback: true,
            null_placeholder: "null".to_owned(),
        }
    }
}

impl I18n {
    /// The known locale tags.
    pub fn supported_languages(&self) -> (r: &Vec<String>)
        ensures
            tags_of(r@) == self@.tags,
            self@.wf(),
    {
        proof {
            use_type_invariant(self);
        }
        &self.supported_languages
    }

    /// The catalog of the known tag at `index`.
    pub(crate) fn catalog_at(&self, index: usize) -> (r: &Catalog)
        requires
            index < self@.tags.len(),
        ensures
            *r == self@.catalogs[index as int],
            *r == self@.catalog_of(self@.tags[index as int]),
    {
        proof {
            use_type_invariant(self);
            let tags = self@.tags;
            let tag = tags[index as int];
            assert(tags.contains(tag));
            let found = tags.index_of(tag);
            assert(tags[found] == tag);
            assert(normalized(tags[found]) == normalized(tags[index as int]));
        }
        &self.inner[index]
    }

    /// The catalog of the known tag at `index`, if there are that many.
    pub fn catalog(&self, index: usize) -> (r: Option<&Catalog>)
        ensures
            self@.wf(),
            match r {
                Some(c) => index < self@.tags.len() && *c == self@.catalogs[index as int] && *c
                    == self@.catalog_of(self@.tags[index as int]),
                None => index >= self@.tags.len(),
            },
    {
        proof {
            use_type_invariant(self);
        }
        if index < self.inner.len() {
            Some(self.catalog_at(index))
        } else {
            None
        }
    }

    /// The locale used when none is requested or set.
    pub fn default_language(&self) -> (r: &str)
        ensures
            r@ == self@.default_locale,
    {
        self.default_language.as_str()
    }

    /// The locale set for the calls to come.
    pub fn current_language(&self) -> (r: Option<&str>)
        ensures
            str_of(r) == self@.current_locale,
    {
        as_deref(&self.current_language)
    }

    /// Whether a near match may stand in for a requested locale.
    pub fn fallback_enabled(&self) -> (r: bool)
        ensures
            r == self@.fallback,
    {
        self.fallback
    }

    /// The text shown where a key has no message and no default is given.
    pub fn null_placeholder(&self) -> (r: &str)
        ensures
            r@ == self@.null_placeholder,
    {
        self.null_placeholder.as_str()
    }

    /// Sets the locale for the calls to come.
    pub fn set_current_locale(&mut self, tag: String)
        ensures
            final(self)@ == (I18nView { current_locale: Some(tag@), ..old(self)@ }),
    {
        proof {
            use_type_invariant(&*self);
        }
        self.current_language = Some(tag);
    }

    /// Lets a near match stand in for a requested locale.
    pub fn enable_fallback(&mut self)
        ensures
            final(self)@ == (I18nView { fallback: true, ..old(self)@ }),
    {
        proof {
            use_type_invariant(&*self);
        }
        self.fallback = true;
    }

    /// Lets only an exact match serve a requested locale.
    pub fn disable_fallback(&mut self)
        ensures
            final(self)@ == (I18nView { fallback: false, ..old(self)@ }),
    {
        proof {
            use_type_invariant(&*self);
        }
        self.fallback = false;
    }

    /// Sets the text shown where a key has no message and no default is
    /// given.
    pub fn set_null_placeholder(&mut self, text: String)
        ensures
            final(self)@ == (I18nView { null_placeholder: text@, ..old(self)@ }),
    {
        proof {
            use_type_invariant(&*self);
        }
        self.null_placeholder = text;
    }

    /// The known tag that serves `requested` best: one of the same
    /// canonical form; failing that, and only with `allow_fallback`, the bare
    /// language scope of the request, or else a regional tag of that scope.
    pub fn resolve_locale(&self, requested: &str, allow_fallback: bool) -> (r: Option<String>)
        ensures
            self@.wf(),
            text_of(r) == resolved(requested@, allow_fallback, self@.tags),
            self@.tags.contains(requested@) ==> text_of(r) == Some(requested@),
    {
        proof {
            use_type_invariant(self);
            if self@.tags.contains(requested@) {
                lemma_known_tag_resolves_to_itself(self@.tags, requested@, allow_fallback);
            }
        }
        match match_locale(requested, allow_fallback, &self.supported_languages) {
            Some(i) => Some(self.supported_languages[i].clone()),
            None => None,
        }
    }

    /// The message of `key` in the catalog that `locale` resolves to.
    pub fn message(&self, locale: &str, fallback: bool, key: &str) -> (r: Option<String>)
        ensures
            text_of(r) == self@.message(locale@, fallback, key@),
    {
        match match_locale(locale, fallback, &self.supported_languages) {
            Some(i) => lookup(self.catalog_at(i), key),
            None => None,
        }
    }

    /// Renders the message of `key`.  The locale is `locale`, else the
    /// current one, else the default; `fallback` and `null_placeholder`
    /// stand in for the settings of the same name.  Where no known locale is
    /// matched or the key has no message, the text is `default_message`, or
    /// else the placeholder.  The placeholders of the text are then filled
    /// from `args`.
    pub fn render(
        &self,
        key: &str,
        locale: Option<&str>,
        fallback: Option<bool>,
        null_placeholder: Option<&str>,
        default_message: Option<&str>,
        args: Option<&Vec<(String, String)>>,
    ) -> (r: String)
        ensures
            r@ == self@.rendered(
                key@,
                str_of(locale),
                fallback,
                str_of(null_placeholder),
                str_of(default_message),
                args_of(args),
            ),
    {
        let tag: &str = match locale {
            Some(tag) => tag,
            None => match self.current_language() {
                Some(tag) => tag,
                None => self.default_language(),
            },
        };
        let allow: bool = match fallback {
            Some(b) => b,
            None => self.fallback,
        };
        match self.message(tag, allow, key) {
            Some(text) => render_template(text.as_str(), args),
            None => match default_message {
                Some(text) => render_template(text, args),
                None => match null_placeholder {
                    Some(text) => render_template(text, args),
                    None => render_template(self.null_placeholder.as_str(), args),
                },
            },
        }
    }

    /// Renders the message of `key` with the options of `overrides`.  The
    /// default text is `default_message`, or else the one that `overrides`
    /// holds.
    pub fn render_message(
        &self,
        key: &str,
        default_message: Option<&str>,
        overrides: Option<&TranslationConfig>,
    ) -> (r: String)
        ensures
            r@ == self@.rendered_message(key@, str_of(default_message), overrides),
    {
        match overrides {
            Some(config) => {
                let fallback_text: Option<&str> = match default_message {
                    Some(text) => Some(text),
                    None => as_deref(&config.default_message),
                };
                self.render(
                    key,
                    as_deref(&config.locale),
                    config.fallback,
                    as_deref(&config.null_placeholder),
                    fallback_text,
                    config.args.as_ref(),
                )
            },
            None => self.render(key, None, None, None, default_message, None),
        }
    }
}

impl I18nView {
    /// The text that rendering `key` yields with the options of `overrides`.
    pub open spec fn rendered_message(
        self,
        key: Seq<char>,
        default_message: Option<Seq<char>>,
        overrides: Option<&TranslationConfig>,
    ) -> Seq<char> {
        match overrides {
            Some(config) => self.rendered(
                key,
                text_of(config.locale),
                config.fallback,
                text_of(config.null_placeholder),
                match default_message {
                    Some(text) => Some(text),
                    None => text_of(config.default_message),
                },
                match config.args {
                    Some(pairs) => Some(crate::template::pairs_of(pairs@)),
                    None => None,
                },
            ),
            None => self.rendered(key, None, None, None, default_message, None),
        }
    }
}

impl I18nView {
    /// A key without a message shows the default text of the caller, with
    /// its placeholders filled; without arguments, or where the default text
    /// holds no `{{`, it shows that very text.
    pub proof fn lemma_missing_key_shows_default(
        self,
        key: Seq<char>,
        locale: Option<Seq<char>>,
        fallback: Option<bool>,
        null_placeholder: Option<Seq<char>>,
        default_message: Seq<char>,
        args: Option<Seq<(Seq<char>, Seq<char>)>>,
    )
        requires
            self.message(self.effective_locale(locale), self.effective_fallback(fallback), key)
                is None,
        ensures
            self.rendered(key, locale, fallback, null_placeholder, Some(default_message), args)
                == rendered_with(default_message, args),
            self.rendered(key, locale, fallback, null_placeholder, Some(default_message), None)
                == default_message,
            !has_opening(default_message) ==> self.rendered(
                key,
                locale,
                fallback,
                null_placeholder,
                Some(default_message),
                args,
            ) == default_message,
    {
    }

    /// A key without a message, asked for without a default text, shows the
    /// placeholder: the one of the call, or else the one that is set.  Its
    /// own `{{name}}`, if it has any, are filled like those of a message.
    pub proof fn lemma_missing_key_shows_placeholder(
        self,
        key: Seq<char>,
        locale: Option<Seq<char>>,
        fallback: Option<bool>,
        null_placeholder: Option<Seq<char>>,
        args: Option<Seq<(Seq<char>, Seq<char>)>>,
    )
        requires
            self.message(self.effective_locale(locale), self.effective_fallback(fallback), key)
                is None,
        ensures
            self.rendered(key, locale, fallback, null_placeholder, None, args) == rendered_with(
                self.effective_placeholder(null_placeholder),
                args,
            ),
            self.rendered(key, locale, fallback, None, None, None) == self.null_placeholder,
            !has_opening(self.effective_placeholder(null_placeholder)) ==> self.rendered(
                key,
                locale,
                fallback,
                null_placeholder,
                None,
                args,
            ) == self.effective_placeholder(null_placeholder),
    {
    }

    /// A locale that matches no known tag has no message, whatever the key.
    pub proof fn lemma_unmatched_locale_has_no_message(
        self,
        locale: Seq<char>,
        fallback: bool,
        key: Seq<char>,
    )
        requires
            resolved(locale, fallback, self.tags) is None,
        ensures
            self.message(locale, fallback, key) is None,
    {
    }

    /// Rendering is repeatable: two calls on one engine with the same key and
    /// options yield the same text.
    pub proof fn lemma_render_repeatable(
        self,
        key: Seq<char>,
        default_message: Option<Seq<char>>,
        overrides: Option<&TranslationConfig>,
        first: Seq<char>,
        second: Seq<char>,
    )
        requires
            first == self.rendered_message(key, default_message, overrides),
            second == self.rendered_message(key, default_message, overrides),
        ensures
            first == second,
    {
    }

    /// A call that names its locale, fallback and placeholder does not
    /// depend on what is set.
    pub proof fn lemma_overrides_hide_settings(
        self,
        other: I18nView,
        key: Seq<char>,
        locale: Seq<char>,
        fallback: bool,
        null_placeholder: Seq<char>,
        default_message: Option<Seq<char>>,
        args: Option<Seq<(Seq<char>, Seq<char>)>>,
    )
        requires
            other.tags == self.tags,
            other.catalogs == self.catalogs,
        ensures
            self.rendered(key, Some(locale), Some(fallback), Some(null_placeholder), default_message, args)
                == other.rendered(
                key,
                Some(locale),
                Some(fallback),
                Some(null_placeholder),
                default_message,
                args,
            ),
    {
    }
}

impl I18nView {
    /// A call that names no locale works with the current locale, and with
    /// the default locale where none is current.
    pub proof fn lemma_locale_precedence(
        self,
        key: Seq<char>,
        fallback: Option<bool>,
        null_placeholder: Option<Seq<char>>,
        default_message: Option<Seq<char>>,
        args: Option<Seq<(Seq<char>, Seq<char>)>>,
    )
        ensures
            self.current_locale matches Some(tag) ==> self.rendered(
                key,
                None,
                fallback,
                null_placeholder,
                default_message,
                args,
            ) == self.rendered(key, Some(tag), fallback, null_placeholder, default_message, args),
            self.current_locale is None ==> self.rendered(
                key,
                None,
                fallback,
                null_placeholder,
                default_message,
                args,
            ) == self.rendered(
                key,
                Some(self.default_locale),
                fallback,
                null_placeholder,
                default_message,
                args,
            ),
    {
    }
}

} // verus!
