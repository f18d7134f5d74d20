//! Locale-aware message lookup.
//!
//! An [`I18n`] engine holds one message catalog per known locale tag, and a
//! few settings.  A message is asked for by a dotted key.  The engine picks
//! the catalog of the best known locale, finds the key in it, falls back on a
//! default text where there is no message, and fills the `{{name}}`
//! placeholders of the text.
//!
//! The locale is chosen in one of two ways.  [`I18n::render_message`] resolves
//! a locale tag against the known tags (see [`matcher`]).
//! [`format_message`] negotiates it from an `Accept-Language` header (see
//! [`negotiation`]).

use vstd::prelude::*;

pub mod catalog;
pub mod matcher;
pub mod negotiation;
pub mod structs;
pub mod tag;
pub mod template;
pub mod text;

pub use crate::catalog::Catalog;
pub use crate::negotiation::NegotiationError;
pub use crate::structs::{I18n, I18nView, TranslationConfig};

use crate::catalog::{lookup, message_at};
use crate::matcher::tags_of;
use crate::negotiation::{intersect, negotiate, negotiation, place_of};
use crate::structs::{as_deref, text_of, text_or_default};
use crate::template::{pairs_of, render_template, rendered_with};

verus! {

/// The header that a call negotiates: the one that `config` holds, else the
/// current locale, else the default locale.
pub open spec fn effective_header(engine: I18nView, config: Option<&TranslationConfig>) -> Seq<char> {
    match config {
        Some(c) => match c.accept_language {
            Some(header) => header@,
            None => engine.effective_locale(None),
        },
        None => engine.effective_locale(None),
    }
}

/// The default text that `config` holds.
pub open spec fn default_of(config: Option<&TranslationConfig>) -> Option<Seq<char>> {
    match config {
        Some(c) => text_of(c.default_message),
        None => None,
    }
}

/// The placeholder that `config` holds.
pub open spec fn placeholder_of(config: Option<&TranslationConfig>) -> Option<Seq<char>> {
    match config {
        Some(c) => text_of(c.null_placeholder),
        None => None,
    }
}

/// The arguments that `config` holds.
pub open spec fn arguments_of(config: Option<&TranslationConfig>) -> Option<
    Seq<(Seq<char>, Seq<char>)>,
> {
    match config {
        Some(c) => match c.args {
            Some(pairs) => Some(pairs_of(pairs@)),
            None => None,
        },
        None => None,
    }
}

/// The text that `key` yields in the catalog of the known tag `tag`, with
/// the options of `config`.
pub open spec fn formatted(
    engine: I18nView,
    tag: Seq<char>,
    key: Seq<char>,
    config: Option<&TranslationConfig>,
) -> Seq<char> {
    rendered_with(
        text_or_default(
            message_at(engine.catalog_of(tag), key),
            default_of(config),
            engine.effective_placeholder(placeholder_of(config)),
        ),
        arguments_of(config),
    )
}

/// Renders the message that `catalog` holds under `key`, with the options
/// of `config`; `placeholder` is the text of last resort.
pub fn format_in(catalog: &Catalog, key: &str, config: Option<&TranslationConfig>, placeholder: &str) -> (r:
    String)
    ensures
        r@ == rendered_with(
            text_or_default(
                message_at(*catalog, key@),
                default_of(config),
                match placeholder_of(config) {
                    Some(text) => text,
                    None => placeholder@,
                },
            ),
            arguments_of(config),
        ),
{
    let found = lookup(catalog, key);
    match config {
        Some(c) => {
            let args = c.args.as_ref();
            match found {
                Some(text) => render_template(text.as_str(), args),
                None => match as_deref(&c.default_message) {
                    Some(text) => render_template(text, args),
                    None => match as_deref(&c.null_placeholder) {
                        Some(text) => render_template(text, args),
                        None => render_template(placeholder, args),
                    },
                },
            }
        },
        None => match found {
            Some(text) => render_template(text.as_str(), None),
            None => render_template(placeholder, None),
        },
    }
}

/// The header that a call negotiates.
pub fn header_of<'a>(i18n: &'a I18n, config: Option<&'a TranslationConfig>) -> (r: &'a str)
    ensures
        r@ == effective_header(i18n@, config),
{
    let given: Option<&str> = match config {
        Some(c) => as_deref(&c.accept_language),
        None => None,
    };
    match given {
        Some(header) => header,
        None => match i18n.current_language() {
            Some(tag) => tag,
            None => i18n.default_language(),
        },
    }
}

/// Renders the message of `key` in the locale negotiated from the
/// `Accept-Language` header of `config`; without such a header the current
/// locale, or else the default locale, is taken as the header.
///
/// The header must lead to a supported locale.  `try_format_message` is for
/// callers that cannot know this.
pub fn format_message(i18n: &I18n, key: &str, config: Option<&TranslationConfig>) -> (r: String)
    requires
        negotiation(effective_header(i18n@, config), i18n@.tags) is Ok,
    ensures
        r@ == formatted(
            i18n@,
            negotiation(effective_header(i18n@, config), i18n@.tags)->Ok_0,
            key@,
            config,
        ),
{
    let header = header_of(i18n, config);
    let known = i18n.supported_languages();
    let found = intersect(header, known);
    proof {
        let best = found[0]@;
        assert(tags_of(found@)[0] == best);
        assert(tags_of(known@).contains(best));
        let j = choose|j: int| 0 <= j < tags_of(known@).len() && tags_of(known@)[j] == best;
        assert(known[j]@ == best);
    }
    let place: usize = place_of(known, found[0].as_str());
    assert(tags_of(known@)[place as int] == known[place as int]@);
    format_in(i18n.catalog_at(place), key, config, i18n.null_placeholder())
}

/// Renders as `format_message` does where the header leads to a supported
/// locale, and says why it does not where it does not.
pub fn try_format_message(i18n: &I18n, key: &str, config: Option<&TranslationConfig>) -> (r: Result<
    String,
    NegotiationError,
>)
    ensures
        match negotiation(effective_header(i18n@, config), i18n@.tags) {
            Ok(tag) => r matches Ok(text) && text@ == formatted(i18n@, tag, key@, config),
            Err(e) => r == Err::<String, NegotiationError>(e),
        },
{
    match negotiate(header_of(i18n, config), i18n.supported_languages()) {
        Ok(_) => Ok(format_message(i18n, key, config)),
        Err(e) => Err(e),
    }
}

} // verus!
