//! Filling the `{{name}}` placeholders of a message.
//!
//! The substitution itself is done by the `string_template` crate.  Verus does
//! not see into it, so the text that it returns carries a name here,
//! `template_rendered`, and the contracts of this library speak of that name.

use std::collections::HashMap;
use vstd::prelude::*;

verus! {

/// The names and values that a list of argument pairs spells.
pub open spec fn pairs_of(args: Seq<(String, String)>) -> Seq<(Seq<char>, Seq<char>)> {
    Seq::new(args.len(), |i: int| (args[i].0@, args[i].1@))
}

/// The text that `string_template` renders from `template` with the
/// arguments `args`, given as pairs of a placeholder name and its value.
pub uninterp spec fn template_rendered(
    template: Seq<char>,
    args: Seq<(Seq<char>, Seq<char>)>,
) -> Seq<char>;

/// Whether `{{` occurs in `template`: without it there is no placeholder.
pub open spec fn has_opening(template: Seq<char>) -> bool {
    exists|i: int|
        0 <= i && i + 1 < template.len() && #[trigger] template[i] == '{' && template[i + 1] == '{'
}

/// Calls `string_template::Template::new` on `template` and
/// `Template::render` on the outcome, with `args` as the map of values;
/// where a name occurs twice in `args`, the map holds its last value.
///
/// Trusted, not proved: the text returned is the one named
/// `template_rendered`.  With no argument at all it is the template itself,
/// because `render` writes back every placeholder for which the map holds no
/// value.  And it is the template itself where `{{` does not occur in it,
/// because `new` finds no placeholder then and `render` returns a copy.
#[verifier::external_body]
pub(crate) fn substitute(template: &str, args: &Vec<(String, String)>) -> (r: String)
    ensures
        r@ == template_rendered(template@, pairs_of(args@)),
        args@.len() == 0 ==> r@ == template@,
        !has_opening(template@) ==> r@ == template@,
{
    let vals: HashMap<&str, &str> = args.iter().map(|pair| (pair.0.as_str(), pair.1.as_str())).collect();
    string_template::Template::new(template).render(&vals)
}

/// What rendering `template` yields when the caller passed `args`, or no
/// arguments at all: the template itself where it holds no `{{` or there is
/// no argument, and else what `string_template` makes of it.
pub open spec fn rendered_with(
    template: Seq<char>,
    args: Option<Seq<(Seq<char>, Seq<char>)>>,
) -> Seq<char> {
    match args {
        Some(pairs) => if pairs.len() > 0 && has_opening(template) {
            template_rendered(template, pairs)
        } else {
            template
        },
        None => template,
    }
}

/// The argument pairs that a caller passed, if any.
pub open spec fn args_of(args: Option<&Vec<(String, String)>>) -> Option<Seq<(Seq<char>, Seq<char>)>> {
    match args {
        Some(pairs) => Some(pairs_of(pairs@)),
        None => None,
    }
}

/// Renders `template`: every `{{name}}` for which `args` holds a value is
/// replaced by it.  Without arguments the template is returned as it is.
pub fn render_template(template: &str, args: Option<&Vec<(String, String)>>) -> (r: String)
    ensures
        r@ == rendered_with(template@, args_of(args)),
{
    match args {
        Some(pairs) => substitute(template, pairs),
        None => {
            let none: Vec<(String, String)> = Vec::new();
            substitute(template, &none)
        },
    }
}

} // verus!
