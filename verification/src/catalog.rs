//! Message catalogs and the lookup of a dotted key in one.
//!
//! A catalog is the message tree of one locale.  A key such as
//! `menu.file.open` is cut at every `.`; each piece names a member of the
//! table reached so far.  A key that leads nowhere, or to a null leaf, has no
//! message.  A key that ends on a table yields the text of the whole table.

use vstd::prelude::*;
use vstd::string::StrSliceExecFns;
use crate::text::{chars_of, pieces, split, split_chars, str_matches};

verus! {

/// The separator of the pieces of a key.
pub const KEY_SEPARATOR: char = '.';

/// A node of a message tree.
#[derive(Debug)]
pub enum Catalog {
    /// No value.
    Null,
    /// A string leaf, shown as it stands.
    Text(String),
    /// Any other leaf (a number, a boolean, a list), held as the text under
    /// which it is shown.
    Scalar(String),
    /// A table of named members, with the text under which the whole table
    /// is shown.  Where a name occurs twice, the first member has it.
    Table { members: Vec<(String, Catalog)>, shown: String },
}

/// The first member called `name`, if there is one.
pub open spec fn member(members: Seq<(String, Catalog)>, name: Seq<char>) -> Option<Catalog>
    decreases members.len(),
{
    if members.len() == 0 {
        None
    } else if members[0].0@ == name {
        Some(members[0].1)
    } else {
        member(members.drop_first(), name)
    }
}

/// The node reached from `node` by following `path`, one member name after
/// another.
pub open spec fn descend(node: Catalog, path: Seq<Seq<char>>) -> Option<Catalog>
    decreases path.len(),
{
    if path.len() == 0 {
        Some(node)
    } else {
        match node {
            Catalog::Table { members, .. } => match member(members@, path[0]) {
                Some(child) => descend(child, path.drop_first()),
                None => None,
            },
            _ => None,
        }
    }
}

/// The text under which a node is shown; a null node has none.
pub open spec fn shown(node: Catalog) -> Option<Seq<char>> {
    match node {
        Catalog::Null => None,
        Catalog::Text(s) => Some(s@),
        Catalog::Scalar(s) => Some(s@),
        Catalog::Table { shown, .. } => Some(shown@),
    }
}

/// The message that `catalog` holds under the dotted `key`.
pub open spec fn message_at(catalog: Catalog, key: Seq<char>) -> Option<Seq<char>> {
    match descend(catalog, split(key, '.')) {
        Some(node) => shown(node),
        None => None,
    }
}

/// The member of `members` called `name`.
pub fn find_member<'a>(members: &'a Vec<(String, Catalog)>, name: &Vec<char>) -> (r: Option<
    &'a Catalog,
>)
    ensures
        r matches Some(node) ==> member(members@, name@) == Some(*node),
        r is None ==> member(members@, name@) is None,
{
    let mut i: usize = 0;
    assert(members@.skip(0) =~= members@);
    while i < members.len()
        invariant
            i <= members.len(),
            member(members@, name@) == member(members@.skip(i as int), name@),
        decreases members.len() - i,
    {
        let ghost rest = members@.skip(i as int);
        assert(rest[0] == members[i as int]);
        assert(rest.drop_first() =~= members@.skip(i + 1));
        if str_matches(members[i].0.as_str(), name) {
            return Some(&members[i].1);
        }
        i += 1;
    }
    None
}

/// The node of `catalog` that `path` leads to.
pub fn find_node<'a>(catalog: &'a Catalog, path: &Vec<Vec<char>>) -> (r: Option<&'a Catalog>)
    ensures
        r matches Some(node) ==> descend(*catalog, pieces(path@)) == Some(*node),
        r is None ==> descend(*catalog, pieces(path@)) is None,
{
    let ghost names = pieces(path@);
    let mut node: &Catalog = catalog;
    let mut i: usize = 0;
    assert(names.skip(0) =~= names);
    while i < path.len()
        invariant
            i <= path.len(),
            names == pieces(path@),
            descend(*catalog, names) == descend(*node, names.skip(i as int)),
        decreases path.len() - i,
    {
        let ghost rest = names.skip(i as int);
        assert(rest[0] == path[i as int]@);
        assert(rest.drop_first() =~= names.skip(i + 1));
        match node {
            Catalog::Table { members, .. } => {
                match find_member(members, &path[i]) {
                    Some(child) => {
                        node = child;
                    },
                    None => {
                        return None;
                    },
                }
            },
            _ => {
                return None;
            },
        }
        i += 1;
    }
    Some(node)
}

/// The text under which `node` is shown.
pub fn shown_text(node: &Catalog) -> (r: Option<String>)
    ensures
        r matches Some(s) ==> shown(*node) == Some(s@),
        r is None ==> shown(*node) is None,
{
    match node {
        Catalog::Null => None,
        Catalog::Text(s) => Some(s.clone()),
        Catalog::Scalar(s) => Some(s.clone()),
        Catalog::Table { shown, .. } => Some(shown.clone()),
    }
}

/// Looks `key` up in `catalog`: the message found, or `None` where the key
/// leads nowhere or to a null leaf.
pub fn lookup(catalog: &Catalog, key: &str) -> (r: Option<String>)
    ensures
        r matches Some(s) ==> message_at(*catalog, key@) == Some(s@),
        r is None ==> message_at(*catalog, key@) is None,
{
    let chars = chars_of(key);
    let path = split_chars(&chars, KEY_SEPARATOR);
    match find_node(catalog, &path) {
        Some(node) => shown_text(node),
        None => None,
    }
}

/// The ending of the name of a catalog file.
pub open spec fn catalog_suffix() -> Seq<char> {
    seq!['.', 'j', 's', 'o', 'n']
}

/// The locale tag that a file name stands for: `en_US.json` holds the
/// catalog of `en_US`.  A name that does not end in `.json`, or is nothing
/// but that ending, names no catalog.
pub open spec fn tag_of_file(name: Seq<char>) -> Option<Seq<char>> {
    if name.len() > 5 && name.skip(name.len() - 5) == catalog_suffix() {
        Some(name.take(name.len() - 5))
    } else {
        None
    }
}

/// The locale tag of the catalog file called `name`, if it is one.
pub fn catalog_tag(name: &str) -> (r: Option<String>)
    ensures
        match r {
            Some(tag) => tag_of_file(name@) == Some(tag@),
            None => tag_of_file(name@) is None,
        },
{
    let chars = chars_of(name);
    let n: usize = chars.len();
    if n <= 5 {
        return None;
    }
    let at: usize = n - 5;
    let ghost tail = name@.skip(at as int);
    assert(tail.len() == 5);
    assert(forall|k: int| 0 <= k < 5 ==> tail[k] == chars[at + k]);
    if chars[at] == '.' && chars[at + 1] == 'j' && chars[at + 2] == 's' && chars[at + 3] == 'o'
        && chars[at + 4] == 'n' {
        assert(tail =~= catalog_suffix());
        let stem = name.substring_char(0, at);
        assert(name@.subrange(0, at as int) =~= name@.take(at as int));
        Some(stem.to_owned())
    } else {
        assert(tail[0] == chars[at as int]);
        assert(tail[1] == chars[at + 1]);
        assert(tail[2] == chars[at + 2]);
        assert(tail[3] == chars[at + 3]);
        assert(tail[4] == chars[at + 4]);
        None
    }
}

} // verus!
