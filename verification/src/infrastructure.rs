//! Setting up the infrastructure file of a collection: the names shown for
//! what the user typed, and the identifiers made from them.

use vstd::prelude::*;
use crate::text::{
    concat, join_strings, joined, lowercase, split, split_spec, string_from_chars,
    string_from_range, to_chars, to_lowercase, views_of,
};

verus! {

broadcast use vstd::string::group_string_axioms;

/// What `char::to_uppercase` yields for `c`, collected into a string.
pub uninterp spec fn uppercase_of(c: char) -> Seq<char>;

/// `char::to_uppercase`, collected into a `String`: the Unicode upper case
/// of `c`. The contract names the result and states nothing of the Unicode
/// case tables.
#[verifier::external_body]
fn char_to_uppercase(c: char) -> (r: String)
    ensures
        r@ == uppercase_of(c),
{
    c.to_uppercase().collect::<String>()
}

/// Whether `char::is_alphanumeric` holds of `c`.
pub uninterp spec fn alphanumeric(c: char) -> bool;

/// `char::is_alphanumeric`: whether `c` is alphabetic or numeric in the
/// Unicode sense. The contract names the answer and states nothing of the
/// Unicode tables.
#[verifier::external_body]
fn is_alphanumeric(c: char) -> (r: bool)
    ensures
        r == alphanumeric(c),
{
    c.is_alphanumeric()
}

/// `s` with its first character in upper case.
pub open spec fn capitalized(s: Seq<char>) -> Seq<char> {
    if s.len() == 0 {
        Seq::empty()
    } else {
        uppercase_of(s[0]) + s.skip(1)
    }
}

/// `s` with every character that is not alphanumeric replaced by `_`.
pub open spec fn underscored(s: Seq<char>) -> Seq<char> {
    s.map_values(|c: char| if alphanumeric(c) { c } else { '_' })
}

/// The slug of `s`: lower case, every run of characters that are not
/// alphanumeric made one `_`, none at either end.
pub open spec fn slug(s: Seq<char>) -> Seq<char> {
    joined(split_spec(underscored(lowercase(s)), '_').filter(|p: Seq<char>| p.len() > 0), "_"@)
}

/// The command that sets up a new infrastructure file.
pub struct InfrastructureCommand;

/// The command that creates or edits the infrastructure file.
pub struct InitCommand;

/// `s` with its first character in upper case.
fn capitalize(s: &str) -> (r: String)
    ensures
        r@ == capitalized(s@),
{
    let cs = to_chars(s);
    if cs.len() == 0 {
        return String::new();
    }
    let first = char_to_uppercase(cs[0]);
    let rest = string_from_range(&cs, 1, cs.len());
    proof {
        assert(cs@.subrange(1, cs@.len() as int) =~= s@.skip(1));
    }
    concat(first.as_str(), rest.as_str())
}

impl InfrastructureCommand {
    /// `s` with its first character in upper case; empty stays empty.
    pub fn capitalize_first(s: &str) -> (r: String)
        ensures
            r@ == capitalized(s@),
    {
        capitalize(s)
    }

    /// The slug of `s`: lower case, with every run of characters that are
    /// not alphanumeric made one underscore, and none at either end
    /// (`"My Web-App!"` gives `"my_web_app"`).
    pub fn slugify(s: &str) -> (r: String)
        ensures
            r@ == slug(s@),
    {
        let lower = to_lowercase(s);
        let cs = to_chars(lower.as_str());
        let mut mapped: Vec<char> = Vec::new();
        let mut i: usize = 0;
        while i < cs.len()
            invariant
                i <= cs.len(),
                mapped@ == underscored(cs@.take(i as int)),
            decreases cs.len() - i,
        {
            let c = cs[i];
            let keep = is_alphanumeric(c);
            if keep {
                mapped.push(c);
            } else {
                mapped.push('_');
            }
            proof {
                assert(cs@.take(i + 1) =~= cs@.take(i as int).push(c));
            }
            i = i + 1;
        }
        proof {
            assert(cs@.take(cs@.len() as int) =~= cs@);
        }
        let joined_chars = string_from_chars(mapped.as_slice());
        let pieces = split(joined_chars.as_str(), '_');
        let ghost pv = views_of(pieces@);
        let ghost nonempty = |p: Seq<char>| p.len() > 0;
        let mut kept: Vec<String> = Vec::new();
        let mut j: usize = 0;
        while j < pieces.len()
            invariant
                j <= pieces.len(),
                pv == views_of(pieces@),
                nonempty == (|p: Seq<char>| p.len() > 0),
                views_of(kept@) == pv.take(j as int).filter(nonempty),
            decreases pieces.len() - j,
        {
            let p = &pieces[j];
            proof {
                reveal(Seq::filter);
                assert(pv.take(j + 1).drop_last() =~= pv.take(j as int));
                assert(pv.take(j + 1).last() == p@);
            }
            if !p.as_str().is_empty() {
                let ghost before = kept@;
                kept.push(p.clone());
                proof {
                    assert(views_of(kept@) =~= views_of(before).push(p@));
                }
            }
            j = j + 1;
        }
        proof {
            assert(pv.take(pv.len() as int) =~= pv);
        }
        join_strings(&kept, "_")
    }
}

impl InitCommand {
    /// `s` with its first character in upper case; empty stays empty.
    pub fn capitalize_first(s: &str) -> (r: String)
        ensures
            r@ == capitalized(s@),
    {
        capitalize(s)
    }
}

} // verus!
