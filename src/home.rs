use vstd::prelude::*;

use crate::edit::{edited, parsed, replace_attr, spliced_text};
use crate::locate::ValueKind;
use crate::syntax::{parseable, text_of};

verus! {

/// What `{:?}` makes of a path: the text in double quotes, with quotes,
/// backslashes, control and other unprintable characters escaped.
pub uninterp spec fn debug_quoted(s: Seq<char>) -> Seq<char>;

/// A printable ASCII character that `{:?}` leaves as it is.
pub open spec fn is_plain_char(c: char) -> bool {
    ' ' <= c <= '~' && c != '"' && c != '\\' && c != '\''
}

/// Relies on the `Debug` formatting of `std::path::Path`, which depends on
/// the text alone and writes printable ASCII other than quotes and
/// backslashes unescaped between double quotes.
#[verifier::external_body]
fn debug_quote(s: &str) -> (r: String)
    ensures
        r@ == debug_quoted(s@),
        (forall|i: int| 0 <= i < s@.len() ==> is_plain_char(#[trigger] s@[i])) ==> r@ == seq!['"'] + s@
            + seq!['"'],
{
    format!("{:?}", std::path::Path::new(s))
}

/// The string literal that names the flake home directory `home_dir`.
pub fn flake_home_literal(home_dir: &str) -> (r: String)
    ensures
        r@ == debug_quoted(home_dir@),
        (forall|i: int| 0 <= i < home_dir@.len() ==> is_plain_char(#[trigger] home_dir@[i])) ==> r@
            == seq!['"'] + home_dir@ + seq!['"'],
{
    debug_quote(home_dir)
}

/// Replaces the string bound to `property` in the source `self_src` by a
/// string literal naming `home_dir`, keeping every byte around it. A source
/// without that attribute, or where its value is not a string, comes back
/// unchanged; where the source or the literal is beyond the parser there is
/// no result.
pub fn replace_flake_home(self_src: &str, property: &str, home_dir: &str) -> (r: Option<String>)
    ensures
        r is Some <==> parseable(self_src@) && parseable(debug_quoted(home_dir@)),
        r matches Some(t) ==> t@ == text_of(
            edited(parsed(self_src@), property@, ValueKind::Str, parsed(debug_quoted(home_dir@))),
        ),
        r matches Some(t) ==> t@ == spliced_text(self_src@, property@, ValueKind::Str, debug_quoted(home_dir@)),
{
    let literal = flake_home_literal(home_dir);
    replace_attr(self_src, property, ValueKind::Str, literal.as_str())
}

} // verus!
