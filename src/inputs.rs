use vstd::prelude::*;

use crate::edit::{edited, parsed, replace_attr, spliced_text};
use crate::locate::ValueKind;
use crate::syntax::{parseable, text_of};

verus! {

/// Replaces the attribute set bound to `inputs` in a flake's source by the
/// evaluator's output `evaluated`, keeping every byte around it. A flake
/// without such an attribute, or whose `inputs` is not an attribute set,
/// comes back unchanged; where either text is beyond the parser there is no
/// result.
pub fn replace_inputs(flake_src: &str, evaluated: &str) -> (r: Option<String>)
    ensures
        r is Some <==> parseable(flake_src@) && parseable(evaluated@),
        r matches Some(t) ==> t@ == text_of(
            edited(parsed(flake_src@), "inputs"@, ValueKind::AttrSet, parsed(evaluated@)),
        ),
        r matches Some(t) ==> t@ == spliced_text(flake_src@, "inputs"@, ValueKind::AttrSet, evaluated@),
{
    replace_attr(flake_src, "inputs", ValueKind::AttrSet, evaluated)
}

} // verus!
