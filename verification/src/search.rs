use crate::editor::markdown::{decimal, push_decimal};
use crate::text::{into_string, push_str};
use vstd::prelude::*;

verus! {

broadcast use vstd::string::group_string_axioms;

/// What the search bar shows for a count of occurrences: `-1` while the count
/// is not known yet, and otherwise the number found.
pub open spec fn occurrences_text(count: i32) -> Seq<char> {
    if count == -1 {
        "Recherche..."@
    } else if count == 0 {
        "Aucun résultat"@
    } else if count > 0 {
        decimal(count as nat) + " trouvés"@
    } else {
        "-"@ + decimal((-count) as nat) + " trouvés"@
    }
}

/// The label of the search bar for `count` occurrences.
pub fn occurrences_label(count: i32) -> (r: String)
    ensures
        r@ == occurrences_text(count),
{
    if count == -1 {
        "Recherche...".to_owned()
    } else if count == 0 {
        "Aucun résultat".to_owned()
    } else {
        let mut out: Vec<char> = Vec::new();
        if count > 0 {
            push_decimal(&mut out, count as u64);
        } else {
            push_str(&mut out, "-");
            let magnitude: u64 = (0i64 - count as i64) as u64;
            push_decimal(&mut out, magnitude);
        }
        push_str(&mut out, " trouvés");
        into_string(out)
    }
}

/// The label of the search bar after replacing every occurrence.
pub fn replacement_label(succeeded: bool) -> (r: &'static str)
    ensures
        succeeded ==> r@ == "Remplacements terminés"@,
        !succeeded ==> r@ == "Erreur de remplacement"@,
{
    if succeeded {
        "Remplacements terminés"
    } else {
        "Erreur de remplacement"
    }
}

} // verus!
