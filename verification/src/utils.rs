//! Utility functions shared by the commands.

use vstd::prelude::*;

use crate::text;

verus! {

/// Whether two entries of an unprocessed custom-field list share a key.
pub open spec fn spec_has_duplicate(fields: Seq<(Seq<char>, Option<Seq<char>>)>) -> bool {
    exists|i: int, j: int| 0 <= i < j < fields.len() && fields[i].0 == fields[j].0
}

/// Returns a duplicated key from the custom fields (unprocessed fields),
/// when two entries share one.
pub fn get_duplicated_field(fields: &[(String, Option<String>)]) -> (r: Option<&str>)
    ensures
        match r {
            Some(k) => spec_has_duplicate(fields.deep_view()) && (exists|i: int, j: int|
                0 <= i < j < fields.deep_view().len() && fields.deep_view()[i].0 == k@
                    && fields.deep_view()[j].0 == k@),
            None => !spec_has_duplicate(fields.deep_view()),
        },
{
    let ghost fv = fields.deep_view();
    let mut i: usize = 0;
    while i < fields.len()
        invariant
            0 <= i <= fields@.len(),
            fv == fields.deep_view(),
            fv.len() == fields@.len(),
            forall|a: int, b: int| 0 <= a < i && a < b < fv.len() ==> fv[a].0 != fv[b].0,
        decreases fields@.len() - i,
    {
        let mut j: usize = i + 1;
        while j < fields.len()
            invariant
                0 <= i < j <= fields@.len(),
                fv == fields.deep_view(),
                fv.len() == fields@.len(),
                forall|b: int| i < b < j ==> fv[i as int].0 != fv[b].0,
            decreases fields@.len() - j,
        {
            proof {
                assert(fv[i as int] =~~= (fields@[i as int].0@, fields@[i as int].1.deep_view()));
                assert(fv[j as int] =~~= (fields@[j as int].0@, fields@[j as int].1.deep_view()));
            }
            if text::str_eq(fields[i].0.as_str(), fields[j].0.as_str()) {
                return Some(fields[i].0.as_str());
            }
            j = j + 1;
        }
        i = i + 1;
    }
    None
}

} // verus!
