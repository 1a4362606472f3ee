//! Resolving a user reference against the repository's tag list.

use vstd::prelude::*;
use crate::model::{Resolution, TagRecord};

verus! {

/// Index of the first tag whose name is exactly `reference`, if any.
pub open spec fn first_tag_match(tags: Seq<TagRecord>, reference: Seq<char>) -> Option<int>
    decreases tags.len(),
{
    if tags.len() == 0 {
        None
    } else if tags[0].name@ == reference {
        Some(0int)
    } else {
        match first_tag_match(tags.drop_first(), reference) {
            Some(i) => Some(i + 1),
            None => None,
        }
    }
}

/// A position holding the name, with the name at no earlier position,
/// is the first match; the length, when no position holds it, means
/// there is none.
pub proof fn lemma_first_tag_match_unique(tags: Seq<TagRecord>, reference: Seq<char>, i: int)
    requires
        0 <= i <= tags.len(),
        i < tags.len() ==> tags[i].name@ == reference,
        forall|j: int| 0 <= j < i ==> tags[j].name@ != reference,
    ensures
        i < tags.len() ==> first_tag_match(tags, reference) == Some(i),
        i == tags.len() ==> first_tag_match(tags, reference) is None,
    decreases tags.len(),
{
    if tags.len() > 0 && tags[0].name@ != reference {
        assert(i > 0);
        lemma_first_tag_match_unique(tags.drop_first(), reference, i - 1);
    }
}

/// Resolve a user reference: the target SHA of the first tag named
/// exactly `reference`, else the reference kept as it came, taken to be
/// a raw SHA or SHA prefix. Resolution never fails; a reference no tag
/// knows is merely passed through.
pub fn resolve_reference(tags: &Vec<TagRecord>, reference: &str) -> (r: Resolution)
    ensures
        match first_tag_match(tags@, reference@) {
            Some(i) => r matches Resolution::FromTag(s) && s@ == tags@[i].target_sha@,
            None => r matches Resolution::Passthrough(s) && s@ == reference@,
        },
        first_tag_match(tags@, reference@) is Some <==> r is FromTag,
{
    let n = tags.len();
    let mut i: usize = 0;
    while i < n
        invariant
            i <= n,
            n == tags@.len(),
            forall|j: int| 0 <= j < i ==> tags@[j].name@ != reference@,
        decreases n - i,
    {
        if crate::text::str_eq(tags[i].name.as_str(), reference) {
            proof {
                lemma_first_tag_match_unique(tags@, reference@, i as int);
            }
            return Resolution::FromTag(tags[i].target_sha.clone());
        }
        i += 1;
    }
    proof {
        lemma_first_tag_match_unique(tags@, reference@, n as int);
    }
    Resolution::Passthrough(reference.to_owned())
}

} // verus!
