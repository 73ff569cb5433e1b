//! Lists of tags: joining them, and keeping one of each.

use vstd::prelude::*;

verus! {

/// Appends the tags of `tags` to `all`, in their order and with repeats.
pub fn append_tags<'a>(all: &mut Vec<&'a String>, tags: &'a Vec<String>)
    ensures
        final(all).deep_view() == old(all).deep_view() + tags.deep_view(),
{
    let mut i: usize = 0;
    while i < tags.len()
        invariant
            i <= tags.len(),
            all.len() == old(all).len() + i,
            forall|k: int| 0 <= k < old(all).len() ==> all@[k]@ == old(all)@[k]@,
            forall|k: int| 0 <= k < i ==> all@[old(all).len() + k]@ == tags@[k]@,
        decreases tags.len() - i,
    {
        all.push(&tags[i]);
        i += 1;
    }
}

/// All tags of `first` followed by all tags of `second`, with repeats.
pub fn concat_tags<'a>(first: &'a Vec<String>, second: &'a Vec<String>) -> (all: Vec<&'a String>)
    ensures
        all.deep_view() == first.deep_view() + second.deep_view(),
{
    let mut all: Vec<&String> = Vec::new();
    append_tags(&mut all, first);
    append_tags(&mut all, second);
    all
}

/// Whether `tag` is one of `tags`.
pub fn has_tag(tags: &Vec<&String>, tag: &String) -> (found: bool)
    ensures
        found == tags.deep_view().contains(tag@),
{
    let mut i: usize = 0;
    while i < tags.len()
        invariant
            i <= tags.len(),
            forall|k: int| 0 <= k < i ==> tags.deep_view()[k] != tag@,
        decreases tags.len() - i,
    {
        let other: &String = tags[i];
        if *other == *tag {
            assert(tags.deep_view()[i as int] == tag@);
            return true;
        }
        i += 1;
    }
    false
}

/// The set of the tags of `tags`: one of each, none twice.
pub fn distinct_tags<'a>(tags: &Vec<&'a String>) -> (distinct: Vec<&'a String>)
    ensures
        distinct.deep_view().no_duplicates(),
        distinct.deep_view().to_set() == tags.deep_view().to_set(),
        distinct.len() == tags.deep_view().to_set().len(),
{
    let mut distinct: Vec<&String> = Vec::new();
    let mut i: usize = 0;
    while i < tags.len()
        invariant
            i <= tags.len(),
            distinct.deep_view().no_duplicates(),
            forall|k: int|
                0 <= k < i ==> distinct.deep_view().contains(#[trigger] tags.deep_view()[k]),
            forall|j: int|
                0 <= j < distinct.len() ==> tags.deep_view().contains(
                    #[trigger] distinct.deep_view()[j],
                ),
        decreases tags.len() - i,
    {
        let tag: &String = tags[i];
        let ghost before = distinct.deep_view();
        if !has_tag(&distinct, tag) {
            distinct.push(tag);
            assert(distinct.deep_view() == before.push(tag@));
            assert forall|k: int| 0 <= k < i + 1 implies distinct.deep_view().contains(
                #[trigger] tags.deep_view()[k],
            ) by {
                if k < i {
                    let j = choose|j: int|
                        0 <= j < before.len() && before[j] == tags.deep_view()[k];
                    assert(distinct.deep_view()[j] == tags.deep_view()[k]);
                } else {
                    assert(distinct.deep_view()[before.len() as int] == tags.deep_view()[k]);
                }
            }
            assert(tags.deep_view()[i as int] == tag@);
        }
        i += 1;
    }
    proof {
        distinct.deep_view().unique_seq_to_set();
    }
    distinct
}

} // verus!
