//! What a list of probes found: the first hit, or all of them.

use vstd::prelude::*;
use crate::text::{text_of, text_views};

verus! {

/// The values of a sequence of optional strings.
pub open spec fn option_views(found: Seq<Option<String>>) -> Seq<Option<Seq<char>>> {
    Seq::new(found.len(), |i: int| text_of(found[i]))
}

/// The first place from `from` on, below `limit`, at which `found` holds
/// something.
pub open spec fn first_present_from(found: Seq<Option<Seq<char>>>, limit: int, from: int) -> Option<
    int,
>
    decreases limit - from,
{
    if from < 0 || from >= limit || from >= found.len() {
        None
    } else if found[from] is Some {
        Some(from)
    } else {
        first_present_from(found, limit, from + 1)
    }
}

/// The first place below `limit` at which `found` holds something.
pub open spec fn first_present(found: Seq<Option<Seq<char>>>, limit: int) -> Option<int> {
    first_present_from(found, limit, 0)
}

/// The first hit is a hit with only misses before it; there is none exactly
/// when all places below the limit are misses.
pub proof fn lemma_first_present(found: Seq<Option<Seq<char>>>, limit: int, from: int)
    requires
        0 <= from,
    ensures
        match first_present_from(found, limit, from) {
            Some(i) => {
                &&& from <= i < limit
                &&& i < found.len()
                &&& found[i] is Some
                &&& forall|j: int| from <= j < i ==> (#[trigger] found[j]) is None
            },
            None => forall|j: int|
                from <= j < limit && j < found.len() ==> (#[trigger] found[j]) is None,
        },
    decreases limit - from,
{
    if from < limit && from < found.len() && found[from] is None {
        lemma_first_present(found, limit, from + 1);
    }
}

/// The place of the first hit among the first `limit` probes.
pub fn first_found(found: &Vec<Option<String>>, limit: usize) -> (place: Option<usize>)
    ensures
        match place {
            Some(i) => first_present(option_views(found@), limit as int) == Some(i as int),
            None => first_present(option_views(found@), limit as int) is None,
        },
{
    let ghost views = option_views(found@);
    let mut i: usize = 0;
    while i < limit && i < found.len()
        invariant
            views == option_views(found@),
            first_present(views, limit as int) == first_present_from(views, limit as int, i as int),
        decreases found.len() - i,
    {
        match &found[i] {
            Some(_) => {
                return Some(i);
            },
            None => {},
        }
        i += 1;
    }
    None
}

/// The texts among `list`, in order.
pub open spec fn present_texts(list: Seq<Option<Seq<char>>>) -> Seq<Seq<char>>
    decreases list.len(),
{
    if list.len() == 0 {
        Seq::empty()
    } else {
        match list.last() {
            Some(t) => present_texts(list.drop_last()).push(t),
            None => present_texts(list.drop_last()),
        }
    }
}

/// The strings among `list`, in order.
pub fn present_strings(list: &Vec<Option<String>>) -> (texts: Vec<String>)
    ensures
        text_views(texts@) == present_texts(option_views(list@)),
{
    let ghost all = option_views(list@);
    let mut texts: Vec<String> = Vec::new();
    let mut i: usize = 0;
    while i < list.len()
        invariant
            i <= list.len(),
            all == option_views(list@),
            text_views(texts@) == present_texts(all.take(i as int)),
        decreases list.len() - i,
    {
        let ghost before = text_views(texts@);
        proof {
            assert(all.take(i + 1).drop_last() =~= all.take(i as int));
            assert(all.take(i + 1).last() == all[i as int]);
        }
        match &list[i] {
            Some(t) => {
                texts.push(t.clone());
                assert(text_views(texts@) =~= before.push(t@));
            },
            None => {},
        }
        i += 1;
    }
    proof {
        assert(all.take(i as int) =~= all);
    }
    texts
}

} // verus!
