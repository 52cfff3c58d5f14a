//! Announcement text synthesis: a pure function of one item and the
//! category map.
use vstd::prelude::*;
use crate::categories::CategoryMap;
use crate::feed::{Item, ItemView};

verus! {

broadcast use vstd::seq_lib::group_seq_lib_default;

/// What the item's tags contribute, in tag order: ` #<hashtag>` for every
/// tag the map resolves, nothing — not even a separator — for the rest.
pub open spec fn tag_suffix(tags: Seq<Seq<char>>, cats: Map<Seq<char>, Seq<char>>) -> Seq<char>
    decreases tags.len(),
{
    if tags.len() == 0 {
        Seq::empty()
    } else {
        tag_suffix(tags.drop_last(), cats) + (if cats.contains_key(tags.last()) {
            " #"@ + cats[tags.last()]
        } else {
            Seq::<char>::empty()
        })
    }
}

/// The full announcement text: title, author, url, the fixed topical tag,
/// then the resolved hashtags in tag order.  A pure function of the item
/// and the category map, so identical inputs always yield identical text.
pub open spec fn toot_text(item: ItemView, cats: Map<Seq<char>, Seq<char>>) -> Seq<char> {
    item.title + " by "@ + item.author_name + ": "@ + item.url + " #Rust"@ + tag_suffix(
        item.tags,
        cats,
    )
}

/// Synthesizes the announcement text for one item.  Never fails; tags the
/// map does not resolve are skipped without leaving a gap.
pub fn toot_text_from_item(item: &Item, categories: &CategoryMap) -> (r: String)
    ensures
        r@ == toot_text(item@, categories@),
{
    let mut s = item.title.clone();
    s.append(" by ");
    s.append(item.author_name.as_str());
    s.append(": ");
    s.append(item.url.as_str());
    s.append(" #Rust");
    let ghost head = s@;
    let n = item.tags.len();
    let mut i: usize = 0;
    proof {
        assert(s@ =~= head + tag_suffix(item@.tags.take(0), categories@));
    }
    while i < n
        invariant
            i <= n,
            n == item@.tags.len(),
            s@ == head + tag_suffix(item@.tags.take(i as int), categories@),
        decreases n - i,
    {
        let ghost tagv = item@.tags[i as int];
        proof {
            assert(item.tags@[i as int]@ == tagv);
        }
        match categories.hashtag_for(&item.tags[i]) {
            Some(h) => {
                s.append(" #");
                s.append(h.as_str());
            },
            None => {},
        }
        proof {
            assert(item@.tags.take(i + 1).drop_last() =~= item@.tags.take(i as int));
            assert(item@.tags.take(i + 1).last() == tagv);
            assert(s@ =~= head + tag_suffix(item@.tags.take(i + 1), categories@));
        }
        i += 1;
    }
    proof {
        assert(item@.tags.take(n as int) =~= item@.tags);
    }
    s
}

} // verus!
