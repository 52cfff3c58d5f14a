//! Feed items: the candidate articles of one run.
use vstd::prelude::*;

verus! {

/// One candidate article produced by the feed document for the current run.
/// `id` is the stable dedup key; it must be unique within one feed snapshot.
pub struct Item {
    pub id: String,
    pub title: String,
    pub author_name: String,
    pub url: String,
    pub tags: Vec<String>,
}

/// Mathematical view of an `Item`: every field as plain sequences.
pub ghost struct ItemView {
    pub id: Seq<char>,
    pub title: Seq<char>,
    pub author_name: Seq<char>,
    pub url: Seq<char>,
    pub tags: Seq<Seq<char>>,
}

impl View for Item {
    type V = ItemView;

    open spec fn view(&self) -> ItemView {
        ItemView {
            id: self.id@,
            title: self.title@,
            author_name: self.author_name@,
            url: self.url@,
            tags: self.tags.deep_view(),
        }
    }
}

impl DeepView for Item {
    type V = ItemView;

    open spec fn deep_view(&self) -> ItemView {
        self.view()
    }
}

/// Ids are unique within one feed snapshot.
pub open spec fn feed_ids_unique(items: Seq<ItemView>) -> bool {
    forall|i: int, j: int| 0 <= i < j < items.len() ==> items[i].id != items[j].id
}

/// Checks that no two items of the snapshot share an id, which a run's
/// dedup rests on.
pub fn check_feed_ids_unique(items: &Vec<Item>) -> (r: bool)
    ensures
        r == feed_ids_unique(items.deep_view()),
{
    let n = items.len();
    let mut i: usize = 0;
    while i < n
        invariant
            i <= n,
            forall|p: int, q: int|
                0 <= p < q < i ==> items.deep_view()[p].id != items.deep_view()[q].id,
        decreases n - i,
    {
        let mut j: usize = 0;
        while j < i
            invariant
                j <= i < n,
                forall|p: int| 0 <= p < j ==> items.deep_view()[p].id != items.deep_view()[i as int].id,
            decreases i - j,
        {
            if items[j].id == items[i].id {
                proof {
                    assert(items.deep_view()[j as int].id == items.deep_view()[i as int].id);
                }
                return false;
            }
            j += 1;
        }
        i += 1;
    }
    true
}

} // verus!
