//! The category map: a lookup from feed tag to display hashtag.
use vstd::prelude::*;

verus! {

/// One tag-to-hashtag binding.
pub struct Category {
    pub tag: String,
    pub hashtag: String,
}

/// Mapping from feed tag to hashtag label.  Keys are unique; a tag with no
/// binding yields no hashtag, never an error.  The map is modelled as a
/// mathematical `Map` from tag characters to hashtag characters.
pub struct CategoryMap {
    entries: Vec<Category>,
}

/// The map denoted by a sequence of bindings (later bindings would win,
/// but the container keeps its tags distinct).
pub open spec fn map_of(entries: Seq<Category>) -> Map<Seq<char>, Seq<char>>
    decreases entries.len(),
{
    if entries.len() == 0 {
        Map::empty()
    } else {
        map_of(entries.drop_last()).insert(entries.last().tag@, entries.last().hashtag@)
    }
}

/// All tags in the sequence are distinct.
pub open spec fn distinct_tags(entries: Seq<Category>) -> bool {
    forall|i: int, j: int| 0 <= i < j < entries.len() ==> entries[i].tag@ != entries[j].tag@
}

/// A tag is in the map's domain exactly when some binding carries it.
proof fn lemma_map_of_dom(entries: Seq<Category>)
    ensures
        forall|t: Seq<char>|
            #[trigger] map_of(entries).contains_key(t) <==> exists|i: int|
                0 <= i < entries.len() && entries[i].tag@ == t,
    decreases entries.len(),
{
    if entries.len() > 0 {
        lemma_map_of_dom(entries.drop_last());
        assert forall|t: Seq<char>| #[trigger]
            map_of(entries).contains_key(t) implies exists|i: int|
            0 <= i < entries.len() && entries[i].tag@ == t by {
            if entries.last().tag@ == t {
                assert(entries[entries.len() - 1].tag@ == t);
            } else {
                assert(map_of(entries.drop_last()).contains_key(t));
                let i = choose|i: int|
                    0 <= i < entries.drop_last().len() && entries.drop_last()[i].tag@ == t;
                assert(entries.drop_last()[i] == entries[i]);
                assert(entries[i].tag@ == t);
            }
        }
        assert forall|t: Seq<char>|
            (exists|i: int| 0 <= i < entries.len() && entries[i].tag@ == t) implies #[trigger]
            map_of(entries).contains_key(t) by {
            let i = choose|i: int| 0 <= i < entries.len() && entries[i].tag@ == t;
            if i < entries.len() - 1 {
                assert(entries.drop_last()[i] == entries[i]);
                assert(exists|j: int|
                    0 <= j < entries.drop_last().len() && entries.drop_last()[j].tag@ == t);
                assert(map_of(entries.drop_last()).contains_key(t));
            }
        }
    }
}

/// Under distinct tags, each binding is the one the map carries.
proof fn lemma_map_of_entry(entries: Seq<Category>, i: int)
    requires
        distinct_tags(entries),
        0 <= i < entries.len(),
    ensures
        map_of(entries).contains_key(entries[i].tag@),
        map_of(entries)[entries[i].tag@] == entries[i].hashtag@,
    decreases entries.len(),
{
    if i == entries.len() - 1 {
    } else {
        lemma_map_of_entry(entries.drop_last(), i);
        assert(entries.drop_last()[i] == entries[i]);
        assert(entries.last().tag@ != entries[i].tag@);
    }
}

impl View for CategoryMap {
    type V = Map<Seq<char>, Seq<char>>;

    closed spec fn view(&self) -> Map<Seq<char>, Seq<char>> {
        map_of(self.entries@)
    }
}

impl CategoryMap {
    /// The container's tags stay distinct, so lookups are unambiguous.
    #[verifier::type_invariant]
    spec fn inv(self) -> bool {
        distinct_tags(self.entries@)
    }

    /// An empty map: no tag resolves.
    pub fn new() -> (r: CategoryMap)
        ensures
            r@ == Map::<Seq<char>, Seq<char>>::empty(),
    {
        CategoryMap { entries: Vec::new() }
    }

    /// Adds a binding.  A tag already present keeps its first binding and
    /// the call reports that nothing was added.
    pub fn insert(&mut self, tag: String, hashtag: String) -> (added: bool)
        ensures
            old(self)@.contains_key(tag@) ==> !added && final(self)@ == old(self)@,
            !old(self)@.contains_key(tag@) ==> added && final(self)@ == old(self)@.insert(
                tag@,
                hashtag@,
            ),
    {
        proof {
            use_type_invariant(&*self);
            lemma_map_of_dom(self.entries@);
        }
        let n = self.entries.len();
        let mut i: usize = 0;
        while i < n
            invariant
                i <= n,
                forall|j: int| 0 <= j < i ==> self.entries@[j].tag@ != tag@,
            decreases n - i,
        {
            if self.entries[i].tag == tag {
                return false;
            }
            i += 1;
        }
        let ghost pre = self.entries@;
        let mut entries: Vec<Category> = Vec::new();
        core::mem::swap(&mut entries, &mut self.entries);
        entries.push(Category { tag, hashtag });
        core::mem::swap(&mut entries, &mut self.entries);
        proof {
            assert(self.entries@.drop_last() == pre);
        }
        true
    }

    /// Exact-match lookup: the hashtag bound to `tag`, if any.  An absent
    /// tag yields `None`, not an error.
    pub fn hashtag_for(&self, tag: &String) -> (r: Option<String>)
        ensures
            match r {
                Some(h) => self@.contains_key(tag@) && h@ == self@[tag@],
                None => !self@.contains_key(tag@),
            },
    {
        proof {
            use_type_invariant(self);
            lemma_map_of_dom(self.entries@);
        }
        let n = self.entries.len();
        let mut i: usize = 0;
        while i < n
            invariant
                i <= n,
                forall|j: int| 0 <= j < i ==> self.entries@[j].tag@ != tag@,
            decreases n - i,
        {
            if self.entries[i].tag == *tag {
                proof {
                    lemma_map_of_entry(self.entries@, i as int);
                }
                return Some(self.entries[i].hashtag.clone());
            }
            i += 1;
        }
        None
    }
}

} // verus!
