//! The orchestrator of one run: filter the feed against the ledger, hand
//! out announcement texts in order, and gate persistence behind
//! all-or-nothing batch semantics.
//!
//! The caller drives the run: it repeatedly takes the next announcement
//! text, performs the outside work (printing, and in live mode the remote
//! post), and reports progress with [`Pipeline::mark_announced`].  If any
//! posting fails, the caller simply stops: the ledger text to persist is
//! only ever handed out once every selected item has been announced, and
//! never in dry-run mode, so an aborted run leaves the prior ledger file
//! untouched.
use vstd::prelude::*;
use crate::categories::CategoryMap;
use crate::codec;
use crate::feed::{feed_ids_unique, Item, ItemView};
use crate::formatter::{toot_text, toot_text_from_item};
use crate::ledger::Ledger;

verus! {

broadcast use vstd::seq_lib::group_seq_lib_default;

/// The ids of the given items, in order.
pub open spec fn ids_of(items: Seq<ItemView>) -> Seq<Seq<char>> {
    items.map_values(|it: ItemView| it.id)
}

/// Which items one run announces: the subsequence of the feed whose ids
/// the ledger does not hold yet, in feed order.
pub open spec fn select_spec(feed: Seq<ItemView>, before: Seq<Seq<char>>) -> Seq<ItemView> {
    feed.filter(|it: ItemView| !before.contains(it.id))
}

/// Every selected item comes from the feed.
proof fn lemma_select_from_feed(feed: Seq<ItemView>, before: Seq<Seq<char>>)
    ensures
        forall|k: int|
            0 <= k < select_spec(feed, before).len() ==> feed.contains(
                #[trigger] select_spec(feed, before)[k],
            ),
    decreases feed.len(),
{
    reveal(Seq::filter);
    if feed.len() > 0 {
        lemma_select_from_feed(feed.drop_last(), before);
        assert forall|k: int| 0 <= k < select_spec(feed, before).len() implies feed.contains(
            #[trigger] select_spec(feed, before)[k],
        ) by {
            let sel = select_spec(feed, before);
            let sub = select_spec(feed.drop_last(), before);
            if k < sub.len() {
                assert(sub[k] == sel[k]);
                let j = choose|j: int| 0 <= j < feed.drop_last().len() && feed.drop_last()[j]
                    == sub[k];
                assert(feed[j] == sel[k]);
            } else {
                assert(sel[k] == feed.last());
            }
        }
    }
}

/// Selection keeps ids unique when the feed's ids are unique.
proof fn lemma_select_unique(feed: Seq<ItemView>, before: Seq<Seq<char>>)
    requires
        feed_ids_unique(feed),
    ensures
        feed_ids_unique(select_spec(feed, before)),
    decreases feed.len(),
{
    reveal(Seq::filter);
    if feed.len() > 0 {
        assert(feed_ids_unique(feed.drop_last()));
        lemma_select_unique(feed.drop_last(), before);
        lemma_select_from_feed(feed.drop_last(), before);
        let sel = select_spec(feed, before);
        let sub = select_spec(feed.drop_last(), before);
        assert forall|i: int, j: int| 0 <= i < j < sel.len() implies sel[i].id != sel[j].id by {
            if j < sub.len() {
                assert(sub[i] == sel[i] && sub[j] == sel[j]);
            } else if j == sub.len() && sel.len() == sub.len() + 1 {
                assert(sel[j] == feed.last());
                assert(sub[i] == sel[i]);
                let k = choose|k: int| 0 <= k < feed.drop_last().len() && feed.drop_last()[k]
                    == sub[i];
                assert(feed[k] == sel[i]);
                assert(feed[k].id != feed[feed.len() - 1].id);
            }
        }
    }
}

/// Dedup correctness: an item of the feed is selected exactly when its id
/// is not in the ledger loaded at the start of the run.
pub proof fn lemma_dedup_correct(feed: Seq<ItemView>, before: Seq<Seq<char>>, i: int)
    requires
        0 <= i < feed.len(),
    ensures
        select_spec(feed, before).contains(feed[i]) <==> !before.contains(feed[i].id),
{
    let sel = select_spec(feed, before);
    if sel.contains(feed[i]) {
        let k = choose|k: int| 0 <= k < sel.len() && sel[k] == feed[i];
        assert(!before.contains(sel[k].id));
    }
    if !before.contains(feed[i].id) {
        assert(sel.contains(feed[i])) by {
            Seq::lemma_filter_contains(feed, |it: ItemView| !before.contains(it.id), i);
        }
    }
}

/// Idempotence of a re-run: a feed whose ids are all in the ledger
/// already selects nothing, so the run announces and posts nothing.
pub proof fn lemma_rerun_selects_nothing(feed: Seq<ItemView>, before: Seq<Seq<char>>)
    requires
        forall|i: int| 0 <= i < feed.len() ==> before.contains(#[trigger] feed[i].id),
    ensures
        select_spec(feed, before).len() == 0,
{
    let sel = select_spec(feed, before);
    if sel.len() > 0 {
        lemma_select_from_feed(feed, before);
        assert(feed.contains(sel[0]));
        let k = choose|k: int| 0 <= k < feed.len() && feed[k] == sel[0];
        assert(before.contains(feed[k].id));
        assert(!before.contains(sel[0].id));
    }
}

/// One run of the pipeline, between loading and persisting.
///
/// The in-memory ledger advances as items are announced — also in dry-run
/// mode, so one loaded state never lists an item twice — but the text to
/// persist is handed out only for a complete live run.
pub struct Pipeline {
    categories: CategoryMap,
    ledger: Ledger,
    before: Ghost<Seq<Seq<char>>>,
    selected: Vec<Item>,
    announced: usize,
    dry_run: bool,
}

impl Pipeline {
    /// The ledger's ids as loaded at the start of the run.
    pub closed spec fn ledger_before(self) -> Seq<Seq<char>> {
        self.before@
    }

    /// The items this run announces, in feed order.
    pub closed spec fn selected(self) -> Seq<ItemView> {
        self.selected.deep_view()
    }

    /// How many of the selected items have been announced so far.
    pub closed spec fn announced(self) -> int {
        self.announced as int
    }

    /// Whether the run computes and shows announcements without posting
    /// or persisting.
    pub closed spec fn is_dry_run(self) -> bool {
        self.dry_run
    }

    /// The category map the run formats with.
    pub closed spec fn categories(self) -> Map<Seq<char>, Seq<char>> {
        self.categories@
    }

    /// Every selected item has been announced.
    pub open spec fn complete(self) -> bool {
        self.announced() == self.selected().len()
    }

    /// The in-memory ledger: the loaded ids plus the ids announced so far.
    pub open spec fn recorded(self) -> Seq<Seq<char>> {
        self.ledger_before() + ids_of(self.selected().take(self.announced()))
    }

    /// The ledger file text this run may persist: the full batch after a
    /// complete live run, and nothing otherwise.
    pub open spec fn payload(self) -> Option<Seq<char>> {
        if self.complete() && !self.is_dry_run() {
            Some(codec::encode_ids(self.recorded()))
        } else {
            None
        }
    }

    /// The state is a reachable run state.
    pub closed spec fn wf(self) -> bool {
        &&& self.announced <= self.selected.len()
        &&& self.ledger@ == self.recorded()
        &&& crate::ledger::distinct_ids(self.before@)
        &&& feed_ids_unique(self.selected.deep_view())
        &&& forall|k: int|
            0 <= k < self.selected.deep_view().len() ==> !self.before@.contains(
                #[trigger] self.selected.deep_view()[k].id,
            )
    }

    /// Starts a run from the loaded inputs: selects the feed items whose
    /// ids the ledger does not hold, preserving feed order.  Nothing has
    /// been announced yet.
    pub fn new(ledger: Ledger, feed: Vec<Item>, categories: CategoryMap, dry_run: bool) -> (p:
        Pipeline)
        requires
            feed_ids_unique(feed.deep_view()),
        ensures
            p.wf(),
            p.ledger_before() == ledger@,
            p.selected() == select_spec(feed.deep_view(), ledger@),
            p.announced() == 0,
            p.is_dry_run() == dry_run,
            p.categories() == categories@,
    {
        let ghost feed0 = feed.deep_view();
        let ghost beforev = ledger@;
        crate::ledger::note_ids_distinct(&ledger);
        let mut feed = feed;
        let mut selected: Vec<Item> = Vec::new();
        let mut processed: usize = 0;
        let total = feed.len();
        proof {
            assert(feed0.take(0) =~= Seq::<ItemView>::empty());
            reveal(Seq::filter);
            assert(selected.deep_view() =~= select_spec(feed0.take(0), beforev));
            assert(feed.deep_view() =~= feed0.skip(0));
        }
        while feed.len() > 0
            invariant
                processed + feed.len() == total,
                total == feed0.len(),
                feed.deep_view() == feed0.skip(processed as int),
                selected.deep_view() == select_spec(feed0.take(processed as int), beforev),
            decreases feed.len(),
        {
            let ghost fprev = feed@;
            let ghost dprev = feed.deep_view();
            let it = feed.remove(0);
            let ghost itv = it@;
            proof {
                assert(feed0.skip(processed as int)[0] == feed0[processed as int]);
                assert(itv == feed0[processed as int]);
                assert(feed@ =~= fprev.skip(1));
                assert forall|i: int| 0 <= i < feed@.len() implies feed.deep_view()[i] == feed0.skip(
                    processed + 1,
                )[i] by {
                    assert(feed.deep_view()[i] == feed@[i]@);
                    assert(feed@[i] == fprev[i + 1]);
                    assert(dprev[i + 1] == fprev[i + 1]@);
                    assert(dprev[i + 1] == feed0.skip(processed as int)[i + 1]);
                }
                assert(feed.deep_view() =~~= feed0.skip(processed + 1));
            }
            let ghost selprev = selected.deep_view();
            if !ledger.contains(&it.id) {
                selected.push(it);
                proof {
                    assert(selected.deep_view() =~~= selprev.push(itv));
                }
            }
            proof {
                reveal(Seq::filter);
                assert(feed0.take(processed + 1).drop_last() =~= feed0.take(processed as int));
                assert(feed0.take(processed + 1).last() == itv);
                assert(selected.deep_view() =~= select_spec(feed0.take(processed + 1), beforev));
            }
            processed += 1;
        }
        proof {
            assert(feed0.take(processed as int) =~= feed0);
        }
        let p = Pipeline {
            categories,
            ledger,
            before: Ghost(beforev),
            selected,
            announced: 0,
            dry_run,
        };
        proof {
            assert(ids_of(p.selected.deep_view().take(0)) =~= Seq::<Seq<char>>::empty());
            assert(p.ledger@ =~~= p.recorded());
            lemma_select_unique(feed0, beforev);
            assert forall|k: int| 0 <= k < p.selected.deep_view().len() implies !p.before@.contains(
                #[trigger] p.selected.deep_view()[k].id,
            ) by {
                assert((|it: ItemView| !beforev.contains(it.id))(p.selected.deep_view()[k])) by {
                    Seq::lemma_filter_pred(feed0, |it: ItemView| !beforev.contains(it.id), k);
                }
            }
        }
        p
    }

    /// The text of the next announcement still owed, formatted from the
    /// item and the category map; `None` once the run is complete.
    pub fn next_announcement(&self) -> (r: Option<String>)
        requires
            self.wf(),
        ensures
            match r {
                Some(t) => self.announced() < self.selected().len() && t@ == toot_text(
                    self.selected()[self.announced()],
                    self.categories(),
                ),
                None => self.complete(),
            },
    {
        if self.announced < self.selected.len() {
            let t = toot_text_from_item(&self.selected[self.announced], &self.categories);
            proof {
                assert(self.selected@[self.announced as int]@ == self.selected.deep_view()[self.announced as int]);
            }
            Some(t)
        } else {
            None
        }
    }

    /// Records that the current item was announced (or, in dry-run mode,
    /// shown): its id joins the in-memory ledger and the run advances to
    /// the next item.  The ledger loaded at start is not touched on disk.
    pub fn mark_announced(&mut self)
        requires
            old(self).wf(),
            !old(self).complete(),
        ensures
            final(self).wf(),
            final(self).announced() == old(self).announced() + 1,
            final(self).selected() == old(self).selected(),
            final(self).ledger_before() == old(self).ledger_before(),
            final(self).is_dry_run() == old(self).is_dry_run(),
            final(self).categories() == old(self).categories(),
    {
        let a = self.announced;
        let id = self.selected[a].id.clone();
        let ghost idv = id@;
        proof {
            assert(idv == self.selected.deep_view()[a as int].id);
            assert(!self.ledger@.contains(idv)) by {
                if self.ledger@.contains(idv) {
                    let k = choose|k: int|
                        0 <= k < self.recorded().len() && self.recorded()[k] == idv;
                    if k < self.before@.len() {
                        assert(self.before@.contains(idv));
                    } else {
                        let sel = self.selected.deep_view();
                        assert(ids_of(sel.take(a as int))[k - self.before@.len()] == idv);
                        assert(sel[k - self.before@.len()].id == idv);
                    }
                }
            }
        }
        self.ledger.add(id);
        self.announced = a + 1;
        proof {
            let sel = self.selected.deep_view();
            assert(ids_of(sel.take(a + 1)) =~= ids_of(sel.take(a as int)).push(idv));
            assert(self.ledger@ =~= self.recorded());
        }
    }

    /// Whether every selected item has been announced.
    pub fn is_complete(&self) -> (r: bool)
        ensures
            r == self.complete(),
    {
        self.announced == self.selected.len()
    }

    /// Whether this run is a dry run.
    pub fn dry_run(&self) -> (r: bool)
        ensures
            r == self.is_dry_run(),
    {
        self.dry_run
    }

    /// The ledger file text to persist, exactly when it may be persisted:
    /// after a complete live run it holds the loaded ids plus the full
    /// batch of announced ids; an incomplete or dry run gets nothing.
    pub fn persist_payload(&self) -> (r: Option<String>)
        requires
            self.wf(),
        ensures
            match r {
                Some(t) => self.payload() == Some(t@),
                None => self.payload() is None,
            },
    {
        if !self.dry_run && self.announced == self.selected.len() {
            proof {
                assert(self.selected.deep_view().take(self.announced as int) =~= self.selected.deep_view());
            }
            Some(self.ledger.save_text())
        } else {
            None
        }
    }
}

/// All-or-nothing persistence: while any selected item is still
/// unannounced — in particular when posting failed partway — the run
/// offers no ledger text to persist, so none of the batch's ids can reach
/// the saved ledger.
pub proof fn lemma_all_or_nothing(p: Pipeline)
    requires
        p.announced() < p.selected().len(),
    ensures
        p.payload() is None,
{
}

/// Dry-run non-mutation: a dry run never offers a ledger text to persist,
/// however far it advanced, so the ledger file on disk stays as it was.
pub proof fn lemma_dry_run_never_persists(p: Pipeline)
    requires
        p.is_dry_run(),
    ensures
        p.payload() is None,
{
}

/// A completed live run saves a ledger that reflects exactly the items
/// announced: its text loads back to the ids loaded at the start followed
/// by the ids of every selected item, and no id occurs twice.
pub proof fn lemma_saved_ledger_reflects_run(p: Pipeline)
    requires
        p.wf(),
        p.complete(),
        !p.is_dry_run(),
    ensures
        p.payload() matches Some(text) && codec::decode_ids(text) == Some(
            p.ledger_before() + ids_of(p.selected()),
        ),
        crate::ledger::distinct_ids(p.ledger_before() + ids_of(p.selected())),
{
    let sel = p.selected();
    let before = p.ledger_before();
    let rec = before + ids_of(sel);
    assert(sel.take(p.announced()) =~= sel);
    assert(p.recorded() == rec);
    assert(crate::ledger::distinct_ids(rec)) by {
        assert forall|i: int, j: int| 0 <= i < j < rec.len() implies rec[i] != rec[j] by {
            let b = before.len() as int;
            if j < b {
            } else if i >= b {
                assert(rec[i] == sel[i - b].id && rec[j] == sel[j - b].id);
            } else {
                assert(rec[j] == sel[j - b].id);
                if rec[i] == rec[j] {
                    assert(before[i] == sel[j - b].id);
                    assert(before.contains(sel[j - b].id));
                }
            }
        }
    }
    codec::lemma_decode_encode_round_trip(rec);
}

} // verus!
