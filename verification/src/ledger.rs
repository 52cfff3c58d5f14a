//! The announcement ledger: the persisted set of ids already announced.
use vstd::prelude::*;
use crate::codec;

verus! {

broadcast use vstd::seq_lib::group_seq_lib_default;

/// Why a ledger file's text was rejected.
#[derive(Clone, Copy, Debug, PartialEq, Eq, Structural)]
pub enum ParseError {
    /// The text is not a sequence of terminated records.
    Malformed,
    /// A well-formed text carried the same id twice.
    DuplicateId,
}

/// No id occurs twice.
pub open spec fn distinct_ids(ids: Seq<Seq<char>>) -> bool {
    forall|i: int, j: int| 0 <= i < j < ids.len() ==> ids[i] != ids[j]
}

/// The set of ids of items already announced in completed runs.  Entries
/// keep their insertion order, but only membership matters; the container
/// never holds an id twice.  Reading and writing the ledger file is the
/// caller's part: the caller hands the file's text in and takes the text
/// to write back out.
#[derive(Debug)]
pub struct Ledger {
    ids: Vec<String>,
}

impl View for Ledger {
    type V = Seq<Seq<char>>;

    closed spec fn view(&self) -> Seq<Seq<char>> {
        self.ids.deep_view()
    }
}

impl Ledger {
    /// Ids stay distinct, so adding is idempotent and saving writes each
    /// announced id once.
    #[verifier::type_invariant]
    spec fn inv(self) -> bool {
        distinct_ids(self.ids.deep_view())
    }

    /// The empty ledger: the first-run bootstrap state.
    pub fn new() -> (r: Ledger)
        ensures
            r@ == Seq::<Seq<char>>::empty(),
    {
        let r = Ledger { ids: Vec::new() };
        proof {
            assert(r.ids.deep_view() =~= Seq::<Seq<char>>::empty());
        }
        r
    }

    /// Membership test: has this id been announced before?
    pub fn contains(&self, id: &String) -> (r: bool)
        ensures
            r == self@.contains(id@),
    {
        let n = self.ids.len();
        let mut i: usize = 0;
        while i < n
            invariant
                i <= n,
                forall|j: int| 0 <= j < i ==> self@[j] != id@,
            decreases n - i,
        {
            if self.ids[i] == *id {
                proof {
                    assert(self@[i as int] == id@);
                }
                return true;
            }
            i += 1;
        }
        false
    }

    /// Records an id.  Adding an id already present changes nothing.
    pub fn add(&mut self, id: String)
        ensures
            old(self)@.contains(id@) ==> final(self)@ == old(self)@,
            !old(self)@.contains(id@) ==> final(self)@ == old(self)@.push(id@),
    {
        if self.contains(&id) {
            return ;
        }
        proof {
            use_type_invariant(&*self);
        }
        let ghost pre = self@;
        let ghost idv = id@;
        let mut ids: Vec<String> = Vec::new();
        core::mem::swap(&mut ids, &mut self.ids);
        ids.push(id);
        proof {
            assert(ids.deep_view() =~~= pre.push(idv));
            assert forall|k: int| 0 <= k < pre.len() implies pre[k] != idv by {
                if pre[k] == idv {
                    assert(pre.contains(idv));
                }
            }
            assert(distinct_ids(pre.push(idv)));
        }
        core::mem::swap(&mut ids, &mut self.ids);
    }

    /// How many ids the ledger holds.
    pub fn len(&self) -> (r: usize)
        ensures
            r == self@.len(),
    {
        self.ids.len()
    }

    /// The recorded ids, in insertion order.
    pub fn ids(&self) -> (r: &Vec<String>)
        ensures
            r.deep_view() == self@,
    {
        &self.ids
    }

    /// The text to write back to the ledger file: every recorded id, fully
    /// replacing the file's prior contents.
    pub fn save_text(&self) -> (r: String)
        ensures
            r@ == codec::encode_ids(self@),
    {
        codec::encode_records(&self.ids)
    }

    /// Loads a ledger from the file's text.  A missing file (`None`) is the
    /// normal first-run bootstrap and yields the empty ledger, not an
    /// error; text that is present but structurally invalid fails.
    pub fn load(content: Option<&str>) -> (r: Result<Ledger, ParseError>)
        ensures
            match r {
                Ok(l) => distinct_ids(l@) && match content {
                    None => l@ == Seq::<Seq<char>>::empty(),
                    Some(s) => codec::decode_ids(s@) == Some(l@),
                },
                Err(ParseError::Malformed) => content matches Some(s) && codec::decode_ids(s@)
                    is None,
                Err(ParseError::DuplicateId) => content matches Some(s) && (codec::decode_ids(s@)
                    matches Some(ids) && !distinct_ids(ids)),
            },
    {
        match content {
            None => Ok(Ledger::new()),
            Some(s) => {
                match codec::decode_records(s) {
                    None => Err(ParseError::Malformed),
                    Some(ids) => {
                        if all_distinct(&ids) {
                            Ok(Ledger { ids })
                        } else {
                            Err(ParseError::DuplicateId)
                        }
                    },
                }
            },
        }
    }
}

/// Whether no id in the list occurs twice.
fn all_distinct(ids: &Vec<String>) -> (r: bool)
    ensures
        r == distinct_ids(ids.deep_view()),
{
    let n = ids.len();
    let mut i: usize = 0;
    while i < n
        invariant
            i <= n,
            forall|p: int, q: int| 0 <= p < q < i ==> ids.deep_view()[p] != ids.deep_view()[q],
        decreases n - i,
    {
        let mut j: usize = 0;
        while j < i
            invariant
                j <= i < n,
                forall|p: int| 0 <= p < j ==> ids.deep_view()[p] != ids.deep_view()[i as int],
            decreases i - j,
        {
            if ids[j] == ids[i] {
                proof {
                    assert(ids.deep_view()[j as int] == ids.deep_view()[i as int]);
                }
                return false;
            }
            j += 1;
        }
        i += 1;
    }
    true
}

/// Establishes, for callers' proofs, that a ledger never holds an id
/// twice; the call compiles to nothing.
pub fn note_ids_distinct(l: &Ledger)
    ensures
        distinct_ids(l@),
{
    proof {
        use_type_invariant(l);
    }
}

/// Saving and loading round-trip the full identifier set: the text written
/// for a ledger always loads back to exactly the same ids.
pub proof fn lemma_save_text_loads_back(ids: Seq<Seq<char>>)
    requires
        distinct_ids(ids),
    ensures
        codec::decode_ids(codec::encode_ids(ids)) == Some(ids),
{
    codec::lemma_decode_encode_round_trip(ids);
}

} // verus!
