//! The table of level names that an extraction ends with.

use vstd::prelude::*;
use vstd::utf8::{decode_utf8, valid_utf8};
use crate::ascii::{bytes_equal, clone_bytes};

verus! {

/// Whether no identifier occurs twice among `pairs`.
pub open spec fn distinct_ids(pairs: Seq<(Seq<u8>, Seq<u8>)>) -> bool {
    forall|i: int, j: int|
        0 <= i < pairs.len() && 0 <= j < pairs.len() && i != j ==> (#[trigger] pairs[i]).0 != (
        #[trigger] pairs[j]).0
}

/// Whether some pair carries the identifier `id`.
pub open spec fn has_id(pairs: Seq<(Seq<u8>, Seq<u8>)>, id: Seq<u8>) -> bool {
    exists|i: int| 0 <= i < pairs.len() && (#[trigger] pairs[i]).0 == id
}

/// The index of a pair that carries the identifier `id`.
pub open spec fn index_of(pairs: Seq<(Seq<u8>, Seq<u8>)>, id: Seq<u8>) -> int {
    choose|i: int| 0 <= i < pairs.len() && (#[trigger] pairs[i]).0 == id
}

/// The mapping that a list of pairs with distinct identifiers writes down.
pub open spec fn map_of(pairs: Seq<(Seq<u8>, Seq<u8>)>) -> Map<Seq<u8>, Seq<u8>> {
    Map::new(|id: Seq<u8>| has_id(pairs, id), |id: Seq<u8>| pairs[index_of(pairs, id)].1)
}

/// Among pairs with distinct identifiers, the pair at `i` is the one that
/// its identifier is mapped by.
pub proof fn lemma_map_of_at(pairs: Seq<(Seq<u8>, Seq<u8>)>, i: int)
    requires
        distinct_ids(pairs),
        0 <= i < pairs.len(),
    ensures
        map_of(pairs).contains_key(pairs[i].0),
        map_of(pairs)[pairs[i].0] == pairs[i].1,
        index_of(pairs, pairs[i].0) == i,
{
    assert(has_id(pairs, pairs[i].0));
}

/// The text that `bytes` decode to as UTF-8 when every ill-formed sequence
/// is replaced by U+FFFD, the replacement character.
pub uninterp spec fn utf8_lossy(bytes: Seq<u8>) -> Seq<char>;

/// Decodes bytes as UTF-8 with `String::from_utf8_lossy` of the standard
/// library. The contract names the result: it is the text that the
/// standard library's lossy decoding gives for these bytes. It adds what
/// the documentation says of well-formed input: such bytes are decoded as
/// they are.
#[verifier::external_body]
fn decode_lossy(bytes: &[u8]) -> (r: String)
    ensures
        r@ == utf8_lossy(bytes@),
        valid_utf8(bytes@) ==> r@ == decode_utf8(bytes@),
{
    String::from_utf8_lossy(bytes).into_owned()
}

/// A mapping from level identifier to display name.
///
/// No identifier occurs twice. The pairs are kept in the order in which
/// their identifiers first came in.
#[derive(Clone, Debug)]
pub struct LevelNameTable {
    entries: Vec<(Vec<u8>, Vec<u8>)>,
}

impl View for LevelNameTable {
    type V = Map<Seq<u8>, Seq<u8>>;

    open spec fn view(&self) -> Map<Seq<u8>, Seq<u8>> {
        map_of(self.pairs())
    }
}

impl LevelNameTable {
    /// The pairs of the table, in order.
    pub closed spec fn pairs(&self) -> Seq<(Seq<u8>, Seq<u8>)> {
        Seq::new(self.entries@.len(), |i: int| (self.entries@[i].0@, self.entries@[i].1@))
    }

    /// The invariant of the table: no identifier occurs twice.
    pub open spec fn wf(&self) -> bool {
        distinct_ids(self.pairs())
    }

    /// An empty table.
    pub fn new() -> (r: Self)
        ensures
            r.wf(),
            r.pairs() == Seq::<(Seq<u8>, Seq<u8>)>::empty(),
            r@ == Map::<Seq<u8>, Seq<u8>>::empty(),
    {
        let r = LevelNameTable { entries: Vec::new() };
        assert(r.pairs() =~= Seq::<(Seq<u8>, Seq<u8>)>::empty());
        assert(r@ =~= Map::<Seq<u8>, Seq<u8>>::empty());
        r
    }

    /// The number of levels that the table names.
    pub fn len(&self) -> (r: usize)
        requires
            self.wf(),
        ensures
            r == self.pairs().len(),
            self@.dom().finite(),
            r == self@.dom().len(),
    {
        proof {
            lemma_map_of_len(self.pairs());
        }
        self.entries.len()
    }

    /// Whether the table names no level.
    pub fn is_empty(&self) -> (r: bool)
        requires
            self.wf(),
        ensures
            r == (self.pairs().len() == 0),
            r == (self@ == Map::<Seq<u8>, Seq<u8>>::empty()),
    {
        proof {
            if self.pairs().len() > 0 {
                lemma_map_of_at(self.pairs(), 0);
            } else {
                assert(self@ =~= Map::<Seq<u8>, Seq<u8>>::empty());
            }
        }
        self.entries.len() == 0
    }

    /// The identifier of the pair at `i`.
    pub fn id_at(&self, i: usize) -> (r: &Vec<u8>)
        requires
            self.wf(),
            i < self.pairs().len(),
        ensures
            r@ == self.pairs()[i as int].0,
    {
        &self.entries[i].0
    }

    /// The name of the pair at `i`.
    pub fn name_at(&self, i: usize) -> (r: &Vec<u8>)
        requires
            self.wf(),
            i < self.pairs().len(),
        ensures
            r@ == self.pairs()[i as int].1,
    {
        &self.entries[i].1
    }

    /// The index of the pair that carries `id`.
    fn find(&self, id: &[u8]) -> (r: Option<usize>)
        requires
            self.wf(),
        ensures
            match r {
                Some(i) => i < self.pairs().len() && self.pairs()[i as int].0 == id@,
                None => !has_id(self.pairs(), id@),
            },
    {
        let mut i: usize = 0;
        while i < self.entries.len()
            invariant
                i <= self.entries@.len(),
                self.wf(),
                forall|j: int| 0 <= j < i ==> (#[trigger] self.pairs()[j]).0 != id@,
            decreases self.entries@.len() - i,
        {
            if bytes_equal(self.entries[i].0.as_slice(), id) {
                return Some(i);
            }
            i += 1;
        }
        None
    }

    /// The name of the level `id`, if the table has one.
    pub fn get(&self, id: &[u8]) -> (r: Option<&Vec<u8>>)
        requires
            self.wf(),
        ensures
            match r {
                Some(name) => self@.contains_key(id@) && self@[id@] == name@,
                None => !self@.contains_key(id@),
            },
    {
        match self.find(id) {
            Some(i) => {
                proof {
                    lemma_map_of_at(self.pairs(), i as int);
                }
                Some(&self.entries[i].1)
            },
            None => None,
        }
    }

    /// Names the level `id`, in place of any name it had.
    pub fn insert(&mut self, id: Vec<u8>, name: Vec<u8>)
        requires
            old(self).wf(),
        ensures
            final(self).wf(),
            final(self)@ == old(self)@.insert(id@, name@),
    {
        let ghost before = self.pairs();
        match self.find(id.as_slice()) {
            Some(i) => {
                self.entries.set(i, (id, name));
                let ghost after = self.pairs();
                proof {
                    assert(after =~= before.update(i as int, (id@, name@)));
                    lemma_update_pair(before, i as int, name@);
                }
            },
            None => {
                self.entries.push((id, name));
                let ghost after = self.pairs();
                proof {
                    assert(after =~= before.push((id@, name@)));
                    lemma_push_pair(before, id@, name@);
                }
            },
        }
    }

    /// The pairs as text, in order: identifiers and names decoded as UTF-8,
    /// with U+FFFD in place of what is not UTF-8.
    pub fn to_strings(&self) -> (r: Vec<(String, String)>)
        requires
            self.wf(),
        ensures
            r@.len() == self.pairs().len(),
            forall|i: int|
                0 <= i < r@.len() ==> (#[trigger] r@[i]).0@ == utf8_lossy(self.pairs()[i].0)
                    && r@[i].1@ == utf8_lossy(self.pairs()[i].1),
            forall|i: int|
                0 <= i < r@.len() ==> (valid_utf8(self.pairs()[i].0) ==> (#[trigger] r@[i]).0@
                    == decode_utf8(self.pairs()[i].0)) && (valid_utf8(self.pairs()[i].1)
                    ==> r@[i].1@ == decode_utf8(self.pairs()[i].1)),
    {
        let mut out: Vec<(String, String)> = Vec::new();
        let mut i: usize = 0;
        while i < self.entries.len()
            invariant
                i <= self.entries@.len(),
                self.wf(),
                out@.len() == i,
                forall|j: int|
                    0 <= j < i ==> (#[trigger] out@[j]).0@ == utf8_lossy(self.pairs()[j].0)
                        && out@[j].1@ == utf8_lossy(self.pairs()[j].1),
                forall|j: int|
                    0 <= j < i ==> (valid_utf8(self.pairs()[j].0) ==> (#[trigger] out@[j]).0@
                        == decode_utf8(self.pairs()[j].0)) && (valid_utf8(self.pairs()[j].1)
                        ==> out@[j].1@ == decode_utf8(self.pairs()[j].1)),
            decreases self.entries@.len() - i,
        {
            let id = decode_lossy(self.entries[i].0.as_slice());
            let name = decode_lossy(self.entries[i].1.as_slice());
            out.push((id, name));
            i += 1;
        }
        out
    }

    /// A copy of the pairs, in order.
    pub fn to_pairs(&self) -> (r: Vec<(Vec<u8>, Vec<u8>)>)
        requires
            self.wf(),
        ensures
            r@.len() == self.pairs().len(),
            forall|i: int|
                0 <= i < r@.len() ==> (#[trigger] r@[i]).0@ == self.pairs()[i].0 && r@[i].1@
                    == self.pairs()[i].1,
    {
        let mut out: Vec<(Vec<u8>, Vec<u8>)> = Vec::new();
        let mut i: usize = 0;
        while i < self.entries.len()
            invariant
                i <= self.entries@.len(),
                self.wf(),
                out@.len() == i,
                forall|j: int|
                    0 <= j < i ==> (#[trigger] out@[j]).0@ == self.pairs()[j].0 && out@[j].1@
                        == self.pairs()[j].1,
            decreases self.entries@.len() - i,
        {
            out.push((clone_bytes(&self.entries[i].0), clone_bytes(&self.entries[i].1)));
            i += 1;
        }
        out
    }
}

/// Pairs with distinct identifiers write down a mapping of as many levels
/// as there are pairs.
pub proof fn lemma_map_of_len(pairs: Seq<(Seq<u8>, Seq<u8>)>)
    requires
        distinct_ids(pairs),
    ensures
        map_of(pairs).dom().finite(),
        map_of(pairs).dom().len() == pairs.len(),
    decreases pairs.len(),
{
    if pairs.len() == 0 {
        assert(map_of(pairs).dom() =~= Set::<Seq<u8>>::empty());
    } else {
        let init = pairs.drop_last();
        let p = pairs.last();
        assert(distinct_ids(init)) by {
            assert forall|a: int, b: int|
                0 <= a < init.len() && 0 <= b < init.len() && a != b implies (#[trigger] init[a]).0
                != (#[trigger] init[b]).0 by {
                assert(init[a] == pairs[a]);
                assert(init[b] == pairs[b]);
            }
        }
        assert(!has_id(init, p.0)) by {
            assert forall|j: int| 0 <= j < init.len() implies (#[trigger] init[j]).0 != p.0 by {
                assert(init[j] == pairs[j]);
                assert(pairs[pairs.len() - 1] == p);
            }
        }
        lemma_map_of_len(init);
        lemma_push_pair(init, p.0, p.1);
        assert(init.push((p.0, p.1)) =~= pairs);
        assert(map_of(pairs).dom() =~= map_of(init).dom().insert(p.0));
    }
}

/// Replacing the name of the pair at `i` maps its identifier to the new
/// name and leaves every other identifier as it was.
pub proof fn lemma_update_pair(pairs: Seq<(Seq<u8>, Seq<u8>)>, i: int, name: Seq<u8>)
    requires
        distinct_ids(pairs),
        0 <= i < pairs.len(),
    ensures
        distinct_ids(pairs.update(i, (pairs[i].0, name))),
        map_of(pairs.update(i, (pairs[i].0, name))) == map_of(pairs).insert(pairs[i].0, name),
{
    let id = pairs[i].0;
    let after = pairs.update(i, (id, name));
    assert(distinct_ids(after)) by {
        assert forall|a: int, b: int|
            0 <= a < after.len() && 0 <= b < after.len() && a != b implies (#[trigger] after[a]).0
            != (#[trigger] after[b]).0 by {
            assert(after[a].0 == pairs[a].0);
            assert(after[b].0 == pairs[b].0);
        }
    }
    assert forall|k: Seq<u8>| has_id(after, k) == (has_id(pairs, k) || k == id) by {
        if has_id(after, k) {
            let j = choose|j: int| 0 <= j < after.len() && (#[trigger] after[j]).0 == k;
            assert(pairs[j].0 == k);
        }
        if has_id(pairs, k) {
            let j = choose|j: int| 0 <= j < pairs.len() && (#[trigger] pairs[j]).0 == k;
            assert(after[j].0 == k);
        }
        if k == id {
            assert(after[i].0 == k);
        }
    }
    assert forall|k: Seq<u8>| has_id(after, k) implies #[trigger] map_of(after)[k] == map_of(
        pairs,
    ).insert(id, name)[k] by {
        let j = index_of(after, k);
        assert(after[j].0 == k);
        lemma_map_of_at(after, j);
        if k == id {
            lemma_map_of_at(after, i);
        } else {
            assert(pairs[j].0 == k);
            lemma_map_of_at(pairs, j);
        }
    }
    assert(map_of(after) =~= map_of(pairs).insert(id, name));
}

/// Appending a pair with a new identifier maps that identifier to its name
/// and leaves every other identifier as it was.
pub proof fn lemma_push_pair(pairs: Seq<(Seq<u8>, Seq<u8>)>, id: Seq<u8>, name: Seq<u8>)
    requires
        distinct_ids(pairs),
        !has_id(pairs, id),
    ensures
        distinct_ids(pairs.push((id, name))),
        map_of(pairs.push((id, name))) == map_of(pairs).insert(id, name),
{
    let after = pairs.push((id, name));
    let n = pairs.len() as int;
    assert(distinct_ids(after)) by {
        assert forall|a: int, b: int|
            0 <= a < after.len() && 0 <= b < after.len() && a != b implies (#[trigger] after[a]).0
            != (#[trigger] after[b]).0 by {
            if a < n {
                assert(after[a] == pairs[a]);
            }
            if b < n {
                assert(after[b] == pairs[b]);
            }
        }
    }
    assert forall|k: Seq<u8>| has_id(after, k) == (has_id(pairs, k) || k == id) by {
        if has_id(after, k) {
            let j = choose|j: int| 0 <= j < after.len() && (#[trigger] after[j]).0 == k;
            if j < n {
                assert(pairs[j].0 == k);
            }
        }
        if has_id(pairs, k) {
            let j = choose|j: int| 0 <= j < pairs.len() && (#[trigger] pairs[j]).0 == k;
            assert(after[j].0 == k);
        }
        if k == id {
            assert(after[n].0 == k);
        }
    }
    assert forall|k: Seq<u8>| has_id(after, k) implies #[trigger] map_of(after)[k] == map_of(
        pairs,
    ).insert(id, name)[k] by {
        let j = index_of(after, k);
        assert(after[j].0 == k);
        lemma_map_of_at(after, j);
        if k == id {
            lemma_map_of_at(after, n);
        } else {
            assert(j < n);
            assert(pairs[j].0 == k);
            lemma_map_of_at(pairs, j);
        }
    }
    assert(map_of(after) =~= map_of(pairs).insert(id, name));
}

} // verus!
