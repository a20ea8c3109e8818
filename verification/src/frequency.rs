//! The frequency map: how often each token was counted.
//!
//! A [`FrequencyMap`] is modelled by the multiset of the tokens that were
//! counted into it. The count of a token is its multiplicity there, the
//! entries are the tokens that occur at least once, and the sum of all
//! counts is the size of the multiset.

use vstd::hash_map::StringHashMap;
use vstd::multiset::Multiset;
use vstd::prelude::*;

verus! {

broadcast use vstd::multiset::group_multiset_axioms;

/// The views of a sequence of strings, one by one.
pub open spec fn views(strings: Seq<String>) -> Seq<Seq<char>> {
    strings.map_values(|s: String| s@)
}

/// The entries of a listing as plain values: each token with its count.
pub open spec fn entry_views(entries: Seq<(String, usize)>) -> Seq<(Seq<char>, nat)> {
    entries.map_values(|e: (String, usize)| (e.0@, e.1 as nat))
}

/// Whether `entries` lists `tokens`: no token has two entries, each entry
/// gives how often its token occurs, which is at least once, and every token
/// that occurs has an entry.
pub open spec fn lists(entries: Seq<(Seq<char>, nat)>, tokens: Multiset<Seq<char>>) -> bool {
    &&& forall|i: int, j: int|
        0 <= i < j < entries.len() ==> (#[trigger] entries[i]).0 != (#[trigger] entries[j]).0
    &&& forall|i: int|
        0 <= i < entries.len() ==> {
            &&& (#[trigger] entries[i]).1 >= 1
            &&& entries[i].1 == tokens.count(entries[i].0)
        }
    &&& forall|t: Seq<char>| #[trigger]
        tokens.count(t) > 0 ==> exists|i: int|
            0 <= i < entries.len() && (#[trigger] entries[i]).0 == t
}

/// The sum of the counts of a listing.
pub open spec fn counts_sum(entries: Seq<(Seq<char>, nat)>) -> nat
    decreases entries.len(),
{
    if entries.len() == 0 {
        0
    } else {
        counts_sum(entries.drop_last()) + entries.last().1
    }
}

/// A mapping from tokens to the number of times each was counted.
///
/// It starts empty and only grows: counting a token adds one to the count of
/// that token and leaves every other count as it was. Its view is the
/// multiset of the tokens counted so far.
pub struct FrequencyMap {
    /// The count of each token; no token is held with a count of zero.
    counts: StringHashMap<usize>,
    /// The tokens that have a count, each once.
    tokens: Vec<String>,
    /// The sum of all counts.
    total: usize,
}

impl View for FrequencyMap {
    type V = Multiset<Seq<char>>;

    closed spec fn view(&self) -> Multiset<Seq<char>> {
        Multiset::from_map(self.counts@.map_values(|n: usize| n as nat))
    }
}

impl FrequencyMap {
    /// The invariant that every operation establishes and keeps: the
    /// counts are all positive, `tokens` holds just the counted tokens
    /// without repetition, and `total` is the sum of the counts.
    pub closed spec fn wf(&self) -> bool {
        &&& self.counts@.dom().finite()
        &&& forall|t: Seq<char>| self.counts@.contains_key(t) ==> self.counts@[t] >= 1
        &&& views(self.tokens@).no_duplicates()
        &&& views(self.tokens@).to_set() == self.counts@.dom()
        &&& self.total == self@.len()
    }

    /// The multiplicity of a token in the view is its stored count, and zero
    /// for a token that is not stored.
    proof fn lemma_count(&self, t: Seq<char>)
        requires
            self.counts@.dom().finite(),
        ensures
            self@.count(t) == if self.counts@.contains_key(t) {
                self.counts@[t] as nat
            } else {
                0
            },
    {
        let m = self.counts@.map_values(|n: usize| n as nat);
        assert(m.dom() == self.counts@.dom());
    }

    /// The tokens that occur in the view are the stored ones.
    proof fn lemma_dom(&self)
        requires
            self.wf(),
        ensures
            self@.dom() == self.counts@.dom(),
            self@.dom() == views(self.tokens@).to_set(),
            self@.dom().len() == self.tokens@.len(),
    {
        assert forall|t: Seq<char>| self@.dom().contains(t) == self.counts@.dom().contains(t) by {
            self.lemma_count(t);
        }
        assert(self@.dom() =~= self.counts@.dom());
        views(self.tokens@).unique_seq_to_set();
    }

    /// An empty map: nothing has been counted.
    pub fn new() -> (freqs: Self)
        ensures
            freqs.wf(),
            freqs@ == Multiset::<Seq<char>>::empty(),
    {
        let freqs = FrequencyMap { counts: StringHashMap::new(), tokens: Vec::new(), total: 0 };
        proof {
            assert forall|t: Seq<char>| freqs@.count(t) == 0 by {
                freqs.lemma_count(t);
            }
            assert(freqs@ =~= Multiset::<Seq<char>>::empty());
            assert(views(freqs.tokens@).to_set() =~= freqs.counts@.dom());
        }
        freqs
    }

    /// Counts `token` once more.
    pub fn add(&mut self, token: String)
        requires
            old(self).wf(),
            old(self)@.len() < usize::MAX,
        ensures
            final(self).wf(),
            final(self)@ == old(self)@.insert(token@),
    {
        proof {
            self.lemma_count(token@);
        }
        let seen = match self.counts.get(token.as_str()) {
            Some(c) => *c,
            None => 0,
        };
        if seen == 0 {
            self.tokens.push(token.clone());
        }
        self.counts.insert(token, seen + 1);
        self.total = self.total + 1;
        proof {
            let t = token@;
            assert forall|u: Seq<char>| self@.count(u) == old(self)@.insert(t).count(u) by {
                self.lemma_count(u);
                old(self).lemma_count(u);
            }
            assert(self@ =~= old(self)@.insert(t));
            let before = views(old(self).tokens@);
            let after = views(self.tokens@);
            if seen == 0 {
                assert(after =~= before.push(t));
                assert(!before.contains(t)) by {
                    if before.contains(t) {
                        assert(before.to_set().contains(t));
                    }
                }
                assert(after.to_set() =~= before.to_set().insert(t)) by {
                    assert forall|u: Seq<char>| after.to_set().contains(u)
                        == before.to_set().insert(t).contains(u) by {
                        if before.contains(u) {
                            let i = choose|i: int| 0 <= i < before.len() && before[i] == u;
                            assert(after[i] == u);
                        }
                        if u == t {
                            assert(after[before.len() as int] == t);
                        }
                    }
                }
            } else {
                assert(after == before);
                assert(self.counts@.dom() =~= old(self).counts@.dom());
            }
        }
    }

    /// Counts each of `tokens` once more.
    pub fn add_all(&mut self, tokens: &Vec<String>)
        requires
            old(self).wf(),
            old(self)@.len() + tokens.len() <= usize::MAX,
        ensures
            final(self).wf(),
            final(self)@ == old(self)@.add(views(tokens@).to_multiset()),
    {
        let ghost before = self@;
        let ghost all = views(tokens@);
        proof {
            assert(all.take(0) =~= Seq::<Seq<char>>::empty());
            all.take(0).to_multiset_ensures();
            assert(self@ =~= before.add(all.take(0).to_multiset()));
        }
        let mut i: usize = 0;
        while i < tokens.len()
            invariant
                i <= tokens.len(),
                all == views(tokens@),
                self.wf(),
                self@ == before.add(all.take(i as int).to_multiset()),
                before.len() + tokens.len() <= usize::MAX,
            decreases tokens.len() - i,
        {
            proof {
                all.take(i as int).to_multiset_ensures();
                assert(all.take(i + 1) =~= all.take(i as int).push(tokens[i as int]@));
            }
            self.add(tokens[i].clone());
            proof {
                assert(self@ =~= before.add(all.take(i + 1).to_multiset()));
            }
            i = i + 1;
        }
        proof {
            assert(all.take(i as int) =~= all);
        }
    }

    /// How often `token` was counted: `None` if never, as it has no entry.
    pub fn get(&self, token: &str) -> (n: Option<usize>)
        requires
            self.wf(),
        ensures
            match n {
                Some(c) => c >= 1 && c == self@.count(token@),
                None => self@.count(token@) == 0,
            },
    {
        proof {
            self.lemma_count(token@);
        }
        match self.counts.get(token) {
            Some(c) => Some(*c),
            None => None,
        }
    }

    /// The number of entries: how many distinct tokens were counted.
    pub fn len(&self) -> (n: usize)
        requires
            self.wf(),
        ensures
            n == self@.dom().len(),
    {
        proof {
            self.lemma_dom();
        }
        self.tokens.len()
    }

    /// The entries: each counted token once, with its count. Their order is
    /// left open.
    pub fn entries(&self) -> (entries: Vec<(String, usize)>)
        requires
            self.wf(),
        ensures
            lists(entry_views(entries@), self@),
            entries.len() == self@.dom().len(),
            counts_sum(entry_views(entries@)) == self@.len(),
    {
        let mut entries: Vec<(String, usize)> = Vec::new();
        let mut i: usize = 0;
        while i < self.tokens.len()
            invariant
                self.wf(),
                i <= self.tokens.len(),
                entries.len() == i,
                forall|j: int|
                    0 <= j < i ==> (#[trigger] entries[j]).0@ == self.tokens[j]@ && entries[j].1
                        >= 1 && entries[j].1 == self@.count(self.tokens[j]@),
            decreases self.tokens.len() - i,
        {
            let token = self.tokens[i].clone();
            proof {
                self.lemma_count(token@);
                assert(views(self.tokens@)[i as int] == token@);
                assert(views(self.tokens@).to_set().contains(token@));
            }
            let n = match self.counts.get(token.as_str()) {
                Some(c) => *c,
                None => 0,
            };
            entries.push((token, n));
            i = i + 1;
        }
        proof {
            let listed = entry_views(entries@);
            let keys = views(self.tokens@);
            self.lemma_dom();
            assert forall|j: int| 0 <= j < listed.len() implies (#[trigger] listed[j]).0 == keys[j]
                && listed[j].1 >= 1 && listed[j].1 == self@.count(listed[j].0) by {
                assert(entries[j].0@ == self.tokens[j]@);
            }
            assert forall|t: Seq<char>| #[trigger] self@.count(t) > 0 implies exists|j: int|
                0 <= j < listed.len() && (#[trigger] listed[j]).0 == t by {
                assert(keys.to_set().contains(t));
                let j = choose|j: int| 0 <= j < keys.len() && keys[j] == t;
                assert(listed[j].0 == t);
            }
            assert(lists(listed, self@));
            lemma_listing_sums(listed, self@);
        }
        entries
    }

    /// The sum of all counts: how many tokens were counted.
    pub fn total(&self) -> (n: usize)
        requires
            self.wf(),
        ensures
            n == self@.len(),
    {
        self.total
    }
}

/// `n` copies of `token` and nothing else.
spec fn copies(token: Seq<char>, n: nat) -> Multiset<Seq<char>>
    decreases n,
{
    if n == 0 {
        Multiset::empty()
    } else {
        copies(token, (n - 1) as nat).insert(token)
    }
}

/// The size and the counts of [`copies`].
proof fn lemma_copies(token: Seq<char>, n: nat)
    ensures
        copies(token, n).len() == n,
        copies(token, n).count(token) == n,
        forall|t: Seq<char>| t != token ==> copies(token, n).count(t) == 0,
    decreases n,
{
    if n > 0 {
        lemma_copies(token, (n - 1) as nat);
    }
}

/// A listing of a multiset of tokens has as many entries as there are
/// distinct tokens, and its counts add up to the number of tokens.
pub proof fn lemma_listing_sums(entries: Seq<(Seq<char>, nat)>, tokens: Multiset<Seq<char>>)
    requires
        lists(entries, tokens),
    ensures
        counts_sum(entries) == tokens.len(),
        entries.len() == tokens.dom().len(),
    decreases entries.len(),
{
    if entries.len() == 0 {
        assert forall|t: Seq<char>| tokens.count(t) == 0 by {
            if tokens.count(t) > 0 {
                let i = choose|i: int| 0 <= i < entries.len() && (#[trigger] entries[i]).0 == t;
            }
        }
        assert(tokens =~= Multiset::empty());
        assert(tokens.dom() =~= Set::<Seq<char>>::empty());
    } else {
        let last = entries.last();
        let rest = entries.drop_last();
        let taken = copies(last.0, last.1);
        lemma_copies(last.0, last.1);
        let others = tokens.sub(taken);
        assert(taken.subset_of(tokens));
        assert forall|i: int| 0 <= i < rest.len() implies (#[trigger] rest[i]).1 >= 1 && rest[i].1
            == others.count(rest[i].0) by {
            assert(rest[i] == entries[i]);
            assert(entries[i].0 != entries[entries.len() - 1].0);
        }
        assert forall|t: Seq<char>| #[trigger] others.count(t) > 0 implies exists|i: int|
            0 <= i < rest.len() && (#[trigger] rest[i]).0 == t by {
            assert(tokens.count(t) > 0);
            let i = choose|i: int| 0 <= i < entries.len() && (#[trigger] entries[i]).0 == t;
            assert(rest[i] == entries[i]);
        }
        assert forall|i: int, j: int| 0 <= i < j < rest.len() implies (#[trigger] rest[i]).0 != (
        #[trigger] rest[j]).0 by {
            assert(rest[i] == entries[i]);
            assert(rest[j] == entries[j]);
        }
        lemma_listing_sums(rest, others);
        assert(tokens.dom() =~= others.dom().insert(last.0));
        assert(!others.dom().contains(last.0));
    }
}

} // verus!
