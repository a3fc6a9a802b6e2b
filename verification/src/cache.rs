//! Cross-run cache of patch-id verdicts.
//!
//! Squash and rebase detection is the expensive part of a scan, and its answer
//! is a pure function of three shas: the base tip, the fork point, and the
//! branch tip. Nothing else can change it, so a run that sees all three
//! unchanged can reuse the previous verdict outright.
//!
//! The cache is strictly an optimisation. Whatever cannot be read back —
//! nothing stored, or stored by different rules — degrades to "compute it
//! again", never to an error.

use vstd::hash_map::StringHashMap;
use vstd::hash_set::StringHashSet;
use vstd::prelude::*;

use crate::scan::MergeKind;

verus! {

/// Bumped whenever the detection logic changes: old verdicts computed by
/// different rules must not be trusted by a newer binary.
pub const VERSION: u32 = 1;

/// Identity of one cached verdict. All three shas participate: a stale hit
/// would mean force-deleting a branch whose newer commits were never checked.
#[derive(Debug, PartialEq, Eq, Hash)]
pub struct Key(String);

impl Clone for Key {
    fn clone(&self) -> (k: Key)
        ensures
            k@ == self@,
    {
        Key(self.0.clone())
    }
}

impl View for Key {
    type V = Seq<char>;

    closed spec fn view(&self) -> Seq<char> {
        self.0@
    }
}

/// How the three shas are written as one key.
pub open spec fn key_of(base: Seq<char>, fork: Seq<char>, branch: Seq<char>) -> Seq<char> {
    base + ":"@ + fork + ":"@ + branch
}

impl Key {
    pub fn new(base_sha: &str, fork_sha: &str, branch_sha: &str) -> (k: Self)
        ensures
            k@ == key_of(base_sha@, fork_sha@, branch_sha@),
    {
        Self(
            base_sha.to_owned().concat(":").concat(fork_sha).concat(":").concat(branch_sha),
        )
    }
}

/// A verdict that the patch-id prober can reach.
pub open spec fn producible(verdict: Option<MergeKind>) -> bool {
    match verdict {
        None => true,
        Some(kind) => kind == MergeKind::Squash || kind == MergeKind::Rebase,
    }
}

/// The verdicts and the keys this run has used.
pub struct CacheView {
    pub entries: Map<Seq<char>, Option<MergeKind>>,
    pub live: Set<Seq<char>>,
}

impl CacheView {
    /// Nothing known.
    pub open spec fn empty() -> CacheView {
        CacheView { entries: Map::empty(), live: Set::empty() }
    }

    /// The verdict for a key, if there is one.
    pub open spec fn lookup(self, key: Seq<char>) -> Option<Option<MergeKind>> {
        if self.entries.dom().contains(key) {
            Some(self.entries[key])
        } else {
            None
        }
    }

    /// The cache after a lookup, which marks what it found as still in use.
    pub open spec fn after_lookup(self, key: Seq<char>) -> CacheView {
        if self.entries.dom().contains(key) {
            CacheView { entries: self.entries, live: self.live.insert(key) }
        } else {
            self
        }
    }

    /// The cache with one more verdict.
    pub open spec fn with(self, key: Seq<char>, verdict: Option<MergeKind>) -> CacheView {
        CacheView { entries: self.entries.insert(key, verdict), live: self.live.insert(key) }
    }

    /// What is written back: the entries this run used.
    pub open spec fn saved(self) -> Map<Seq<char>, Option<MergeKind>> {
        self.entries.restrict(self.live)
    }

    /// What is read of a stored table. A verdict the prober cannot produce
    /// did not come from a scan, and a table of another version was computed
    /// by other rules.
    pub open spec fn loaded(
        version: u32,
        entries: Map<Seq<char>, Option<MergeKind>>,
    ) -> CacheView {
        if version == VERSION {
            CacheView {
                entries: entries.restrict(
                    Set::new(
                        |k: Seq<char>| entries.dom().contains(k) && producible(entries[k]),
                    ),
                ),
                live: Set::empty(),
            }
        } else {
            CacheView::empty()
        }
    }
}

/// A list of entries as a table; a later entry replaces an earlier one.
pub open spec fn table(pairs: Seq<(Seq<char>, Option<MergeKind>)>) -> Map<
    Seq<char>,
    Option<MergeKind>,
>
    decreases pairs.len(),
{
    if pairs.len() == 0 {
        Map::empty()
    } else {
        table(pairs.drop_last()).insert(pairs.last().0, pairs.last().1)
    }
}

/// What entries say, seen from outside.
pub open spec fn pairs_of(v: Seq<(String, Option<MergeKind>)>) -> Seq<
    (Seq<char>, Option<MergeKind>),
> {
    v.map_values(|p: (String, Option<MergeKind>)| (p.0@, p.1))
}

pub struct Cache {
    entries: StringHashMap<Option<MergeKind>>,
    /// Keys this run actually looked up or computed. Only these are written
    /// back, so the file stays the size of the current branch list instead of
    /// accumulating every tip the repository has ever had.
    live: Vec<String>,
}

impl View for Cache {
    type V = CacheView;

    closed spec fn view(&self) -> CacheView {
        CacheView { entries: self.entries@, live: self.live.deep_view().to_set() }
    }
}

impl Default for Cache {
    fn default() -> (c: Self)
        ensures
            c@ == CacheView::empty(),
    {
        let c = Cache { entries: StringHashMap::new(), live: Vec::new() };
        assert(c@.live =~= Set::empty());
        c
    }
}

impl Cache {
    /// The cache that a stored table of the given version holds.
    pub fn from_stored(version: u32, stored: &Vec<(String, Option<MergeKind>)>) -> (c: Self)
        ensures
            c@ == CacheView::loaded(version, table(pairs_of(stored@))),
    {
        if version != VERSION {
            return Self::default();
        }
        let mut entries: StringHashMap<Option<MergeKind>> = StringHashMap::new();
        let mut i: usize = 0;
        let ghost all = pairs_of(stored@);
        assert(all.take(0) =~= Seq::empty());
        while i < stored.len()
            invariant
                i <= stored@.len(),
                all == pairs_of(stored@),
                entries@ =~= CacheView::loaded(VERSION, table(all.take(i as int))).entries,
            decreases stored@.len() - i,
        {
            let ghost before = table(all.take(i as int));
            assert(all.take(i + 1).drop_last() =~= all.take(i as int));
            assert(all.take(i + 1).last() == (stored@[i as int].0@, stored@[i as int].1));
            let verdict = stored[i].1;
            let trusted = match verdict {
                None => true,
                Some(kind) => kind == MergeKind::Squash || kind == MergeKind::Rebase,
            };
            if trusted {
                entries.insert(stored[i].0.clone(), verdict);
            } else {
                entries.remove(stored[i].0.as_str());
            }
            i += 1;
        }
        assert(all.take(i as int) =~= all);
        let c = Cache { entries, live: Vec::new() };
        assert(c@.live =~= Set::empty());
        c
    }

    /// The cached verdict, if this exact triple was resolved before. The outer
    /// Option is "was it cached", the inner one is the verdict itself —
    /// "definitely not merged" is worth remembering too.
    /// Takes `&mut self` because a lookup also marks the entry as still in
    /// use — that is what keeps the file from growing without bound.
    pub fn get(&mut self, key: &Key) -> (r: Option<Option<MergeKind>>)
        ensures
            r == old(self)@.lookup(key@),
            final(self)@ == old(self)@.after_lookup(key@),
    {
        let ghost before = self@;
        match self.entries.get(key.0.as_str()) {
            Some(verdict) => {
                let verdict = *verdict;
                self.mark(key.0.clone());
                assert(self@ == before.after_lookup(key@));
                Some(verdict)
            },
            None => None,
        }
    }

    pub fn insert(&mut self, key: Key, verdict: Option<MergeKind>)
        ensures
            final(self)@ == old(self)@.with(key@, verdict),
    {
        self.mark(key.0.clone());
        self.entries.insert(key.0, verdict);
    }

    /// Notes that a key is in use.
    fn mark(&mut self, key: String)
        ensures
            final(self).entries == old(self).entries,
            final(self)@.entries == old(self)@.entries,
            final(self)@.live == old(self)@.live.insert(key@),
    {
        let ghost before = self.live.deep_view();
        let ghost k = key@;
        self.live.push(key);
        assert(self.live.deep_view() =~= before.push(k));
        assert(self.live.deep_view().to_set() =~= before.to_set().insert(k)) by {
            broadcast use vstd::seq_lib::group_seq_properties;

        }
    }

    /// The entries to write back: those this run used, each key once.
    pub fn stored(&self) -> (r: Vec<(String, Option<MergeKind>)>)
        ensures
            table(pairs_of(r@)) == self@.saved(),
            forall|i: int, j: int|
                0 <= i < j < r@.len() ==> (#[trigger] r@[i]).0@ != (#[trigger] r@[j]).0@,
    {
        let mut r: Vec<(String, Option<MergeKind>)> = Vec::new();
        let mut seen = StringHashSet::new();
        let mut i: usize = 0;
        let ghost all = self.live.deep_view();
        assert(pairs_of(r@) =~= Seq::empty());
        assert(table(pairs_of(r@)) =~= self@.entries.restrict(all.take(0).to_set()));
        while i < self.live.len()
            invariant
                i <= self.live@.len(),
                all == self.live.deep_view(),
                seen@ =~= all.take(i as int).to_set(),
                table(pairs_of(r@)) == self@.entries.restrict(seen@),
                forall|k: int| 0 <= k < r@.len() ==> seen@.contains((#[trigger] r@[k]).0@),
                forall|j: int, k: int|
                    0 <= j < k < r@.len() ==> (#[trigger] r@[j]).0@ != (#[trigger] r@[k]).0@,
            decreases self.live@.len() - i,
        {
            let key = &self.live[i];
            let ghost before = seen@;
            let ghost pairs = pairs_of(r@);
            assert(all.take(i + 1) =~= all.take(i as int).push(key@));
            assert(all.take(i + 1).to_set() =~= before.insert(key@)) by {
                broadcast use vstd::seq_lib::group_seq_properties;

            }
            if seen.insert(key.clone()) {
                match self.entries.get(key.as_str()) {
                    Some(verdict) => {
                        r.push((key.clone(), *verdict));
                        assert(pairs_of(r@) =~= pairs.push((key@, self@.entries[key@])));
                        assert(pairs_of(r@).drop_last() =~= pairs);
                        assert(table(pairs_of(r@)) =~= self@.entries.restrict(seen@));
                    },
                    None => {
                        assert(self@.entries.restrict(before) =~= self@.entries.restrict(seen@));
                    },
                }
            } else {
                assert(seen@ =~= before);
            }
            i += 1;
        }
        assert(all.take(i as int) =~= all);
        r
    }
}

// ---------------------------------------------------------------------------
// What the cache promises.

/// Two keys are the same only if all three shas are: whichever of them moved,
/// the old verdict is not found. (Shas hold no colon.)
pub proof fn law_key_names_the_triple(
    base1: Seq<char>,
    fork1: Seq<char>,
    branch1: Seq<char>,
    base2: Seq<char>,
    fork2: Seq<char>,
    branch2: Seq<char>,
)
    requires
        !base1.contains(':'),
        !base2.contains(':'),
        !fork1.contains(':'),
        !fork2.contains(':'),
    ensures
        key_of(base1, fork1, branch1) == key_of(base2, fork2, branch2) <==> base1 == base2
            && fork1 == fork2 && branch1 == branch2,
{
    reveal_strlit(":");
    let k1 = key_of(base1, fork1, branch1);
    let k2 = key_of(base2, fork2, branch2);
    if k1 == k2 {
        assert(k1 =~= base1 + ":"@ + (fork1 + ":"@ + branch1));
        assert(k2 =~= base2 + ":"@ + (fork2 + ":"@ + branch2));
        lemma_cut_at_colon(base1, fork1 + ":"@ + branch1, base2, fork2 + ":"@ + branch2);
        lemma_cut_at_colon(fork1, branch1, fork2, branch2);
    }
}

/// A first colon can only stand in one place.
proof fn lemma_cut_at_colon(a1: Seq<char>, b1: Seq<char>, a2: Seq<char>, b2: Seq<char>)
    requires
        !a1.contains(':'),
        !a2.contains(':'),
        a1 + ":"@ + b1 =~= a2 + ":"@ + b2,
    ensures
        a1 == a2,
        b1 == b2,
{
    reveal_strlit(":");
    let k1 = a1 + ":"@ + b1;
    let k2 = a2 + ":"@ + b2;
    assert(k1[a1.len() as int] == ':');
    assert(k2[a2.len() as int] == ':');
    if a1.len() < a2.len() {
        assert(k2[a1.len() as int] == a2[a1.len() as int]);
        assert(a2.contains(':'));
    }
    if a2.len() < a1.len() {
        assert(k1[a2.len() as int] == a1[a2.len() as int]);
        assert(a1.contains(':'));
    }
    assert(a1 =~= k1.take(a1.len() as int));
    assert(a2 =~= k2.take(a2.len() as int));
    assert(b1 =~= k1.skip(a1.len() as int + 1));
    assert(b2 =~= k2.skip(a2.len() as int + 1));
}

/// The next run finds a verdict again exactly if this run used it and the
/// prober can produce it; nothing else is carried forward.
pub proof fn law_next_run_finds_what_this_one_used(c: CacheView, key: Seq<char>)
    ensures
        CacheView::loaded(VERSION, c.saved()).lookup(key) == if c.live.contains(key)
            && c.entries.dom().contains(key) && producible(c.entries[key]) {
            c.lookup(key)
        } else {
            None
        },
        CacheView::loaded(VERSION, c.saved()).live == Set::<Seq<char>>::empty(),
{
}

/// A verdict is found under the key it was stored with, and storing it
/// changes no other lookup.
pub proof fn law_insert_answers_one_key(
    c: CacheView,
    key: Seq<char>,
    verdict: Option<MergeKind>,
    other: Seq<char>,
)
    ensures
        c.with(key, verdict).lookup(key) == Some(verdict),
        other != key ==> c.with(key, verdict).lookup(other) == c.lookup(other),
{
}

/// What is loaded was produced by the prober under the current rules, so a
/// stored table never authorises more than a probe would.
pub proof fn law_loaded_verdicts_are_producible(
    version: u32,
    stored: Map<Seq<char>, Option<MergeKind>>,
    key: Seq<char>,
)
    ensures
        CacheView::loaded(version, stored).lookup(key) matches Some(v) ==> producible(v)
            && version == VERSION && stored.dom().contains(key) && stored[key] == v,
{
}

/// A key is the three shas in order, base, fork point and tip, with colons
/// between them.
pub proof fn law_how_a_key_is_written(base: Seq<char>, fork: Seq<char>, branch: Seq<char>)
    ensures
        key_of(base, fork, branch) == base + ":"@ + fork + ":"@ + branch,
{
}

/// What is loaded of a stored table: under the version that is current, every
/// "not merged", "squash" and "rebase" and nothing else, with nothing in use
/// yet; under any other version, nothing at all.
pub proof fn law_what_is_loaded(
    version: u32,
    stored: Map<Seq<char>, Option<MergeKind>>,
    key: Seq<char>,
)
    ensures
        ({
            let c = CacheView::loaded(version, stored);
            &&& c.entries.dom().contains(key) <==> version == 1 && stored.dom().contains(key) && (
            stored[key] is None || stored[key] == Some(MergeKind::Squash) || stored[key] == Some(
                MergeKind::Rebase,
            ))
            &&& c.entries.dom().contains(key) ==> c.entries[key] == stored[key]
            &&& !c.live.contains(key)
        }),
{
}

/// Of two stored entries under one key the later one counts.
pub proof fn law_later_entries_count(pairs: Seq<(Seq<char>, Option<MergeKind>)>, k: int)
    requires
        0 <= k < pairs.len(),
        forall|j: int| k < j < pairs.len() ==> (#[trigger] pairs[j]).0 != pairs[k].0,
    ensures
        table(pairs).contains_pair(pairs[k].0, pairs[k].1),
    decreases pairs.len(),
{
    if k < pairs.len() - 1 {
        let rest = pairs.drop_last();
        assert(rest[k] == pairs[k]);
        assert(pairs[pairs.len() - 1].0 != pairs[k].0);
        assert forall|j: int| k < j < rest.len() implies (#[trigger] rest[j]).0 != rest[k].0 by {
            assert(rest[j] == pairs[j]);
        }
        law_later_entries_count(rest, k);
    }
}

/// A lookup answers what is stored and marks it as in use; it changes no
/// entry, and what is not there is not marked.
pub proof fn law_lookups_mark_what_they_find(c: CacheView, key: Seq<char>, other: Seq<char>)
    ensures
        c.lookup(key) is Some <==> c.entries.dom().contains(key),
        c.entries.dom().contains(key) ==> c.lookup(key) == Some(c.entries[key]),
        c.after_lookup(key).entries == c.entries,
        c.after_lookup(key).live.contains(other) <==> c.live.contains(other) || (other == key
            && c.entries.dom().contains(key)),
{
}

/// A new verdict is there, in use, and in nobody's way; what is written back
/// is what is in use.
pub proof fn law_what_is_written_back(
    c: CacheView,
    key: Seq<char>,
    verdict: Option<MergeKind>,
    other: Seq<char>,
)
    ensures
        c.with(key, verdict).entries.contains_pair(key, verdict),
        c.with(key, verdict).live.contains(key),
        other != key ==> (c.with(key, verdict).entries.dom().contains(other)
            <==> c.entries.dom().contains(other)) && c.with(key, verdict).entries[other]
            == c.entries[other] && (c.with(key, verdict).live.contains(other)
            <==> c.live.contains(other)),
        c.saved().dom().contains(other) <==> c.live.contains(other) && c.entries.dom().contains(
            other,
        ),
        c.saved().dom().contains(other) ==> c.saved()[other] == c.entries[other],
        !CacheView::empty().entries.dom().contains(other) && !CacheView::empty().live.contains(
            other,
        ),
{
}

} // verus!
