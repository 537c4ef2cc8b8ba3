use vstd::prelude::*;
use crate::text::{decimal, decimal_string, str_eq};
use crate::encoding::random_value;

verus! {

/// Entries that carry the time at which they were made.
pub trait Stamped {
    /// When the entry was made, in nanoseconds of a monotonic clock.
    spec fn stamp(&self) -> u64;

    fn created_at(&self) -> (r: u64)
        ensures
            r == self.stamp();
}

/// Stores a CSRF token for protected forms.
#[derive(Debug, PartialEq, Eq)]
pub struct CsrfTokenEntry {
    /// The CSRF token string.
    pub token: String,
    /// When the token was created or last handed out, in nanoseconds of a monotonic clock.
    pub created_at: u64,
}

impl Stamped for CsrfTokenEntry {
    open spec fn stamp(&self) -> u64 {
        self.created_at
    }

    fn created_at(&self) -> (r: u64) {
        self.created_at
    }
}

/// A value kept for a login in progress.
#[derive(Debug, PartialEq, Eq)]
pub struct PendingLogin<V> {
    pub value: V,
    /// When the login was started, in nanoseconds of a monotonic clock.
    pub created_at: u64,
}

impl<V> Stamped for PendingLogin<V> {
    open spec fn stamp(&self) -> u64 {
        self.created_at
    }

    fn created_at(&self) -> (r: u64) {
        self.created_at
    }
}

/// How long ago a stamp was made; a stamp from the future counts as made just now.
pub open spec fn age(now: u64, stamp: u64) -> nat {
    if now >= stamp { (now - stamp) as nat } else { 0 }
}

/// The keys of a list of entries, as text.
pub open spec fn entry_keys<E>(entries: Seq<(String, E)>) -> Seq<Seq<char>> {
    entries.map_values(|e: (String, E)| e.0@)
}

/// The entry that a list gives to `key`: the last one with that key.
pub open spec fn entry_lookup<E>(entries: Seq<(String, E)>, key: Seq<char>) -> Option<E>
    decreases entries.len(),
{
    if entries.len() == 0 {
        None
    } else if entries.last().0@ == key {
        Some(entries.last().1)
    } else {
        entry_lookup(entries.drop_last(), key)
    }
}

/// Whether an entry is kept by a clean-up at `now` with time-to-live `ttl`.
pub open spec fn fresh_at<E: Stamped>(now: u64, ttl: u64) -> spec_fn((String, E)) -> bool {
    |e: (String, E)| age(now, e.1.stamp()) < ttl
}

/// Whether an entry's key differs from `key`.
pub open spec fn other_key<E>(key: Seq<char>) -> spec_fn((String, E)) -> bool {
    |e: (String, E)| e.0@ != key
}

/// A table of entries keyed by text, each made at a known time; no key occurs twice.
pub struct TimedTable<E: Stamped> {
    entries: Vec<(String, E)>,
}

impl<E: Stamped> TimedTable<E> {
    #[verifier::type_invariant]
    spec fn keys_distinct(self) -> bool {
        entry_keys(self.entries@).no_duplicates()
    }

    /// The entry that the table holds under `key`.
    pub closed spec fn lookup(self, key: Seq<char>) -> Option<E> {
        entry_lookup(self.entries@, key)
    }

    /// The table as a map from keys to entries.
    pub closed spec fn view(self) -> Map<Seq<char>, E> {
        Map::new(|k: Seq<char>| self.lookup(k) is Some, |k: Seq<char>| self.lookup(k)->0)
    }

    /// An empty table.
    pub fn new() -> (t: Self)
        ensures
            t@ == Map::<Seq<char>, E>::empty(),
            forall|k: Seq<char>| t.lookup(k) is None,
    {
        let t = TimedTable { entries: Vec::new() };
        assert(t@ =~= Map::<Seq<char>, E>::empty());
        t
    }

    /// The number of entries.
    pub fn len(&self) -> (r: usize)
        ensures
            r == self@.len(),
            self@.dom().finite(),
    {
        proof {
            use_type_invariant(self);
            let keys = entry_keys(self.entries@);
            assert forall|k: Seq<char>| #[trigger] self@.contains_key(k) <==> keys.contains(k) by {
                if keys.contains(k) {
                    let i = choose|i: int| 0 <= i < keys.len() && keys[i] == k;
                    lemma_lookup_present(self.entries@, i);
                } else {
                    lemma_lookup_absent(self.entries@, k);
                }
            }
            assert(self@.dom() =~= keys.to_set());
            keys.unique_seq_to_set();
        }
        self.entries.len()
    }

    /// The entry under `key`.
    pub fn get(&self, key: &str) -> (r: Option<&E>)
        ensures
            match r {
                Some(e) => self.lookup(key@) == Some(*e) && self@.contains_key(key@) && self@[key@] == *e,
                None => self.lookup(key@) is None && !self@.contains_key(key@),
            },
    {
        let mut i = self.entries.len();
        assert(self.entries@.take(i as int) =~= self.entries@);
        while i > 0
            invariant
                i <= self.entries@.len(),
                self.lookup(key@) == entry_lookup(self.entries@.take(i as int), key@),
            decreases i,
        {
            assert(self.entries@.take(i as int).drop_last() =~= self.entries@.take(i - 1));
            assert(self.entries@.take(i as int).last() == self.entries@[i - 1]);
            if str_eq(self.entries[i - 1].0.as_str(), key) {
                return Some(&self.entries[i - 1].1);
            }
            i = i - 1;
        }
        None
    }

    /// Takes the entry under `key` out of the table.
    pub fn remove(&mut self, key: &str) -> (r: Option<E>)
        ensures
            r == old(self).lookup(key@),
            final(self).lookup(key@) is None,
            forall|k: Seq<char>| k != key@ ==> #[trigger] final(self).lookup(k) == old(self).lookup(k),
            final(self)@ == old(self)@.remove(key@),
            r == (if old(self)@.contains_key(key@) { Some(old(self)@[key@]) } else { None }),
    {
        proof { use_type_invariant(&*self); }
        let ghost before = self.entries@;
        let ghost pred = other_key::<E>(key@);
        let mut rest: Vec<(String, E)> = Vec::new();
        std::mem::swap(&mut rest, &mut self.entries);
        let mut kept: Vec<(String, E)> = Vec::new();
        let mut found: Option<E> = None;
        let ghost mut done: int = 0;
        while rest.len() > 0
            invariant
                0 <= done <= before.len(),
                rest@.len() + done == before.len(),
                pred == other_key::<E>(key@),
                rest@ == before.skip(done),
                kept@ == before.take(done).filter(pred),
                found == entry_lookup(before.take(done), key@),
            decreases rest.len(),
        {
            let ghost prev = rest@;
            let e = rest.remove(0);
            proof {
                assert(prev[0] == before[done]);
                assert(rest@ =~= before.skip(done + 1));
                assert(before.take(done + 1).drop_last() =~= before.take(done));
                assert(before.take(done + 1).last() == before[done]);
                reveal_with_fuel(Seq::filter, 1);
            }
            if str_eq(e.0.as_str(), key) {
                found = Some(e.1);
            } else {
                kept.push(e);
            }
            proof { done = done + 1; }
        }
        assert(before.take(done) =~= before);
        proof {
            lemma_lookup_without_key(before, key@);
            lemma_keys_filter_distinct(before, pred);
        }
        self.entries = kept;
        assert(self@ =~= old(self)@.remove(key@));
        found
    }

    /// Puts `entry` under `key`, in place of any entry that was there.
    pub fn insert(&mut self, key: String, entry: E)
        ensures
            final(self).lookup(key@) == Some(entry),
            forall|k: Seq<char>| k != key@ ==> #[trigger] final(self).lookup(k) == old(self).lookup(k),
            final(self)@ == old(self)@.insert(key@, entry),
    {
        let ghost e = entry;
        let ghost old_view = self@;
        let _ = self.remove(key.as_str());
        proof { use_type_invariant(&*self); }
        let ghost mid = *self;
        let ghost before = self.entries@;
        assert(!entry_keys(before).contains(key@)) by {
            if entry_keys(before).contains(key@) {
                let i = choose|i: int| 0 <= i < entry_keys(before).len() && entry_keys(before)[i] == key@;
                lemma_lookup_present(before, i);
            }
        };
        let mut entries: Vec<(String, E)> = Vec::new();
        std::mem::swap(&mut entries, &mut self.entries);
        let ghost k = key@;
        entries.push((key, entry));
        assert(entries@.drop_last() =~= before);
        assert(entry_keys(entries@) =~= entry_keys(before).push(k));
        assert forall|j: Seq<char>| j != k implies #[trigger] entry_lookup(entries@, j) == mid.lookup(j) by {
            assert(entry_lookup(entries@, j) == entry_lookup(before, j));
        }
        self.entries = entries;
        assert(self@ =~= old_view.insert(k, e));
    }

    /// Drops every entry that is `ttl` or more nanoseconds old at `now`.
    pub fn retain_fresh(&mut self, now: u64, ttl: u64)
        ensures
            forall|k: Seq<char>| #[trigger] final(self).lookup(k) == match old(self).lookup(k) {
                Some(e) => if age(now, e.stamp()) < ttl { Some(e) } else { None },
                None => None,
            },
            final(self)@ == old(self)@.restrict(fresh_keys(old(self)@, now, ttl)),
    {
        proof { use_type_invariant(&*self); }
        let ghost before = self.entries@;
        let ghost pred = fresh_at::<E>(now, ttl);
        let mut rest: Vec<(String, E)> = Vec::new();
        std::mem::swap(&mut rest, &mut self.entries);
        let mut kept: Vec<(String, E)> = Vec::new();
        let ghost mut done: int = 0;
        while rest.len() > 0
            invariant
                0 <= done <= before.len(),
                rest@.len() + done == before.len(),
                pred == fresh_at::<E>(now, ttl),
                rest@ == before.skip(done),
                kept@ == before.take(done).filter(pred),
            decreases rest.len(),
        {
            let ghost prev = rest@;
            let e = rest.remove(0);
            proof {
                assert(prev[0] == before[done]);
                assert(rest@ =~= before.skip(done + 1));
                assert(before.take(done + 1).drop_last() =~= before.take(done));
                assert(before.take(done + 1).last() == before[done]);
                reveal_with_fuel(Seq::filter, 1);
            }
            let stamp = e.1.created_at();
            let elapsed: u64 = if now >= stamp { now - stamp } else { 0 };
            if elapsed < ttl {
                kept.push(e);
            }
            proof { done = done + 1; }
        }
        assert(before.take(done) =~= before);
        proof {
            lemma_keys_filter_distinct(before, pred);
            assert forall|k: Seq<char>| #[trigger] entry_lookup(before.filter(pred), k) == match entry_lookup(before, k) {
                Some(e) => if age(now, e.stamp()) < ttl { Some(e) } else { None },
                None => None,
            } by {
                lemma_lookup_filter_fresh(before, now, ttl, k);
            }
        }
        self.entries = kept;
        assert(self@ =~= old(self)@.restrict(fresh_keys(old(self)@, now, ttl)));
    }
}

/// The keys of the entries of a map that are less than `ttl` old at `now`.
pub open spec fn fresh_keys<E: Stamped>(m: Map<Seq<char>, E>, now: u64, ttl: u64) -> Set<Seq<char>> {
    Set::new(|k: Seq<char>| m.contains_key(k) && age(now, m[k].stamp()) < ttl)
}

/// A table with no entry under `key` gives nothing for it.
proof fn lemma_lookup_absent<E>(entries: Seq<(String, E)>, key: Seq<char>)
    requires
        !entry_keys(entries).contains(key),
    ensures
        entry_lookup(entries, key) is None,
    decreases entries.len(),
{
    if entries.len() > 0 {
        assert(entry_keys(entries)[entries.len() - 1] == entries.last().0@);
        assert(entry_keys(entries.drop_last()) =~= entry_keys(entries).drop_last());
        lemma_lookup_absent(entries.drop_last(), key);
    }
}

/// With distinct keys, the entry at position `i` is what its key looks up.
proof fn lemma_lookup_present<E>(entries: Seq<(String, E)>, i: int)
    requires
        0 <= i < entries.len(),
        entry_keys(entries).no_duplicates(),
    ensures
        entry_lookup(entries, entries[i].0@) == Some(entries[i].1),
    decreases entries.len(),
{
    let n = entries.len();
    assert(entry_keys(entries)[i] == entries[i].0@);
    if i < n - 1 {
        assert(entry_keys(entries)[n - 1] == entries[n - 1].0@);
        assert(entry_keys(entries.drop_last()) =~= entry_keys(entries).drop_last());
        lemma_lookup_present(entries.drop_last(), i);
    }
}

/// Keeping only the entries whose key is not `key` leaves no entry for `key` and
/// nothing else changed; the entry for `key` is the last one with that key.
proof fn lemma_lookup_without_key<E>(entries: Seq<(String, E)>, key: Seq<char>)
    ensures
        entry_lookup(entries.filter(other_key::<E>(key)), key) is None,
        forall|k: Seq<char>| k != key ==> #[trigger] entry_lookup(entries.filter(other_key::<E>(key)), k) == entry_lookup(entries, k),
    decreases entries.len(),
{
    let pred = other_key::<E>(key);
    reveal_with_fuel(Seq::filter, 1);
    if entries.len() > 0 {
        lemma_lookup_without_key(entries.drop_last(), key);
        let sub = entries.drop_last().filter(pred);
        if pred(entries.last()) {
            assert(sub.push(entries.last()).drop_last() =~= sub);
            assert(entries.filter(pred) == sub.push(entries.last()));
        } else {
            assert(entries.filter(pred) == sub);
        }
        assert forall|k: Seq<char>| k != key implies #[trigger] entry_lookup(entries.filter(pred), k) == entry_lookup(entries, k) by {
            assert(entry_lookup(sub, k) == entry_lookup(entries.drop_last(), k));
            if pred(entries.last()) {
                let pushed = sub.push(entries.last());
                assert(pushed.last() == entries.last());
                assert(pushed.drop_last() =~= sub);
                if entries.last().0@ != k {
                    assert(entry_lookup(pushed, k) == entry_lookup(sub, k));
                }
            } else {
                assert(entries.last().0@ != k);
            }
        }
    }
}

/// Every entry that a filter keeps was in the list.
proof fn lemma_filter_within<E>(entries: Seq<(String, E)>, pred: spec_fn((String, E)) -> bool)
    ensures
        forall|i: int| 0 <= i < entries.filter(pred).len() ==> entries.contains(#[trigger] entries.filter(pred)[i]),
    decreases entries.len(),
{
    reveal_with_fuel(Seq::filter, 1);
    if entries.len() > 0 {
        lemma_filter_within(entries.drop_last(), pred);
        let sub = entries.drop_last().filter(pred);
        assert forall|i: int| 0 <= i < entries.filter(pred).len() implies entries.contains(#[trigger] entries.filter(pred)[i]) by {
            if pred(entries.last()) && i == sub.len() {
                assert(entries[entries.len() - 1] == entries.filter(pred)[i]);
            } else {
                assert(entries.filter(pred)[i] == sub[i]);
                assert(entries.drop_last().contains(sub[i]));
                let j = choose|j: int| 0 <= j < entries.drop_last().len() && entries.drop_last()[j] == sub[i];
                assert(entries[j] == sub[i]);
            }
        }
    }
}

/// Any filter keeps the keys distinct.
proof fn lemma_keys_filter_distinct<E>(entries: Seq<(String, E)>, pred: spec_fn((String, E)) -> bool)
    requires
        entry_keys(entries).no_duplicates(),
    ensures
        entry_keys(entries.filter(pred)).no_duplicates(),
    decreases entries.len(),
{
    reveal_with_fuel(Seq::filter, 1);
    if entries.len() > 0 {
        let n = entries.len();
        assert(entry_keys(entries.drop_last()) =~= entry_keys(entries).drop_last());
        lemma_keys_filter_distinct(entries.drop_last(), pred);
        let sub = entries.drop_last().filter(pred);
        if pred(entries.last()) {
            let pushed = sub.push(entries.last());
            assert(entry_keys(pushed) =~= entry_keys(sub).push(entries.last().0@));
            lemma_filter_within(entries.drop_last(), pred);
            assert forall|i: int| 0 <= i < sub.len() implies #[trigger] sub[i].0@ != entries.last().0@ by {
                assert(entries.drop_last().contains(sub[i]));
                let j = choose|j: int| 0 <= j < entries.drop_last().len() && entries.drop_last()[j] == sub[i];
                assert(entries[j] == sub[i]);
                assert(entry_keys(entries)[j] == entries[j].0@);
                assert(entry_keys(entries)[n - 1] == entries[n - 1].0@);
            }
            assert forall|i: int, j: int| 0 <= i < j < pushed.len() implies entry_keys(pushed)[i] != entry_keys(pushed)[j] by {
                if j == pushed.len() - 1 {
                    assert(entry_keys(pushed)[i] == sub[i].0@);
                } else {
                    assert(entry_keys(pushed)[i] == entry_keys(sub)[i]);
                    assert(entry_keys(pushed)[j] == entry_keys(sub)[j]);
                }
            }
        }
    }
}

/// With distinct keys, a clean-up keeps exactly the fresh entries.
proof fn lemma_lookup_filter_fresh<E: Stamped>(entries: Seq<(String, E)>, now: u64, ttl: u64, k: Seq<char>)
    requires
        entry_keys(entries).no_duplicates(),
    ensures
        entry_lookup(entries.filter(fresh_at::<E>(now, ttl)), k) == match entry_lookup(entries, k) {
            Some(e) => if age(now, e.stamp()) < ttl { Some(e) } else { None },
            None => None,
        },
    decreases entries.len(),
{
    let pred = fresh_at::<E>(now, ttl);
    reveal_with_fuel(Seq::filter, 1);
    if entries.len() > 0 {
        let n = entries.len();
        assert(entry_keys(entries.drop_last()) =~= entry_keys(entries).drop_last());
        lemma_lookup_filter_fresh(entries.drop_last(), now, ttl, k);
        let sub = entries.drop_last().filter(pred);
        if pred(entries.last()) {
            assert(sub.push(entries.last()).drop_last() =~= sub);
        }
        if entries.last().0@ == k {
            assert(!entry_keys(entries.drop_last()).contains(k)) by {
                if entry_keys(entries.drop_last()).contains(k) {
                    let i = choose|i: int| 0 <= i < entry_keys(entries.drop_last()).len() && entry_keys(entries.drop_last())[i] == k;
                    assert(entry_keys(entries)[i] == k);
                    assert(entry_keys(entries)[n - 1] == k);
                }
            }
            lemma_lookup_absent(entries.drop_last(), k);
        }
    }
}


/// How often expired login and CSRF entries are cleaned up, in seconds.
pub const CLEANUP_INTERVAL_SECS: u64 = 300;

/// How long a login or CSRF entry lives, in nanoseconds: fifteen minutes.
pub const ENTRY_TTL_NANOS: u64 = 900_000_000_000;

/// A fresh random identifier: a random 64-bit number in decimal.
pub fn new_random_id() -> (r: String)
    ensures
        exists|n: u64| r@ == decimal(n as nat),
{
    decimal_string(random_value::<u64>())
}

impl TimedTable<CsrfTokenEntry> {
    /// The CSRF token of a session: the one it has, or `fresh` where it has none; either
    /// way the entry is stamped `now`.
    pub fn session_token_with(&mut self, username: &str, now: u64, fresh: String) -> (r: String)
        ensures
            r@ == (if old(self)@.contains_key(username@) { old(self)@[username@].token@ } else { fresh@ }),
            final(self)@ == old(self)@.insert(username@, CsrfTokenEntry { token: r, created_at: now }),
    {
        let token = match self.remove(username) {
            Some(entry) => entry.token,
            None => fresh,
        };
        self.insert(String::from_str(username), CsrfTokenEntry { token: token.clone(), created_at: now });
        token
    }

    /// The CSRF token of a session, made at random where it has none; the entry is stamped `now`.
    pub fn session_token(&mut self, username: &str, now: u64) -> (r: String)
        ensures
            old(self)@.contains_key(username@) ==> r@ == old(self)@[username@].token@,
            !old(self)@.contains_key(username@) ==> exists|n: u64| r@ == decimal(n as nat),
            final(self)@ == old(self)@.insert(username@, CsrfTokenEntry { token: r, created_at: now }),
    {
        let fresh = if self.get(username).is_none() { new_random_id() } else { String::new() };
        self.session_token_with(username, now, fresh)
    }

    /// The token that a session's forms must carry.
    pub fn expected_token(&self, username: &str) -> (r: Option<String>)
        ensures
            r == (if self@.contains_key(username@) { Some(self@[username@].token) } else { None }),
    {
        match self.get(username) {
            Some(e) => Some(e.token.clone()),
            None => None,
        }
    }
}

/// Drops the login and CSRF entries that have lived `ENTRY_TTL_NANOS` at `now`.
pub fn clean_up_expired<V>(
    pending: &mut TimedTable<PendingLogin<V>>,
    csrf: &mut TimedTable<CsrfTokenEntry>,
    now: u64,
)
    ensures
        final(pending)@ == old(pending)@.restrict(fresh_keys(old(pending)@, now, ENTRY_TTL_NANOS)),
        final(csrf)@ == old(csrf)@.restrict(fresh_keys(old(csrf)@, now, ENTRY_TTL_NANOS)),
{
    pending.retain_fresh(now, ENTRY_TTL_NANOS);
    csrf.retain_fresh(now, ENTRY_TTL_NANOS);
}

} // verus!
