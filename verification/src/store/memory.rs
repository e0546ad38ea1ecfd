//! The in-memory store, which keeps its write-ahead log beside it.
use vstd::prelude::*;
use crate::store::KvStore;
use crate::error::KvError;
use crate::wal::Wal;
use crate::wal::frame::frame_bytes;
use crate::wal::writer::{WalLog, frame_fits};

verus! {

/// The map that a list of key-value pairs stands for; a later pair wins.
pub open spec fn pairs_to_map(s: Seq<(Seq<char>, Seq<char>)>) -> Map<Seq<char>, Seq<char>>
    decreases s.len(),
{
    if s.len() == 0 {
        Map::empty()
    } else {
        pairs_to_map(s.drop_last()).insert(s.last().0, s.last().1)
    }
}

/// No key occurs twice.
pub open spec fn keys_unique(s: Seq<(Seq<char>, Seq<char>)>) -> bool {
    forall|i: int, j: int| 0 <= i < j < s.len() ==> s[i].0 != s[j].0
}

pub open spec fn pairs_view(s: Seq<(String, String)>) -> Seq<(Seq<char>, Seq<char>)> {
    s.map_values(|p: (String, String)| (p.0@, p.1@))
}

/// A key is in the map exactly when some pair has it, and with unique keys
/// its value is that pair's.
proof fn lemma_pairs_lookup(s: Seq<(Seq<char>, Seq<char>)>, k: Seq<char>)
    ensures
        pairs_to_map(s).contains_key(k) <==> exists|i: int| 0 <= i < s.len() && #[trigger] s[i].0 == k,
        keys_unique(s) ==> forall|i: int|
            0 <= i < s.len() && #[trigger] s[i].0 == k ==> pairs_to_map(s)[k] == s[i].1,
    decreases s.len(),
{
    if s.len() > 0 {
        let t = s.drop_last();
        lemma_pairs_lookup(t, k);
        if k != s.last().0 {
            assert forall|i: int| 0 <= i < s.len() && #[trigger] s[i].0 == k implies 0 <= i < t.len()
                && t[i].0 == k by {}
            assert forall|i: int| 0 <= i < t.len() && #[trigger] t[i].0 == k implies s[i].0 == k by {}
        } else {
            assert(s[s.len() - 1].0 == k);
        }
    }
}

/// Replacing the value of a key's pair replaces the key's value in the map.
proof fn lemma_pairs_update(s: Seq<(Seq<char>, Seq<char>)>, i: int, v: Seq<char>)
    requires
        keys_unique(s),
        0 <= i < s.len(),
    ensures
        pairs_to_map(s.update(i, (s[i].0, v))) =~= pairs_to_map(s).insert(s[i].0, v),
        keys_unique(s.update(i, (s[i].0, v))),
    decreases s.len(),
{
    let u = s.update(i, (s[i].0, v));
    if i == s.len() - 1 {
        assert(u.drop_last() =~= s.drop_last());
    } else {
        assert(u.drop_last() =~= s.drop_last().update(i, (s[i].0, v)));
        lemma_pairs_update(s.drop_last(), i, v);
    }
}

/// Removing a key's pair removes the key from the map.
proof fn lemma_pairs_remove(s: Seq<(Seq<char>, Seq<char>)>, i: int)
    requires
        keys_unique(s),
        0 <= i < s.len(),
    ensures
        pairs_to_map(s.remove(i)) =~= pairs_to_map(s).remove(s[i].0),
        keys_unique(s.remove(i)),
    decreases s.len(),
{
    let r = s.remove(i);
    let t = s.drop_last();
    if i == s.len() - 1 {
        assert(r =~= t);
        lemma_pairs_lookup(t, s[i].0);
    } else {
        assert(r.drop_last() =~= t.remove(i));
        lemma_pairs_remove(t, i);
    }
}

/// The store's table: pairs of key and value, no key twice.
struct Table {
    pairs: Vec<(String, String)>,
}

impl Table {
    #[verifier::type_invariant]
    spec fn unique(self) -> bool {
        keys_unique(pairs_view(self.pairs@))
    }

    closed spec fn view(&self) -> Map<Seq<char>, Seq<char>> {
        pairs_to_map(pairs_view(self.pairs@))
    }

    fn new() -> (t: Table)
        ensures
            t.view() == Map::<Seq<char>, Seq<char>>::empty(),
    {
        let t = Table { pairs: Vec::new() };
        assert(pairs_view(t.pairs@) =~= Seq::empty());
        t
    }

    /// The index of the pair with key `key`, if there is one.
    fn find(&self, key: &String) -> (found: Option<usize>)
        ensures
            match found {
                Some(i) => i < self.pairs@.len() && self.pairs@[i as int].0@ == key@,
                None => forall|i: int| 0 <= i < self.pairs@.len() ==> #[trigger] self.pairs@[i].0@ != key@,
            },
    {
        let mut i: usize = 0;
        while i < self.pairs.len()
            invariant
                i <= self.pairs@.len(),
                forall|j: int| 0 <= j < i ==> #[trigger] self.pairs@[j].0@ != key@,
            decreases self.pairs@.len() - i,
        {
            if self.pairs[i].0 == *key {
                return Some(i);
            }
            i = i + 1;
        }
        None
    }

    fn get(&self, key: &str) -> (value: Option<String>)
        ensures
            match value {
                Some(v) => self.view().contains_key(key@) && v@ == self.view()[key@],
                None => !self.view().contains_key(key@),
            },
    {
        proof {
            use_type_invariant(self);
            lemma_pairs_lookup(pairs_view(self.pairs@), key@);
        }
        let k = key.to_owned();
        match self.find(&k) {
            Some(i) => {
                assert(pairs_view(self.pairs@)[i as int].0 == key@);
                Some(self.pairs[i].1.clone())
            },
            None => {
                assert forall|i: int| 0 <= i < pairs_view(self.pairs@).len() implies #[trigger] pairs_view(
                    self.pairs@,
                )[i].0 != key@ by {
                    assert(self.pairs@[i].0@ != key@);
                }
                None
            },
        }
    }

    fn put(&mut self, key: &str, value: &str)
        ensures
            final(self).view() == old(self).view().insert(key@, value@),
    {
        proof {
            use_type_invariant(&*self);
        }
        let k = key.to_owned();
        let v = value.to_owned();
        let found = self.find(&k);
        let mut pairs: Vec<(String, String)> = Vec::new();
        std::mem::swap(&mut pairs, &mut self.pairs);
        let ghost before = pairs_view(pairs@);
        match found {
            Some(i) => {
                pairs.set(i, (k, v));
                proof {
                    lemma_pairs_update(before, i as int, value@);
                    assert(pairs_view(pairs@) =~= before.update(i as int, (before[i as int].0, value@)));
                }
            },
            None => {
                pairs.push((k, v));
                assert(pairs_view(pairs@) =~= before.push((key@, value@)));
                assert(pairs_view(pairs@).drop_last() =~= before);
                assert forall|a: int, b: int| 0 <= a < b < pairs_view(pairs@).len() implies pairs_view(
                    pairs@,
                )[a].0 != pairs_view(pairs@)[b].0 by {
                    if b == before.len() {
                        assert(before[a].0 == old(self).pairs@[a].0@);
                    }
                }
            },
        }
        self.pairs = pairs;
    }

    fn remove(&mut self, key: &str)
        ensures
            final(self).view() == old(self).view().remove(key@),
    {
        proof {
            use_type_invariant(&*self);
        }
        let k = key.to_owned();
        match self.find(&k) {
            Some(i) => {
                let mut pairs: Vec<(String, String)> = Vec::new();
                std::mem::swap(&mut pairs, &mut self.pairs);
                let ghost before = pairs_view(pairs@);
                pairs.remove(i);
                proof {
                    lemma_pairs_remove(before, i as int);
                    assert(pairs_view(pairs@) =~= before.remove(i as int));
                }
                self.pairs = pairs;
            },
            None => {
                proof {
                    lemma_pairs_lookup(pairs_view(self.pairs@), key@);
                    assert forall|i: int| 0 <= i < pairs_view(self.pairs@).len() implies #[trigger] pairs_view(
                        self.pairs@,
                    )[i].0 != key@ by {
                        assert(self.pairs@[i].0@ != key@);
                    }
                    assert(self.view() =~= self.view().remove(key@));
                }
            },
        }
    }
}

/// The store: its data in memory and its write-ahead log.
pub struct ArcRwLockKvStore {
    data: Table,
    wal_log: WalLog,
}

impl ArcRwLockKvStore {
    /// The store's write-ahead log.
    pub closed spec fn log(&self) -> WalLog {
        self.wal_log
    }

    /// The store's write-ahead log.
    pub fn wal_log(&self) -> (log: &WalLog)
        ensures
            *log == self.log(),
    {
        &self.wal_log
    }

    /// Appends the serialized entry `payload`, whose logical offset is
    /// `offset`, to the store's log; the data in memory stays as it is.
    pub fn append_to_log(&mut self, offset: u64, payload: &[u8])
        requires
            payload@.len() <= u32::MAX,
            old(self).log().log_bytes().len() + 8 + payload@.len() <= usize::MAX,
        ensures
            final(self).log().log_bytes() == old(self).log().log_bytes() + frame_bytes(payload@),
            final(self).log().log_index() == old(self).log().log_index().insert(
                offset,
                old(self).log().log_bytes().len() as u64,
            ),
            final(self).contents() == old(self).contents(),
    {
        self.wal_log.append(offset, payload);
    }

    /// Puts the store's log in place of `wal_log`, keeping the data in memory.
    pub fn replace_log(&mut self, wal_log: WalLog)
        ensures
            final(self).log() == wal_log,
            final(self).contents() == old(self).contents(),
    {
        self.wal_log = wal_log;
    }

    /// Appends `payload`, the serialized entry under logical offset
    /// `offset`, to the log when its frame can be written; says whether it was.
    fn log_change(&mut self, offset: u64, payload: &[u8]) -> (logged: bool)
        ensures
            logged == frame_fits(old(self).log().log_bytes(), payload@),
            final(self).contents() == old(self).contents(),
            logged ==> final(self).log().log_bytes() == old(self).log().log_bytes() + frame_bytes(payload@),
            logged ==> final(self).log().log_index() == old(self).log().log_index().insert(
                offset,
                old(self).log().log_bytes().len() as u64,
            ),
            !logged ==> *final(self) == *old(self),
    {
        let logged = self.wal_log.len();
        let size = payload.len();
        if !(size <= u32::MAX as usize && size <= usize::MAX - 8 && logged <= usize::MAX - 8 - size) {
            return false;
        }
        self.wal_log.append(offset, payload);
        true
    }

    /// An empty store over the given log.
    pub fn new(wal_log: WalLog) -> (store: ArcRwLockKvStore)
        ensures
            store.contents() == Map::<Seq<char>, Seq<char>>::empty(),
            store.log() == wal_log,
    {
        ArcRwLockKvStore { data: Table::new(), wal_log }
    }

    /// The byte position in the log of the entry with logical offset `offset`.
    pub fn get_byte_pos(&self, offset: u64) -> (pos: Option<&u64>)
        ensures
            match pos {
                Some(p) => self.log().index().contains_key(offset) && *p
                    == self.log().index()[offset],
                None => !self.log().index().contains_key(offset),
            },
    {
        self.wal_log.get_byte_pos(offset)
    }
}

impl KvStore for ArcRwLockKvStore {
    closed spec fn contents(&self) -> Map<Seq<char>, Seq<char>> {
        self.data.view()
    }

    open spec fn log_bytes(&self) -> Seq<u8> {
        self.log().log_bytes()
    }

    open spec fn log_index(&self) -> Map<u64, u64> {
        self.log().log_index()
    }

    fn get(&self, key: &str) -> (value: Option<String>) {
        self.data.get(key)
    }

    fn put(&mut self, key: &str, value: &str, offset: u64, encoded: &[u8]) -> (result: Result<(), KvError>) {
        if !self.log_change(offset, encoded) {
            return Err(KvError::InvalidInput);
        }
        self.data.put(key, value);
        Ok(())
    }

    fn delete(&mut self, key: &str, offset: u64, encoded: &[u8]) -> (result: Result<(), KvError>) {
        if !self.log_change(offset, encoded) {
            return Err(KvError::InvalidInput);
        }
        self.data.remove(key);
        Ok(())
    }
}

} // verus!
