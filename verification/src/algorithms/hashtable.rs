//! The memo table: earlier search results, filed under the hash of the
//! position they belong to.
//!
//! The table is keyed by the hash alone. Two positions with the same hash
//! share an entry; that is accepted.

use vstd::prelude::*;
use std::collections::HashMap;
use vstd::std_specs::hash::spec_hash_map_iter;
use vstd::std_specs::iter::IteratorSpec;
use crate::rules::{valid_position, zobrist_of};
use crate::utils::{hash_key, key_hash, lemma_key_round_trip, parse_hash_key, zobrish};

verus! {

broadcast use vstd::std_specs::hash::group_hash_axioms;

/// A remembered search result.
#[derive(Debug, Clone)]
pub struct PositionInfo {
    /// The depth to which the position of the entry was searched.
    pub depth: u64,
    /// The score, for the side to move in the position of the entry.
    pub score: i64,
    /// A move in standard algebraic notation: the move selected in the
    /// position, where the search began there, else the move that led to it.
    pub mov: String,
}

/// A remembered search result as a value: the move as its text.
pub struct Entry {
    pub depth: u64,
    pub score: i64,
    pub mov: Seq<char>,
}

impl View for PositionInfo {
    type V = Entry;

    open spec fn view(&self) -> Entry {
        Entry { depth: self.depth, score: self.score, mov: self.mov@ }
    }
}

impl PositionInfo {
    pub fn new(depth: u64, score: i64, mov: String) -> (info: PositionInfo)
        ensures
            info.depth == depth,
            info.score == score,
            info.mov == mov,
    {
        PositionInfo { depth, score, mov }
    }

    /// A copy with the same depth, score and move text.
    pub fn duplicate(&self) -> (copy: PositionInfo)
        ensures
            copy@ == self@,
    {
        PositionInfo { depth: self.depth, score: self.score, mov: self.mov.clone() }
    }
}

/// The entry that answers a lookup at `depth` under `key`: the stored one, if
/// it reaches at least that depth.
pub open spec fn lookup(entries: Map<u64, Entry>, key: u64, depth: u64) -> Option<Entry> {
    if entries.contains_key(key) && entries[key].depth >= depth {
        Some(entries[key])
    } else {
        None
    }
}

/// An entry answers the lookups up to the depth it was searched to and none
/// deeper, however the rest of the table looks.
pub proof fn lemma_lookup_respects_depth(
    entries: Map<u64, Entry>,
    key: u64,
    entry: Entry,
    depth: u64,
)
    ensures
        depth <= entry.depth ==> lookup(entries.insert(key, entry), key, depth) == Some(entry),
        depth > entry.depth ==> lookup(entries.insert(key, entry), key, depth) is None,
{
}

/// What a lookup returns is the entry under the key, and it was searched at
/// least as deep as was asked for.
pub proof fn lemma_lookup_is_deep_enough(entries: Map<u64, Entry>, key: u64, depth: u64)
    ensures
        lookup(entries, key, depth) matches Some(entry) ==> entries.contains_key(key) && entry
            == entries[key] && entry.depth >= depth,
{
}

/// The table of the first entries of a list does not change when the list
/// grows.
proof fn lemma_imported_prefix(
    shorter: Seq<(Vec<u8>, PositionInfo)>,
    longer: Seq<(Vec<u8>, PositionInfo)>,
    n: nat,
)
    requires
        n <= shorter.len() <= longer.len(),
        forall|j: int| 0 <= j < shorter.len() ==> shorter[j] == longer[j],
    ensures
        imported(longer, n) == imported(shorter, n),
    decreases n,
{
    if n > 0 {
        lemma_imported_prefix(shorter, longer, (n - 1) as nat);
    }
}

/// The value of an optional entry.
pub open spec fn entry_of(info: Option<PositionInfo>) -> Option<Entry> {
    match info {
        Some(i) => Some(i@),
        None => None,
    }
}

/// The table that the first `n` stored entries make up, filed one after
/// the other. A stored entry is an entry with its hash written as a key; one
/// whose key spells no hash is left out.
pub open spec fn imported(list: Seq<(Vec<u8>, PositionInfo)>, n: nat) -> Map<u64, Entry>
    decreases n,
{
    if n == 0 || n > list.len() {
        Map::empty()
    } else {
        let before = imported(list, (n - 1) as nat);
        match key_hash(list[n - 1].0@) {
            Some(hash) => before.insert(hash, list[n - 1].1@),
            None => before,
        }
    }
}

#[derive(Debug)]
pub struct HashTable {
    pub table: HashMap<u64, PositionInfo>,
}

impl View for HashTable {
    type V = Map<u64, Entry>;

    open spec fn view(&self) -> Map<u64, Entry> {
        self.table@.map_values(|info: PositionInfo| info@)
    }
}

impl HashTable {
    pub fn new() -> (table: HashTable)
        ensures
            table@ == Map::<u64, Entry>::empty(),
    {
        let table = HashTable { table: HashMap::new() };
        assert(table@ =~= Map::<u64, Entry>::empty());
        table
    }

    /// Files `pos_info` under the hash of `fen_str`, replacing what was
    /// there, and returns what was there.
    pub fn insert(&mut self, fen_str: &str, pos_info: PositionInfo) -> (previous: Option<
        PositionInfo,
    >)
        requires
            valid_position(fen_str@),
        ensures
            final(self)@ == old(self)@.insert(zobrist_of(fen_str@), pos_info@),
            entry_of(previous) == if old(self)@.contains_key(zobrist_of(fen_str@)) {
                Some(old(self)@[zobrist_of(fen_str@)])
            } else {
                None
            },
    {
        let key = zobrish(fen_str);
        let ghost before = self.table@;
        let previous = self.table.insert(key, pos_info);
        assert(self@ =~= before.map_values(|info: PositionInfo| info@).insert(key, pos_info@));
        previous
    }

    /// Every entry of the table with its hash, in no particular order.
    pub fn entries(&self) -> (list: Vec<(u64, PositionInfo)>)
        ensures
            forall|i: int|
                0 <= i < list@.len() ==> {
                    &&& self@.contains_key(#[trigger] list@[i].0)
                    &&& self@[list@[i].0] == list@[i].1@
                },
            forall|key: u64|
                self@.contains_key(key) ==> exists|i: int|
                    0 <= i < list@.len() && (#[trigger] list@[i]).0 == key,
            forall|i: int, j: int|
                0 <= i < j < list@.len() ==> (#[trigger] list@[i]).0 != (#[trigger] list@[j]).0,
    {
        let mut list: Vec<(u64, PositionInfo)> = Vec::new();
        for pair in it: self.table.iter()
            invariant
                list@.len() == it.index(),
                forall|j: int|
                    0 <= j < list@.len() ==> {
                        &&& (#[trigger] list@[j]).0 == *it.seq()[j].0
                        &&& list@[j].1@ == (*it.seq()[j].1)@
                    },
        {
            list.push((*pair.0, pair.1.duplicate()));
        }
        proof {
            let walk = spec_hash_map_iter(&self.table).remaining();
            assert forall|key: u64| self@.contains_key(key) implies exists|i: int|
                0 <= i < list@.len() && (#[trigger] list@[i]).0 == key by {
                assert(self.table@.contains_key(key));
                assert(walk.contains((&key, &self.table@[key])));
                let j = choose|j: int| 0 <= j < walk.len() && walk[j] == (&key, &self.table@[key]);
                assert(list@[j].0 == key);
            }
            assert forall|i: int, j: int| 0 <= i < j < list@.len() implies (
            #[trigger] list@[i]).0 != (#[trigger] list@[j]).0 by {
                if list@[i].0 == list@[j].0 {
                    assert(self.table@.contains_key(*walk[i].0));
                    assert(self.table@[*walk[i].0] == *walk[i].1);
                    assert(self.table@[*walk[j].0] == *walk[j].1);
                    assert(walk[i] == walk[j]);
                }
            }
        }
        list
    }

    /// The table in the form in which it is stored: every entry with its
    /// hash written as a key, in no particular order. Read back with
    /// `import`, the list gives the same table.
    pub fn export(&self) -> (list: Vec<(Vec<u8>, PositionInfo)>)
        ensures
            imported(list@, list@.len()) == self@,
    {
        let pairs = self.entries();
        let mut list: Vec<(Vec<u8>, PositionInfo)> = Vec::new();
        let mut i: usize = 0;
        while i < pairs.len()
            invariant
                i <= pairs@.len(),
                list@.len() == i,
                forall|j: int|
                    0 <= j < pairs@.len() ==> {
                        &&& self@.contains_key(#[trigger] pairs@[j].0)
                        &&& self@[pairs@[j].0] == pairs@[j].1@
                    },
                forall|key: u64| #[trigger]
                    imported(list@, i as nat).contains_key(key) <==> exists|j: int|
                        0 <= j < i && (#[trigger] pairs@[j]).0 == key,
                forall|key: u64| #[trigger]
                    imported(list@, i as nat).contains_key(key) ==> imported(list@, i as nat)[key]
                        == self@[key],
            decreases pairs.len() - i,
        {
            let ghost before = list@;
            let key = hash_key(pairs[i].0);
            list.push((key, pairs[i].1.duplicate()));
            proof {
                lemma_key_round_trip(pairs@[i as int].0);
                lemma_imported_prefix(before, list@, i as nat);
                assert forall|key: u64| #[trigger]
                    imported(list@, (i + 1) as nat).contains_key(key) <==> exists|j: int|
                        0 <= j < i + 1 && (#[trigger] pairs@[j]).0 == key by {
                    if imported(list@, (i + 1) as nat).contains_key(key) {
                        if key == pairs@[i as int].0 {
                        } else {
                            let j = choose|j: int| 0 <= j < i && (#[trigger] pairs@[j]).0 == key;
                            assert(pairs@[j].0 == key);
                        }
                    }
                    if exists|j: int| 0 <= j < i + 1 && (#[trigger] pairs@[j]).0 == key {
                        let j = choose|j: int| 0 <= j < i + 1 && (#[trigger] pairs@[j]).0 == key;
                        if j < i {
                            assert(imported(before, i as nat).contains_key(key));
                        }
                    }
                }
            }
            i = i + 1;
        }
        proof {
            assert(imported(list@, list@.len()) =~= self@);
        }
        list
    }

    /// The table that a stored list gives: its entries filed in turn, each
    /// under the hash that its key spells.
    pub fn import(list: &Vec<(Vec<u8>, PositionInfo)>) -> (table: HashTable)
        ensures
            table@ == imported(list@, list@.len()),
    {
        let mut table = HashTable::new();
        let mut i: usize = 0;
        while i < list.len()
            invariant
                i <= list@.len(),
                table@ == imported(list@, i as nat),
            decreases list.len() - i,
        {
            match parse_hash_key(&list[i].0) {
                Some(hash) => {
                    let ghost before = table.table@;
                    table.table.insert(hash, list[i].1.duplicate());
                    assert(table@ =~= before.map_values(|info: PositionInfo| info@).insert(
                        hash,
                        list@[i as int].1@,
                    ));
                },
                None => {},
            }
            i = i + 1;
        }
        table
    }

    /// Looks up the hash of `fen_str`. An entry answers only if it was
    /// searched to `depth` or deeper. The table is left as it was.
    pub fn find(&mut self, fen_str: &str, depth: u64) -> (found: Option<PositionInfo>)
        requires
            valid_position(fen_str@),
        ensures
            final(self)@ == old(self)@,
            final(self).table == old(self).table,
            entry_of(found) == lookup(old(self)@, zobrist_of(fen_str@), depth),
    {
        self.peek(fen_str, depth)
    }

    /// The lookup of `find`, for a table that is only read.
    pub fn peek(&self, fen_str: &str, depth: u64) -> (found: Option<PositionInfo>)
        requires
            valid_position(fen_str@),
        ensures
            entry_of(found) == lookup(self@, zobrist_of(fen_str@), depth),
    {
        let key = zobrish(fen_str);
        match self.table.get(&key) {
            Some(pos_info) => {
                if pos_info.depth >= depth {
                    Some(pos_info.duplicate())
                } else {
                    None
                }
            },
            None => None,
        }
    }
}

} // verus!
