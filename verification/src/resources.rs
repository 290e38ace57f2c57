//! The shared resource table: integer-keyed values with change tracking,
//! plus append-only event logs that event-driven stages consume through
//! per-stage cursors.
//!
//! A write through the table marks the entry changed; the schedule clears
//! the marks at the end of each tick, which is what change-gated units
//! observe.

use vstd::prelude::*;

verus! {

/// Spec-level mirror of a [`ResVal`].
pub enum ResValData {
    /// A plain value.
    Int(i64),
    /// An append-only event log.
    Events(Seq<i64>),
}

/// A resource value: a plain integer or an event log.
pub enum ResVal {
    /// A plain value.
    Int(i64),
    /// An append-only event log.
    Events(Vec<i64>),
}

impl View for ResVal {
    type V = ResValData;

    open spec fn view(&self) -> ResValData {
        match self {
            ResVal::Int(v) => ResValData::Int(*v),
            ResVal::Events(log) => ResValData::Events(log@),
        }
    }
}

/// Spec-level mirror of one table entry.
#[verifier::ext_equal]
pub struct ResEntryData {
    pub key: u64,
    pub val: ResValData,
    pub changed: bool,
    pub local: bool,
}

/// One entry of the resource table.
pub struct ResEntry {
    /// The resource key.
    pub key: u64,
    /// The stored value.
    pub val: ResVal,
    /// Whether the entry was written since the last tracker clear.
    pub changed: bool,
    /// Whether the resource is pinned to the invoking thread.
    pub local: bool,
}

impl View for ResEntry {
    type V = ResEntryData;

    open spec fn view(&self) -> ResEntryData {
        ResEntryData { key: self.key, val: self.val@, changed: self.changed, local: self.local }
    }
}

/// Spec-level mirror of a [`Resources`] table.
#[verifier::ext_equal]
pub struct ResourcesData {
    pub entries: Seq<ResEntryData>,
}

/// The first entry position at or after `i` carrying `key`.
pub open spec fn find_key(entries: Seq<ResEntryData>, key: u64, i: int) -> Option<int>
    decreases entries.len() - i,
{
    if i < 0 || i >= entries.len() {
        None
    } else if entries[i].key == key {
        Some(i)
    } else {
        find_key(entries, key, i + 1)
    }
}

/// A found position is in range and carries the key looked for.
pub proof fn lemma_find_key_found(entries: Seq<ResEntryData>, key: u64, i: int)
    requires
        find_key(entries, key, i) is Some,
    ensures
        i <= find_key(entries, key, i)->Some_0 < entries.len(),
        entries[find_key(entries, key, i)->Some_0].key == key,
    decreases entries.len() - i,
{
    if !(i < 0 || i >= entries.len()) && entries[i].key != key {
        lemma_find_key_found(entries, key, i + 1);
    }
}

impl ResourcesData {
    /// The entry stored under `key`, if any.
    pub open spec fn lookup(self, key: u64) -> Option<ResEntryData> {
        match find_key(self.entries, key, 0) {
            Some(i) => Some(self.entries[i]),
            None => None,
        }
    }

    /// Whether any entry is stored under `key`.
    pub open spec fn contains(self, key: u64) -> bool {
        self.lookup(key) is Some
    }

    /// The plain value under `key`, if the entry holds one.
    pub open spec fn int_of(self, key: u64) -> Option<i64> {
        match self.lookup(key) {
            Some(e) => match e.val {
                ResValData::Int(v) => Some(v),
                ResValData::Events(_) => None,
            },
            None => None,
        }
    }

    /// Whether the entry under `key` was written since the last clear.
    pub open spec fn changed(self, key: u64) -> bool {
        match self.lookup(key) {
            Some(e) => e.changed,
            None => false,
        }
    }

    /// The event log under `key`, empty if absent or not a log.
    pub open spec fn events_of(self, key: u64) -> Seq<i64> {
        match self.lookup(key) {
            Some(e) => match e.val {
                ResValData::Events(log) => log,
                ResValData::Int(_) => Seq::empty(),
            },
            None => Seq::empty(),
        }
    }

    /// The table after storing the plain value `v` under `key`: the
    /// entry is created or overwritten and marked changed.
    pub open spec fn insert_int(self, key: u64, v: i64, local: bool) -> ResourcesData {
        match find_key(self.entries, key, 0) {
            Some(i) => ResourcesData {
                entries: self.entries.update(
                    i,
                    ResEntryData {
                        key,
                        val: ResValData::Int(v),
                        changed: true,
                        local: self.entries[i].local,
                    },
                ),
            },
            None => ResourcesData {
                entries: self.entries.push(
                    ResEntryData { key, val: ResValData::Int(v), changed: true, local },
                ),
            },
        }
    }

    /// The table after removing the entry under `key`, if present.
    pub open spec fn remove(self, key: u64) -> ResourcesData {
        match find_key(self.entries, key, 0) {
            Some(i) => ResourcesData { entries: self.entries.remove(i) },
            None => self,
        }
    }

    /// The table after making sure a plain entry exists under `key`:
    /// absent entries are created holding zero and marked changed.
    pub open spec fn ensure_int(self, key: u64) -> ResourcesData {
        if self.contains(key) {
            self
        } else {
            ResourcesData {
                entries: self.entries.push(
                    ResEntryData { key, val: ResValData::Int(0), changed: true, local: false },
                ),
            }
        }
    }

    /// The table after making sure an event log exists under `key`.
    pub open spec fn ensure_events(self, key: u64) -> ResourcesData {
        if self.contains(key) {
            self
        } else {
            ResourcesData {
                entries: self.entries.push(
                    ResEntryData {
                        key,
                        val: ResValData::Events(Seq::empty()),
                        changed: true,
                        local: false,
                    },
                ),
            }
        }
    }

    /// The table after appending `v` to the event log under `key`: a
    /// missing log is created; a plain entry is left alone.
    pub open spec fn append_event(self, key: u64, v: i64) -> ResourcesData {
        match find_key(self.entries, key, 0) {
            Some(i) => match self.entries[i].val {
                ResValData::Events(log) => ResourcesData {
                    entries: self.entries.update(
                        i,
                        ResEntryData {
                            key,
                            val: ResValData::Events(log.push(v)),
                            changed: true,
                            local: self.entries[i].local,
                        },
                    ),
                },
                ResValData::Int(_) => self,
            },
            None => ResourcesData {
                entries: self.entries.push(
                    ResEntryData {
                        key,
                        val: ResValData::Events(seq![v]),
                        changed: true,
                        local: false,
                    },
                ),
            },
        }
    }

    /// The table with every change mark cleared.
    pub open spec fn clear_trackers(self) -> ResourcesData {
        ResourcesData {
            entries: self.entries.map_values(
                |e: ResEntryData| ResEntryData {
                    key: e.key,
                    val: e.val,
                    changed: false,
                    local: e.local,
                },
            ),
        }
    }
}

/// The shared resource table.
pub struct Resources {
    entries: Vec<ResEntry>,
}

impl View for Resources {
    type V = ResourcesData;

    closed spec fn view(&self) -> ResourcesData {
        ResourcesData { entries: self.entries@.map_values(|e: ResEntry| e@) }
    }
}

impl Resources {
    /// An empty table.
    pub fn new() -> (r: Resources)
        ensures
            r@.entries == Seq::<ResEntryData>::empty(),
    {
        let r = Resources { entries: Vec::new() };
        proof {
            assert(r@.entries =~= Seq::<ResEntryData>::empty());
        }
        r
    }

    /// Finds the position of the entry under `key`, if any.
    fn find_entry(&self, key: u64) -> (r: Option<usize>)
        ensures
            match r {
                Some(i) => find_key(self@.entries, key, 0) == Some(i as int),
                None => find_key(self@.entries, key, 0) is None,
            },
    {
        let mut i: usize = 0;
        while i < self.entries.len()
            invariant
                0 <= i <= self.entries.len(),
                find_key(self@.entries, key, 0) == find_key(self@.entries, key, i as int),
            decreases self.entries.len() - i,
        {
            if self.entries[i].key == key {
                return Some(i);
            }
            i += 1;
        }
        None
    }

    /// Whether any entry is stored under `key`.
    pub fn contains(&self, key: u64) -> (r: bool)
        ensures
            r == self@.contains(key),
    {
        match self.find_entry(key) {
            Some(_) => true,
            None => false,
        }
    }

    /// The plain value under `key`, if the entry holds one.
    pub fn get_int(&self, key: u64) -> (r: Option<i64>)
        ensures
            r == self@.int_of(key),
    {
        match self.find_entry(key) {
            Some(i) => {
                proof {
                    lemma_find_key_found(self@.entries, key, 0);
                }
                match &self.entries[i].val {
                    ResVal::Int(v) => Some(*v),
                    ResVal::Events(_) => None,
                }
            },
            None => None,
        }
    }

    /// Whether the entry under `key` was written since the last clear.
    pub fn is_changed(&self, key: u64) -> (r: bool)
        ensures
            r == self@.changed(key),
    {
        match self.find_entry(key) {
            Some(i) => {
                proof {
                    lemma_find_key_found(self@.entries, key, 0);
                }
                self.entries[i].changed
            },
            None => false,
        }
    }

    /// Stores the plain value `v` under `key`, creating or overwriting
    /// the entry and marking it changed.
    pub fn insert_int(&mut self, key: u64, v: i64)
        ensures
            final(self)@ == old(self)@.insert_int(key, v, false),
    {
        self.insert_int_with(key, v, false)
    }

    /// Stores `v` under `key` as a thread-pinned entry.
    pub fn insert_local_int(&mut self, key: u64, v: i64)
        ensures
            final(self)@ == old(self)@.insert_int(key, v, true),
    {
        self.insert_int_with(key, v, true)
    }

    fn insert_int_with(&mut self, key: u64, v: i64, local: bool)
        ensures
            final(self)@ == old(self)@.insert_int(key, v, local),
    {
        match self.find_entry(key) {
            Some(i) => {
                proof {
                    lemma_find_key_found(old(self)@.entries, key, 0);
                }
                self.entries[i].val = ResVal::Int(v);
                self.entries[i].changed = true;
                proof {
                    assert(self@.entries =~= old(self)@.insert_int(key, v, local).entries);
                }
            },
            None => {
                self.entries.push(ResEntry { key, val: ResVal::Int(v), changed: true, local });
                proof {
                    assert(self@.entries =~= old(self)@.insert_int(key, v, local).entries);
                }
            },
        }
    }

    /// Removes the entry under `key`, if present.
    pub fn remove(&mut self, key: u64)
        ensures
            final(self)@ == old(self)@.remove(key),
    {
        match self.find_entry(key) {
            Some(i) => {
                proof {
                    lemma_find_key_found(old(self)@.entries, key, 0);
                }
                let _dropped = self.entries.remove(i);
                proof {
                    assert(self@.entries =~= old(self)@.remove(key).entries);
                }
            },
            None => {
                proof {
                    assert(self@.entries =~= old(self)@.remove(key).entries);
                }
            },
        }
    }

    /// Makes sure a plain entry exists under `key`: an absent entry is
    /// created holding zero and marked changed.
    pub fn ensure_int(&mut self, key: u64)
        ensures
            final(self)@ == old(self)@.ensure_int(key),
    {
        match self.find_entry(key) {
            Some(_) => {},
            None => {
                self.entries.push(
                    ResEntry { key, val: ResVal::Int(0), changed: true, local: false },
                );
                proof {
                    assert(self@.entries =~= old(self)@.ensure_int(key).entries);
                }
            },
        }
    }

    /// Makes sure an event log exists under `key`.
    pub fn ensure_events(&mut self, key: u64)
        ensures
            final(self)@ == old(self)@.ensure_events(key),
    {
        match self.find_entry(key) {
            Some(_) => {},
            None => {
                self.entries.push(
                    ResEntry { key, val: ResVal::Events(Vec::new()), changed: true, local: false },
                );
                proof {
                    assert(self@.entries =~= old(self)@.ensure_events(key).entries);
                }
            },
        }
    }

    /// Appends `v` to the event log under `key`, creating the log if the
    /// key is absent; a plain entry is left alone.
    pub fn append_event(&mut self, key: u64, v: i64)
        ensures
            final(self)@ == old(self)@.append_event(key, v),
    {
        match self.find_entry(key) {
            Some(i) => {
                proof {
                    lemma_find_key_found(old(self)@.entries, key, 0);
                }
                let is_log = match &self.entries[i].val {
                    ResVal::Events(_) => true,
                    ResVal::Int(_) => false,
                };
                if is_log {
                    match &mut self.entries[i].val {
                        ResVal::Events(log) => {
                            log.push(v);
                        },
                        ResVal::Int(_) => {},
                    }
                    self.entries[i].changed = true;
                    proof {
                        assert(self@.entries =~= old(self)@.append_event(key, v).entries);
                    }
                } else {
                    proof {
                        assert(self@.entries =~= old(self)@.append_event(key, v).entries);
                    }
                }
            },
            None => {
                let mut log: Vec<i64> = Vec::new();
                log.push(v);
                self.entries.push(
                    ResEntry { key, val: ResVal::Events(log), changed: true, local: false },
                );
                proof {
                    assert(self@.entries =~= old(self)@.append_event(key, v).entries);
                }
            },
        }
    }

    /// How many items the event log under `key` holds.
    pub fn events_len(&self, key: u64) -> (r: usize)
        ensures
            r == self@.events_of(key).len(),
    {
        match self.find_entry(key) {
            Some(i) => {
                proof {
                    lemma_find_key_found(self@.entries, key, 0);
                }
                match &self.entries[i].val {
                    ResVal::Events(log) => log.len(),
                    ResVal::Int(_) => 0,
                }
            },
            None => 0,
        }
    }

    /// The event at position `idx` of the log under `key`, if any.
    pub fn event_at(&self, key: u64, idx: usize) -> (r: Option<i64>)
        ensures
            r == if idx < self@.events_of(key).len() {
                Some(self@.events_of(key)[idx as int])
            } else {
                None::<i64>
            },
    {
        match self.find_entry(key) {
            Some(i) => {
                proof {
                    lemma_find_key_found(self@.entries, key, 0);
                }
                match &self.entries[i].val {
                    ResVal::Events(log) => {
                        if idx < log.len() {
                            Some(log[idx])
                        } else {
                            None
                        }
                    },
                    ResVal::Int(_) => None,
                }
            },
            None => None,
        }
    }

    /// Clears every change mark.
    pub fn clear_trackers(&mut self)
        ensures
            final(self)@ == old(self)@.clear_trackers(),
    {
        let mut i: usize = 0;
        while i < self.entries.len()
            invariant
                0 <= i <= self.entries.len(),
                self@.entries.len() == old(self)@.entries.len(),
                forall|n: int| 0 <= n < i ==> self@.entries[n]
                    == #[trigger] old(self)@.clear_trackers().entries[n],
                forall|n: int| i <= n < self@.entries.len() ==> self@.entries[n]
                    == #[trigger] old(self)@.entries[n],
            decreases self.entries.len() - i,
        {
            self.entries[i].changed = false;
            proof {
                assert(self@.entries[i as int] =~= old(self)@.clear_trackers().entries[i as int]);
            }
            i += 1;
        }
        proof {
            assert(self@.entries =~= old(self)@.clear_trackers().entries);
            assert(self@ =~= old(self)@.clear_trackers());
        }
    }
}

} // verus!
