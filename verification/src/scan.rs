//! Scans over versioned cells.
//!
//! A scan asks for a key range, is offered the entries of that range one by
//! one in ascending key order, and collects those that match.

use vstd::prelude::*;

use crate::cell::{entry_views, EntryView, VersionScan, VersionedCell, VersionedEntry};
use crate::composite::{decoded_key, CompositeKey};
use crate::error::Error;
use crate::storage::{
    stored_views, Change, ChangeView, Keyspace, Mutation, RangeRead, StoredEntry, StoredView,
    UserKey,
};

pub mod laws;

verus! {

/// What a scan has found after it was offered one more entry: a scan that has
/// enough finds nothing more, and any other takes a selected version.
pub open spec fn scan_step(
    limits: VersionScan,
    found: Seq<EntryView>,
    entry: StoredView,
) -> Result<Seq<EntryView>, Error> {
    if limits.exhausted(found.len()) {
        Ok(found)
    } else {
        match decoded_key(entry.key) {
            Ok(key) => if limits.selects(key.timestamp) {
                Ok(found.push(EntryView { key, value: entry.value }))
            } else {
                Ok(found)
            },
            Err(error) => Err(error),
        }
    }
}

/// What a scan has found after it was offered a whole listing.
pub open spec fn scanned(
    limits: VersionScan,
    found: Seq<EntryView>,
    listing: Seq<StoredView>,
) -> Result<Seq<EntryView>, Error>
    decreases listing.len(),
{
    if listing.len() == 0 {
        Ok(found)
    } else {
        match scan_step(limits, found, listing[0]) {
            Ok(more) => scanned(limits, more, listing.drop_first()),
            Err(error) => Err(error),
        }
    }
}

/// A scan for versions in a raw keyspace.
pub struct VersionedScan {
    read: RangeRead,
    limits: VersionScan,
    entries: Vec<VersionedEntry>,
}

impl VersionedScan {
    /// The entries that the scan asks for.
    pub closed spec fn wanted(self) -> RangeRead {
        self.read
    }

    /// Which versions the scan is to return.
    pub closed spec fn limits(self) -> VersionScan {
        self.limits
    }

    /// What the scan has found so far.
    pub closed spec fn found(self) -> Seq<EntryView> {
        entry_views(self.entries@)
    }

    /// Creates a scan that has found nothing yet.
    pub fn new(read: RangeRead, limits: VersionScan) -> (scan: Self)
        ensures
            scan.wanted() == read,
            scan.limits() == limits,
            scan.found() == Seq::<EntryView>::empty(),
    {
        let scan = VersionedScan { read, limits, entries: Vec::new() };
        assert(scan.found() =~= Seq::empty());
        scan
    }

    /// Returns the entries that the scan asks for.
    pub fn read(&self) -> (read: &RangeRead)
        ensures
            *read == self.wanted(),
    {
        &self.read
    }

    /// Returns whether the scan can still find something.
    pub fn wants_more(&self) -> (more: bool)
        ensures
            more == !self.limits().exhausted(self.found().len()),
    {
        !self.limits.is_satisfied_by(self.entries.len())
    }

    /// Offers the next entry of the range to the scan.
    ///
    /// # Errors
    ///
    /// Returns an error if the key of the entry cannot be decoded.
    pub fn offer(&mut self, entry: StoredEntry) -> (outcome: Result<(), Error>)
        ensures
            final(self).wanted() == old(self).wanted(),
            final(self).limits() == old(self).limits(),
            match outcome {
                Ok(()) => scan_step(old(self).limits(), old(self).found(), entry@) == Ok::<
                    Seq<EntryView>,
                    Error,
                >(final(self).found()),
                Err(error) => {
                    &&& scan_step(old(self).limits(), old(self).found(), entry@) == Err::<
                        Seq<EntryView>,
                        Error,
                    >(error)
                    &&& *final(self) == *old(self)
                },
            },
    {
        if !self.wants_more() {
            return Ok(());
        }
        let key = match CompositeKey::decode(entry.key.as_slice()) {
            Ok(key) => key,
            Err(error) => return Err(error),
        };
        if self.limits.includes(key.timestamp) {
            let ghost before = self.entries@;
            let found = VersionedEntry { cell: VersionedCell::from(key), value: entry.value };
            self.entries.push(found);
            assert(entry_views(self.entries@) =~= entry_views(before).push(
                EntryView { key: key@, value: entry@.value },
            ));
        }
        Ok(())
    }

    /// Consumes the scan and returns what it has found.
    pub fn into_entries(self) -> (entries: Vec<VersionedEntry>)
        ensures
            entry_views(entries@) == self.found(),
    {
        self.entries
    }

    /// Consumes the scan and returns the first entry that it has found.
    pub fn into_first(self) -> (first: Option<VersionedEntry>)
        ensures
            match first {
                Some(entry) => self.found().len() > 0 && entry@ == self.found()[0],
                None => self.found().len() == 0,
            },
    {
        let mut entries = self.entries;
        if entries.len() == 0 {
            assert(self.found().len() == 0);
            None
        } else {
            assert(self.found()[0] == entries@[0]@);
            Some(entries.remove(0))
        }
    }

    /// Offers a whole listing to the scan and returns what it finds.
    ///
    /// # Errors
    ///
    /// Returns an error if a key cannot be decoded before the scan has enough.
    pub fn run(self, listing: Vec<StoredEntry>) -> (outcome: Result<Vec<VersionedEntry>, Error>)
        ensures
            match outcome {
                Ok(entries) => scanned(self.limits(), self.found(), stored_views(listing@)) == Ok::<
                    Seq<EntryView>,
                    Error,
                >(entry_views(entries@)),
                Err(error) => scanned(self.limits(), self.found(), stored_views(listing@)) == Err::<
                    Seq<EntryView>,
                    Error,
                >(error),
            },
    {
        let ghost views = stored_views(listing@);
        let ghost start = self;
        let mut scan = self;
        assert(views.skip(0) =~= views);
        for entry in it: listing
            invariant
                start == self,
                views == stored_views(listing@),
                views == stored_views(it.seq()),
                scan.limits() == start.limits(),
                scanned(start.limits(), start.found(), views) == scanned(
                    start.limits(),
                    scan.found(),
                    views.skip(it.index() as int),
                ),
        {
            proof {
                let at = it.index() as int;
                assert(views.skip(at)[0] == views[at]);
                assert(views[at] == entry@);
                assert(views.skip(at).drop_first() =~= views.skip(at + 1));
            }
            match scan.offer(entry) {
                Ok(()) => {},
                Err(error) => return Err(error),
            }
        }
        Ok(scan.into_entries())
    }
}

// ---------------------------------------------------------------------------
// Deletion of versions
// ---------------------------------------------------------------------------
/// Whether a version is to be deleted: any version without a cutoff, and any
/// older one with a cutoff.
pub open spec fn doomed(older_than: Option<i64>, timestamp: i64) -> bool {
    older_than matches Some(cutoff) ==> timestamp < cutoff
}

/// The keys to delete after one more key was offered.
pub open spec fn deletion_step(
    older_than: Option<i64>,
    keys: Seq<Seq<u8>>,
    key: Seq<u8>,
) -> Result<Seq<Seq<u8>>, Error> {
    match decoded_key(key) {
        Ok(decoded) => if doomed(older_than, decoded.timestamp) {
            Ok(keys.push(key))
        } else {
            Ok(keys)
        },
        Err(error) => Err(error),
    }
}

/// The keys to delete after a whole list of keys was offered.
pub open spec fn deleted(
    older_than: Option<i64>,
    keys: Seq<Seq<u8>>,
    offered: Seq<Seq<u8>>,
) -> Result<Seq<Seq<u8>>, Error>
    decreases offered.len(),
{
    if offered.len() == 0 {
        Ok(keys)
    } else {
        match deletion_step(older_than, keys, offered[0]) {
            Ok(more) => deleted(older_than, more, offered.drop_first()),
            Err(error) => Err(error),
        }
    }
}

/// The contents of keys.
pub open spec fn key_views(keys: Seq<UserKey>) -> Seq<Seq<u8>> {
    Seq::new(keys.len(), |i: int| keys[i]@)
}

/// Whether `mutations` remove exactly `keys` from a keyspace, in this order.
pub open spec fn removes(
    mutations: Seq<Mutation>,
    keyspace: Keyspace,
    keys: Seq<Seq<u8>>,
) -> bool {
    &&& mutations.len() == keys.len()
    &&& forall|i: int|
        0 <= i < keys.len() ==> (#[trigger] mutations[i]).keyspace == keyspace
            && mutations[i].change@ == (ChangeView::Remove { key: keys[i] })
}

/// A deletion of versions in a raw keyspace.
///
/// Nothing is deleted before every key of the range has been seen.
pub struct VersionDeletion {
    read: RangeRead,
    older_than: Option<i64>,
    keys: Vec<UserKey>,
}

impl VersionDeletion {
    /// The entries whose keys the deletion asks for.
    pub closed spec fn wanted(self) -> RangeRead {
        self.read
    }

    /// The timestamp below which versions are deleted.
    pub closed spec fn cutoff(self) -> Option<i64> {
        self.older_than
    }

    /// The keys to delete so far.
    pub closed spec fn keys(self) -> Seq<Seq<u8>> {
        key_views(self.keys@)
    }

    /// Creates a deletion that has seen no key yet.
    pub fn new(read: RangeRead, older_than: Option<i64>) -> (deletion: Self)
        ensures
            deletion.wanted() == read,
            deletion.cutoff() == older_than,
            deletion.keys() == Seq::<Seq<u8>>::empty(),
    {
        let deletion = VersionDeletion { read, older_than, keys: Vec::new() };
        assert(deletion.keys() =~= Seq::empty());
        deletion
    }

    /// Returns the entries whose keys the deletion asks for.
    pub fn read(&self) -> (read: &RangeRead)
        ensures
            *read == self.wanted(),
    {
        &self.read
    }

    /// Offers the next key of the range to the deletion.
    ///
    /// # Errors
    ///
    /// Returns an error if the key cannot be decoded.
    pub fn offer(&mut self, key: UserKey) -> (outcome: Result<(), Error>)
        ensures
            final(self).wanted() == old(self).wanted(),
            final(self).cutoff() == old(self).cutoff(),
            match outcome {
                Ok(()) => deletion_step(old(self).cutoff(), old(self).keys(), key@) == Ok::<
                    Seq<Seq<u8>>,
                    Error,
                >(final(self).keys()),
                Err(error) => {
                    &&& deletion_step(old(self).cutoff(), old(self).keys(), key@) == Err::<
                        Seq<Seq<u8>>,
                        Error,
                    >(error)
                    &&& *final(self) == *old(self)
                },
            },
            outcome is Ok ==> final(self).keys() == match old(self).cutoff() {
                Some(cutoff) => if decoded_key(key@)->Ok_0.timestamp < cutoff {
                    old(self).keys().push(key@)
                } else {
                    old(self).keys()
                },
                None => old(self).keys().push(key@),
            },
    {
        let decoded = match CompositeKey::decode(key.as_slice()) {
            Ok(decoded) => decoded,
            Err(error) => return Err(error),
        };
        let matches = match self.older_than {
            Some(cutoff) => decoded.timestamp < cutoff,
            None => true,
        };
        if matches {
            let ghost before = self.keys@;
            let ghost bytes = key@;
            self.keys.push(key);
            assert(key_views(self.keys@) =~= key_views(before).push(bytes));
        }
        Ok(())
    }

    /// Consumes the deletion and returns one removal for each key to delete.
    pub fn into_mutations(self) -> (mutations: Vec<Mutation>)
        ensures
            removes(mutations@, self.wanted().keyspace, self.keys()),
    {
        let ghost all = self.keys();
        let keyspace = self.read.keyspace;
        let mut mutations: Vec<Mutation> = Vec::new();
        for key in it: self.keys
            invariant
                all == key_views(it.seq()),
                mutations@.len() == it.index(),
                removes(mutations@, keyspace, all.take(it.index() as int)),
        {
            let ghost done = it.index() as int;
            let ghost before = mutations@;
            assert(all[done] == key@);
            mutations.push(Mutation { keyspace: keyspace.clone(), change: Change::Remove { key } });
            proof {
                let front = all.take(done + 1);
                assert(front =~= all.take(done).push(all[done]));
                assert forall|i: int| 0 <= i < front.len() implies (
                #[trigger] mutations@[i]).keyspace == keyspace && mutations@[i].change@ == (
                ChangeView::Remove { key: front[i] }) by {
                    if i < done {
                        assert(mutations@[i] == before[i]);
                        assert(front[i] == all.take(done)[i]);
                    }
                }
            }
        }
        assert(all.take(mutations@.len() as int) =~= all);
        mutations
    }

    /// Offers a whole list of keys to the deletion and returns the removals.
    ///
    /// # Errors
    ///
    /// Returns an error, and deletes nothing, if a key cannot be decoded.
    pub fn run(self, offered: Vec<UserKey>) -> (outcome: Result<Vec<Mutation>, Error>)
        ensures
            match outcome {
                Ok(mutations) => deleted(self.cutoff(), self.keys(), key_views(offered@)) matches Ok(
                    keys,
                ) && removes(mutations@, self.wanted().keyspace, keys),
                Err(error) => deleted(self.cutoff(), self.keys(), key_views(offered@)) == Err::<
                    Seq<Seq<u8>>,
                    Error,
                >(error),
            },
    {
        let ghost views = key_views(offered@);
        let ghost start = self;
        let mut deletion = self;
        assert(views.skip(0) =~= views);
        for key in it: offered
            invariant
                start == self,
                views == key_views(offered@),
                views == key_views(it.seq()),
                deletion.cutoff() == start.cutoff(),
                deletion.wanted() == start.wanted(),
                deleted(start.cutoff(), start.keys(), views) == deleted(
                    start.cutoff(),
                    deletion.keys(),
                    views.skip(it.index() as int),
                ),
        {
            proof {
                let at = it.index() as int;
                assert(views.skip(at)[0] == views[at]);
                assert(views[at] == key@);
                assert(views.skip(at).drop_first() =~= views.skip(at + 1));
            }
            match deletion.offer(key) {
                Ok(()) => {},
                Err(error) => return Err(error),
            }
        }
        Ok(deletion.into_mutations())
    }
}

} // verus!
