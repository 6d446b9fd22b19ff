//! Laws of scans and deletions over what a keyspace holds.

use vstd::prelude::*;

use crate::cell::{Cell, EntryView, VersionScan};
use crate::composite::laws::{
    key_less, lemma_decode_inverts_encode, lemma_encode_inverts_decode,
    lemma_encoding_is_injective, lemma_encoding_keeps_order, lemma_prefix_range_selects,
};
use crate::composite::{decoded_key, encoded_key, prefix_range_outcome, CompositeKey, KeyView};
use crate::error::Error;
use crate::scan::{deleted, deletion_step, doomed, key_views, removes, scan_step, scanned};
use crate::storage::{
    ascending_keys, changed, lists, looked_up, ChangeView, KeyRange, Keyspace, Mutation, StoredView,
    UserKey,
};

verus! {

/// The selected versions of a listing, in order, without a limit.
pub open spec fn matching(limits: VersionScan, listing: Seq<StoredView>) -> Seq<EntryView>
    decreases listing.len(),
{
    if listing.len() == 0 {
        Seq::empty()
    } else {
        let rest = matching(limits, listing.drop_first());
        match decoded_key(listing[0].key) {
            Ok(key) => if limits.selects(key.timestamp) {
                seq![EntryView { key, value: listing[0].value }] + rest
            } else {
                rest
            },
            Err(_) => rest,
        }
    }
}

/// At most as many entries as the limit allows.
pub open spec fn limited(limits: VersionScan, entries: Seq<EntryView>) -> Seq<EntryView> {
    match limits.max_versions {
        Some(max) => if max < entries.len() {
            entries.take(max as int)
        } else {
            entries
        },
        None => entries,
    }
}

/// Whether every key of a listing encodes a version.
pub open spec fn all_versions(listing: Seq<StoredView>) -> bool {
    forall|i: int| 0 <= i < listing.len() ==> decoded_key((#[trigger] listing[i]).key) is Ok
}

proof fn lemma_scanned(limits: VersionScan, found: Seq<EntryView>, listing: Seq<StoredView>)
    requires
        all_versions(listing),
        limits.max_versions matches Some(max) ==> found.len() <= max,
    ensures
        scanned(limits, found, listing) == Ok::<Seq<EntryView>, Error>(
            limited(limits, found + matching(limits, listing)),
        ),
    decreases listing.len(),
{
    let all = found + matching(limits, listing);
    if listing.len() == 0 {
        assert(all =~= found);
    } else {
        let rest = listing.drop_first();
        assert(all_versions(rest)) by {
            assert forall|i: int| 0 <= i < rest.len() implies decoded_key(
                (#[trigger] rest[i]).key,
            ) is Ok by {
                assert(rest[i] == listing[i + 1]);
            }
        }
        assert(decoded_key(listing[0].key) is Ok);
        let step = scan_step(limits, found, listing[0])->Ok_0;
        lemma_scanned(limits, step, rest);
        if limits.exhausted(found.len()) {
            assert(limited(limits, all) =~= found);
            assert(limited(limits, found + matching(limits, rest)) =~= found);
        } else if limits.selects(decoded_key(listing[0].key)->Ok_0.timestamp) {
            assert(step + matching(limits, rest) =~= all);
        }
    }
}

/// A scan returns the selected versions of the listing in order, the first
/// ones up to its limit.
pub proof fn lemma_scan_returns_first_matches(limits: VersionScan, listing: Seq<StoredView>)
    requires
        all_versions(listing),
    ensures
        scanned(limits, Seq::empty(), listing) == Ok::<Seq<EntryView>, Error>(
            limited(limits, matching(limits, listing)),
        ),
{
    lemma_scanned(limits, Seq::empty(), listing);
    assert(Seq::<EntryView>::empty() + matching(limits, listing) =~= matching(limits, listing));
}

/// The selected versions of a listing are exactly the listed versions with a
/// timestamp within the bounds, both bounds included.
pub proof fn lemma_matches_are_exact(
    limits: VersionScan,
    listing: Seq<StoredView>,
    entry: EntryView,
)
    ensures
        matching(limits, listing).contains(entry) <==> {
            &&& listing.contains(StoredView { key: encoded_key(entry.key), value: entry.value })
            &&& limits.selects(entry.key.timestamp)
        },
    decreases listing.len(),
{
    let matches = matching(limits, listing);
    let stored = StoredView { key: encoded_key(entry.key), value: entry.value };
    if listing.len() > 0 {
        let rest = listing.drop_first();
        let later = matching(limits, rest);
        lemma_matches_are_exact(limits, rest, entry);
        lemma_decode_inverts_encode(entry.key);
        lemma_encode_inverts_decode(listing[0].key);
        if matches.contains(entry) {
            let k = choose|k: int| 0 <= k < matches.len() && matches[k] == entry;
            if matches.len() == later.len() {
                assert(later[k] == entry);
                assert(later.contains(entry));
            } else if k == 0 {
                assert(listing[0] == stored);
            } else {
                assert(later[k - 1] == entry);
                assert(later.contains(entry));
            }
            if rest.contains(stored) {
                let i = choose|i: int| 0 <= i < rest.len() && rest[i] == stored;
                assert(listing[i + 1] == stored);
            }
        }
        if listing.contains(stored) && limits.selects(entry.key.timestamp) {
            let i = choose|i: int| 0 <= i < listing.len() && listing[i] == stored;
            if i == 0 {
                assert(matches[0] == entry);
            } else {
                assert(rest[i - 1] == stored);
                assert(rest.contains(stored));
                let k = choose|k: int| 0 <= k < later.len() && later[k] == entry;
                if matches.len() == later.len() {
                    assert(matches[k] == entry);
                } else {
                    assert(matches[k + 1] == entry);
                }
            }
        }
    }
}

/// Results follow the logical key order; in particular, versions of one cell
/// come newest first.
pub proof fn lemma_matches_are_ordered(limits: VersionScan, listing: Seq<StoredView>)
    requires
        ascending_keys(listing),
    ensures
        forall|i: int, j: int|
            0 <= i < j < matching(limits, listing).len() ==> key_less(
                (#[trigger] matching(limits, listing)[i]).key,
                (#[trigger] matching(limits, listing)[j]).key,
            ),
        forall|i: int, j: int|
            0 <= i < j < matching(limits, listing).len() && (#[trigger] matching(
                limits,
                listing,
            )[i]).key.fields() == (#[trigger] matching(limits, listing)[j]).key.fields()
                ==> matching(limits, listing)[i].key.timestamp > matching(
                limits,
                listing,
            )[j].key.timestamp,
    decreases listing.len(),
{
    let matches = matching(limits, listing);
    if listing.len() > 0 {
        let rest = listing.drop_first();
        let later = matching(limits, rest);
        assert(ascending_keys(rest)) by {
            assert forall|i: int, j: int| 0 <= i < j < rest.len() implies crate::order::lex_less(
                (#[trigger] rest[i]).key,
                (#[trigger] rest[j]).key,
            ) by {
                assert(rest[i] == listing[i + 1]);
                assert(rest[j] == listing[j + 1]);
            }
        }
        lemma_matches_are_ordered(limits, rest);
        lemma_encode_inverts_decode(listing[0].key);
        assert forall|i: int, j: int| 0 <= i < j < matches.len() implies key_less(
            (#[trigger] matches[i]).key,
            (#[trigger] matches[j]).key,
        ) by {
            if matches.len() == later.len() {
                assert(matches[i] == later[i]);
                assert(matches[j] == later[j]);
            } else if i > 0 {
                assert(matches[i] == later[i - 1]);
                assert(matches[j] == later[j - 1]);
            } else {
                let entry = matches[j];
                assert(later[j - 1] == entry);
                assert(later.contains(entry));
                lemma_matches_are_exact(limits, rest, entry);
                let stored = StoredView { key: encoded_key(entry.key), value: entry.value };
                let k = choose|k: int| 0 <= k < rest.len() && rest[k] == stored;
                assert(listing[k + 1] == stored);
                assert(crate::order::lex_less(listing[0].key, listing[k + 1].key));
                lemma_encoding_keeps_order(matches[0].key, entry.key);
            }
        }
    }
    assert forall|i: int, j: int|
        0 <= i < j < matches.len() && (#[trigger] matches[i]).key.fields() == (
        #[trigger] matches[j]).key.fields() implies matches[i].key.timestamp
        > matches[j].key.timestamp by {
        lemma_same_fields(matches[i].key, matches[j].key);
        assert(key_less(matches[i].key, matches[j].key));
    }
}

/// Keys with the same fields differ at most in their timestamp.
pub proof fn lemma_same_fields(a: KeyView, b: KeyView)
    requires
        a.fields() == b.fields(),
    ensures
        a.row == b.row,
        a.family == b.family,
        a.qualifier == b.qualifier,
        a.visibility == b.visibility,
{
    assert(a.fields()[0] == b.fields()[0]);
    assert(a.fields()[1] == b.fields()[1]);
    assert(a.fields()[2] == b.fields()[2]);
    assert(a.fields()[3] == b.fields()[3]);
}

// ---------------------------------------------------------------------------
// Over what a keyspace holds
// ---------------------------------------------------------------------------
/// Whether a keyspace holds nothing but versions.
pub open spec fn holds_versions(contents: Map<Seq<u8>, Seq<u8>>) -> bool {
    forall|key: Seq<u8>| #[trigger] contents.contains_key(key) ==> decoded_key(key) is Ok
}

/// Whether a version has the given leading fields.
pub open spec fn selected_by(fields: Seq<Seq<u8>>, key: KeyView) -> bool {
    key.fields().take(fields.len() as int) == fields
}

/// What was written is read back, and nothing else changes.
pub proof fn lemma_write_is_read_back(
    contents: Map<Seq<u8>, Seq<u8>>,
    written: KeyView,
    value: Seq<u8>,
    other: KeyView,
)
    ensures
        looked_up(
            changed(contents, ChangeView::Insert { key: encoded_key(written), value }),
            encoded_key(written),
        ) == Some(value),
        looked_up(
            changed(contents, ChangeView::Remove { key: encoded_key(written) }),
            encoded_key(written),
        ) == None::<Seq<u8>>,
        other != written ==> {
            &&& looked_up(
                changed(contents, ChangeView::Insert { key: encoded_key(written), value }),
                encoded_key(other),
            ) == looked_up(contents, encoded_key(other))
            &&& looked_up(
                changed(contents, ChangeView::Remove { key: encoded_key(written) }),
                encoded_key(other),
            ) == looked_up(contents, encoded_key(other))
        },
{
    if encoded_key(other) == encoded_key(written) {
        lemma_encoding_is_injective(other, written);
    }
}

/// Writing versions keeps a keyspace one that holds nothing but versions.
pub proof fn lemma_writes_keep_versions(
    contents: Map<Seq<u8>, Seq<u8>>,
    written: KeyView,
    value: Seq<u8>,
)
    requires
        holds_versions(contents),
    ensures
        holds_versions(changed(contents, ChangeView::Insert { key: encoded_key(written), value })),
        holds_versions(changed(contents, ChangeView::Remove { key: encoded_key(written) })),
{
    lemma_decode_inverts_encode(written);
}

/// Where a keyspace holds nothing but versions, every listing of it does.
pub proof fn lemma_listings_of_versions(
    contents: Map<Seq<u8>, Seq<u8>>,
    range: KeyRange,
    listing: Seq<StoredView>,
)
    requires
        holds_versions(contents),
        lists(contents, range, listing),
    ensures
        all_versions(listing),
{
    assert forall|i: int| 0 <= i < listing.len() implies decoded_key(
        (#[trigger] listing[i]).key,
    ) is Ok by {
        assert(contents.contains_key(listing[i].key));
    }
}

/// A prefix scan finds a version with its value exactly if the keyspace holds
/// it, the prefix selects it and its timestamp lies within the bounds. Other
/// keys may stand outside the range of the prefix.
pub proof fn lemma_prefix_scan_is_exact(
    contents: Map<Seq<u8>, Seq<u8>>,
    fields: Seq<Seq<u8>>,
    range: KeyRange,
    listing: Seq<StoredView>,
    limits: VersionScan,
)
    requires
        all_versions(listing),
        fields.len() <= 4,
        prefix_range_outcome(Some(fields), Ok(range)),
        lists(contents, range, listing),
    ensures
        scanned(limits, Seq::empty(), listing) == Ok::<Seq<EntryView>, Error>(
            limited(limits, matching(limits, listing)),
        ),
        forall|entry: EntryView| #[trigger]
            matching(limits, listing).contains(entry) <==> {
                &&& looked_up(contents, encoded_key(entry.key)) == Some(entry.value)
                &&& selected_by(fields, entry.key)
                &&& limits.selects(entry.key.timestamp)
            },
{
    lemma_scan_returns_first_matches(limits, listing);
    lemma_prefix_range_selects(fields, range);
    assert forall|entry: EntryView| #[trigger]
        matching(limits, listing).contains(entry) <==> {
            &&& looked_up(contents, encoded_key(entry.key)) == Some(entry.value)
            &&& selected_by(fields, entry.key)
            &&& limits.selects(entry.key.timestamp)
        } by {
        lemma_matches_are_exact(limits, listing, entry);
        let stored = StoredView { key: encoded_key(entry.key), value: entry.value };
        assert(range.contains(encoded_key(entry.key)) == selected_by(fields, entry.key));
        if listing.contains(stored) {
            let i = choose|i: int| 0 <= i < listing.len() && listing[i] == stored;
            assert(range.contains(listing[i].key));
        }
        if looked_up(contents, stored.key) == Some(entry.value) && range.contains(stored.key) {
            assert(contents.contains_key(stored.key) && range.contains(stored.key));
            let i = choose|i: int| 0 <= i < listing.len() && (#[trigger] listing[i]).key
                == stored.key;
            assert(listing[i].value == stored.value);
            assert(listing[i] == stored);
        }
    }
}

/// The first entry of a scan over one cell is its newest selected version.
pub proof fn lemma_first_is_newest(
    contents: Map<Seq<u8>, Seq<u8>>,
    fields: Seq<Seq<u8>>,
    range: KeyRange,
    listing: Seq<StoredView>,
    limits: VersionScan,
    other: EntryView,
)
    requires
        all_versions(listing),
        fields.len() == 4,
        prefix_range_outcome(Some(fields), Ok(range)),
        lists(contents, range, listing),
        looked_up(contents, encoded_key(other.key)) == Some(other.value),
        selected_by(fields, other.key),
        limits.selects(other.key.timestamp),
    ensures
        matching(limits, listing).len() > 0,
        matching(limits, listing)[0].key.timestamp >= other.key.timestamp,
{
    let matches = matching(limits, listing);
    lemma_prefix_scan_is_exact(contents, fields, range, listing, limits);
    lemma_matches_are_ordered(limits, listing);
    assert(matches.contains(other));
    let k = choose|k: int| 0 <= k < matches.len() && matches[k] == other;
    if k > 0 {
        assert(matches.contains(matches[0]));
        assert(selected_by(fields, matches[0].key));
        assert(matches[0].key.fields().take(4) =~= matches[0].key.fields());
        assert(other.key.fields().take(4) =~= other.key.fields());
        assert(matches[0].key.fields() == matches[k].key.fields());
    }
}

// ---------------------------------------------------------------------------
// Deletion
// ---------------------------------------------------------------------------
/// The contents of a keyspace after several keys were removed.
pub open spec fn without(contents: Map<Seq<u8>, Seq<u8>>, keys: Seq<Seq<u8>>) -> Map<
    Seq<u8>,
    Seq<u8>,
>
    decreases keys.len(),
{
    if keys.len() == 0 {
        contents
    } else {
        without(changed(contents, ChangeView::Remove { key: keys[0] }), keys.drop_first())
    }
}

proof fn lemma_without(contents: Map<Seq<u8>, Seq<u8>>, keys: Seq<Seq<u8>>, key: Seq<u8>)
    ensures
        looked_up(without(contents, keys), key) == if keys.contains(key) {
            None
        } else {
            looked_up(contents, key)
        },
    decreases keys.len(),
{
    if keys.len() > 0 {
        let rest = keys.drop_first();
        let fewer = changed(contents, ChangeView::Remove { key: keys[0] });
        lemma_without(fewer, rest, key);
        if keys.contains(key) {
            let i = choose|i: int| 0 <= i < keys.len() && keys[i] == key;
            if i > 0 {
                assert(rest[i - 1] == key);
                assert(rest.contains(key));
            }
        }
        if rest.contains(key) {
            let i = choose|i: int| 0 <= i < rest.len() && rest[i] == key;
            assert(keys[i + 1] == key);
        }
        if key == keys[0] {
            assert(keys.contains(key));
        }
    }
}

proof fn lemma_deleted(
    older_than: Option<i64>,
    keys: Seq<Seq<u8>>,
    offered: Seq<Seq<u8>>,
    key: Seq<u8>,
)
    requires
        forall|i: int| 0 <= i < offered.len() ==> decoded_key(#[trigger] offered[i]) is Ok,
    ensures
        deleted(older_than, keys, offered) is Ok,
        deleted(older_than, keys, offered)->Ok_0.contains(key) <==> keys.contains(key) || {
            &&& offered.contains(key)
            &&& doomed(older_than, decoded_key(key)->Ok_0.timestamp)
        },
    decreases offered.len(),
{
    if offered.len() > 0 {
        let rest = offered.drop_first();
        assert forall|i: int| 0 <= i < rest.len() implies decoded_key(#[trigger] rest[i]) is Ok by {
            assert(rest[i] == offered[i + 1]);
        }
        assert(decoded_key(offered[0]) is Ok);
        let step = deletion_step(older_than, keys, offered[0])->Ok_0;
        lemma_deleted(older_than, step, rest, key);
        if keys.contains(key) {
            let i = choose|i: int| 0 <= i < keys.len() && keys[i] == key;
            assert(step[i] == key);
        }
        if step.contains(key) && !keys.contains(key) {
            let i = choose|i: int| 0 <= i < step.len() && step[i] == key;
            if i < keys.len() {
                assert(keys[i] == key);
            }
            assert(offered[0] == key);
        }
        if rest.contains(key) {
            let i = choose|i: int| 0 <= i < rest.len() && rest[i] == key;
            assert(offered[i + 1] == key);
        }
        if offered.contains(key) && doomed(older_than, decoded_key(key)->Ok_0.timestamp) {
            let i = choose|i: int| 0 <= i < offered.len() && offered[i] == key;
            if i == 0 {
                assert(step[step.len() - 1] == key);
            } else {
                assert(rest[i - 1] == key);
            }
        }
    }
}

/// The keys of a listing.
pub open spec fn listed_keys(listing: Seq<StoredView>) -> Seq<Seq<u8>> {
    Seq::new(listing.len(), |i: int| listing[i].key)
}

/// Deleting the versions of a cell removes every version of it, or with a
/// cutoff exactly those older than the cutoff, and leaves everything else:
/// every other version, and every key outside the range of the cell, whether it
/// is a version or not.
pub proof fn lemma_deletion_is_exact(
    contents: Map<Seq<u8>, Seq<u8>>,
    fields: Seq<Seq<u8>>,
    range: KeyRange,
    listing: Seq<StoredView>,
    older_than: Option<i64>,
    key: KeyView,
)
    requires
        all_versions(listing),
        fields.len() <= 4,
        prefix_range_outcome(Some(fields), Ok(range)),
        lists(contents, range, listing),
    ensures
        deleted(older_than, Seq::empty(), listed_keys(listing)) matches Ok(keys) && {
            &&& looked_up(without(contents, keys), encoded_key(key)) == if selected_by(fields, key)
                && doomed(older_than, key.timestamp) {
                None
            } else {
                looked_up(contents, encoded_key(key))
            }
            &&& forall|other: Seq<u8>|
                !#[trigger] range.contains(other) ==> looked_up(without(contents, keys), other)
                    == looked_up(contents, other)
        },
{
    let offered = listed_keys(listing);
    let encoded = encoded_key(key);
    assert forall|i: int| 0 <= i < offered.len() implies decoded_key(#[trigger] offered[i]) is Ok by {
        assert(offered[i] == listing[i].key);
    }
    lemma_deleted(older_than, Seq::empty(), offered, encoded);
    let keys = deleted(older_than, Seq::empty(), offered)->Ok_0;
    assert forall|other: Seq<u8>| !#[trigger] range.contains(other) implies looked_up(
        without(contents, keys),
        other,
    ) == looked_up(contents, other) by {
        lemma_deleted(older_than, Seq::empty(), offered, other);
        lemma_without(contents, keys, other);
        if offered.contains(other) {
            let i = choose|i: int| 0 <= i < offered.len() && offered[i] == other;
            assert(range.contains(listing[i].key));
        }
    }
    lemma_without(contents, keys, encoded);
    lemma_decode_inverts_encode(key);
    lemma_prefix_range_selects(fields, range);
    assert(range.contains(encoded) == selected_by(fields, key));
    if offered.contains(encoded) {
        let i = choose|i: int| 0 <= i < offered.len() && offered[i] == encoded;
        assert(range.contains(listing[i].key));
    }
    if contents.contains_key(encoded) && range.contains(encoded) {
        let i = choose|i: int| 0 <= i < listing.len() && (#[trigger] listing[i]).key == encoded;
        assert(offered[i] == encoded);
    }
}

// ---------------------------------------------------------------------------
// Bounds, limits and cutoffs as inequalities
// ---------------------------------------------------------------------------
/// Every version that a scan returns is at least as new as the lower bound, if
/// there is one, and at most as new as the upper bound, if there is one; there
/// are no more of them than the limit; and where the limit leaves room, a listed
/// version that meets both bounds is among them.
pub proof fn lemma_scans_keep_bounds(
    limits: VersionScan,
    listing: Seq<StoredView>,
    entries: Seq<EntryView>,
)
    requires
        all_versions(listing),
        scanned(limits, Seq::empty(), listing) == Ok::<Seq<EntryView>, Error>(entries),
    ensures
        forall|i: int|
            0 <= i < entries.len() ==> (limits.min_timestamp matches Some(min) ==> min <= (
            #[trigger] entries[i]).key.timestamp),
        forall|i: int|
            0 <= i < entries.len() ==> (limits.max_timestamp matches Some(max) ==> (
            #[trigger] entries[i]).key.timestamp <= max),
        limits.max_versions matches Some(most) ==> entries.len() <= most,
        forall|key: KeyView, value: Seq<u8>|
            {
                &&& #[trigger] listing.contains(StoredView { key: encoded_key(key), value })
                &&& limits.min_timestamp matches Some(min) ==> min <= key.timestamp
                &&& limits.max_timestamp matches Some(max) ==> key.timestamp <= max
                &&& limits.max_versions matches Some(most) ==> entries.len() < most
            } ==> entries.contains(EntryView { key, value }),
{
    let matches = matching(limits, listing);
    lemma_scan_returns_first_matches(limits, listing);
    assert forall|i: int| 0 <= i < entries.len() implies limits.selects(
        (#[trigger] entries[i]).key.timestamp,
    ) by {
        assert(matches[i] == entries[i]);
        assert(matches.contains(entries[i]));
        lemma_matches_are_exact(limits, listing, entries[i]);
    }
    assert forall|key: KeyView, value: Seq<u8>|
        {
            &&& #[trigger] listing.contains(StoredView { key: encoded_key(key), value })
            &&& limits.min_timestamp matches Some(min) ==> min <= key.timestamp
            &&& limits.max_timestamp matches Some(max) ==> key.timestamp <= max
            &&& limits.max_versions matches Some(most) ==> entries.len() < most
        } implies entries.contains(EntryView { key, value }) by {
        lemma_matches_are_exact(limits, listing, EntryView { key, value });
        assert(entries == matches);
    }
}

/// After the versions of a cell older than a cutoff were deleted, a version of
/// the cell is gone if its timestamp is less than the cutoff, and every version
/// with a timestamp of at least the cutoff is as it was; without a cutoff every
/// version of the cell is gone. Versions of other cells are as they were.
pub proof fn lemma_deletion_keeps_cutoff(
    contents: Map<Seq<u8>, Seq<u8>>,
    cell: Cell,
    range: KeyRange,
    listing: Seq<StoredView>,
    older_than: Option<i64>,
    keys: Seq<Seq<u8>>,
    key: CompositeKey,
)
    requires
        all_versions(listing),
        prefix_range_outcome(Some(cell.at(0).fields()), Ok(range)),
        lists(contents, range, listing),
        deleted(older_than, Seq::empty(), listed_keys(listing)) == Ok::<Seq<Seq<u8>>, Error>(keys),
    ensures
        ({
            let before = looked_up(contents, encoded_key(key@));
            let after = looked_up(without(contents, keys), encoded_key(key@));
            let of_cell = cell.row@ == key.row@ && cell.family@ == key.family@ && cell.qualifier@
                == key.qualifier@ && cell.visibility@ == key.visibility@;
            &&& !of_cell ==> after == before
            &&& older_than matches Some(cutoff) ==> key.timestamp >= cutoff ==> after == before
            &&& older_than matches Some(cutoff) ==> of_cell && key.timestamp < cutoff
                ==> after is None
            &&& older_than is None ==> of_cell ==> after is None
        }),
{
    let given = cell.at(0).fields();
    lemma_deletion_is_exact(contents, given, range, listing, older_than, key@);
    let fields = key@.fields();
    let taken = fields.take(4);
    if taken == given {
        assert(forall|i: int| 0 <= i < 4 ==> #[trigger] taken[i] == given[i]);
        assert(forall|i: int| 0 <= i < 4 ==> fields[i] == #[trigger] given[i]);
        assert(given[0] == cell.row@ && given[1] == cell.family@);
        assert(given[2] == cell.qualifier@ && given[3] == cell.visibility@);
    }
    if cell.row@ == key.row@ && cell.family@ == key.family@ && cell.qualifier@ == key.qualifier@
        && cell.visibility@ == key.visibility@ {
        assert(taken =~= given);
    }
}

/// The contents of a keyspace after several writes, one after another.
pub open spec fn written_all(
    contents: Map<Seq<u8>, Seq<u8>>,
    mutations: Seq<Mutation>,
) -> Map<Seq<u8>, Seq<u8>>
    decreases mutations.len(),
{
    if mutations.len() == 0 {
        contents
    } else {
        written_all(changed(contents, mutations[0].change@), mutations.drop_first())
    }
}

/// The writes of a deletion all go to its keyspace, and carried out they remove
/// its keys.
pub proof fn lemma_removals_remove(
    contents: Map<Seq<u8>, Seq<u8>>,
    mutations: Seq<Mutation>,
    keyspace: Keyspace,
    keys: Seq<Seq<u8>>,
)
    requires
        removes(mutations, keyspace, keys),
    ensures
        forall|i: int| 0 <= i < mutations.len() ==> (#[trigger] mutations[i]).keyspace == keyspace,
        forall|key: Seq<u8>|
            #[trigger] looked_up(written_all(contents, mutations), key) == if keys.contains(key) {
                None
            } else {
                looked_up(contents, key)
            },
    decreases keys.len(),
{
    lemma_written_removals(contents, mutations, keyspace, keys);
    assert forall|key: Seq<u8>|
        #[trigger] looked_up(written_all(contents, mutations), key) == if keys.contains(key) {
            None
        } else {
            looked_up(contents, key)
        } by {
        lemma_without(contents, keys, key);
    }
}

proof fn lemma_written_removals(
    contents: Map<Seq<u8>, Seq<u8>>,
    mutations: Seq<Mutation>,
    keyspace: Keyspace,
    keys: Seq<Seq<u8>>,
)
    requires
        removes(mutations, keyspace, keys),
    ensures
        written_all(contents, mutations) == without(contents, keys),
    decreases keys.len(),
{
    if keys.len() > 0 {
        let rest = mutations.drop_first();
        let later = keys.drop_first();
        assert(mutations[0].change@ == ChangeView::Remove { key: keys[0] });
        assert forall|i: int| 0 <= i < later.len() implies (#[trigger] rest[i]).keyspace == keyspace
            && rest[i].change@ == (ChangeView::Remove { key: later[i] }) by {
            assert(rest[i] == mutations[i + 1]);
        }
        lemma_written_removals(changed(contents, mutations[0].change@), rest, keyspace, later);
    }
}

// ---------------------------------------------------------------------------
// What is not a version
// ---------------------------------------------------------------------------
/// A scan that may still return more passes over no key that is no version.
pub proof fn lemma_scans_skip_no_foreign_key(
    limits: VersionScan,
    found: Seq<EntryView>,
    listing: Seq<StoredView>,
    entries: Seq<EntryView>,
)
    requires
        scanned(limits, found, listing) == Ok::<Seq<EntryView>, Error>(entries),
        limits.max_versions matches Some(most) ==> entries.len() < most,
    ensures
        found.len() <= entries.len(),
        forall|i: int|
            0 <= i < listing.len() ==> decoded_key((#[trigger] listing[i]).key) is Ok,
    decreases listing.len(),
{
    if listing.len() > 0 {
        let step = scan_step(limits, found, listing[0])->Ok_0;
        let rest = listing.drop_first();
        lemma_scans_skip_no_foreign_key(limits, step, rest, entries);
        assert forall|i: int| 0 <= i < listing.len() implies decoded_key(
            (#[trigger] listing[i]).key,
        ) is Ok by {
            if i > 0 {
                assert(rest[i - 1] == listing[i]);
            }
        }
    }
}

/// A deletion that meets a key that is no version deletes nothing: it ends with
/// the error of the first such key.
pub proof fn lemma_deletions_stop_at_foreign_keys(
    older_than: Option<i64>,
    keys: Seq<Seq<u8>>,
    offered: Seq<Seq<u8>>,
    at: int,
)
    requires
        0 <= at < offered.len(),
        decoded_key(offered[at]) is Err,
        forall|i: int| 0 <= i < at ==> decoded_key(#[trigger] offered[i]) is Ok,
    ensures
        deleted(older_than, keys, offered) == Err::<Seq<Seq<u8>>, Error>(
            decoded_key(offered[at])->Err_0,
        ),
    decreases offered.len(),
{
    if at > 0 {
        let rest = offered.drop_first();
        assert(decoded_key(offered[0]) is Ok);
        assert forall|i: int| 0 <= i < at - 1 implies decoded_key(#[trigger] rest[i]) is Ok by {
            assert(rest[i] == offered[i + 1]);
        }
        assert(rest[at - 1] == offered[at]);
        let step = deletion_step(older_than, keys, offered[0])->Ok_0;
        lemma_deletions_stop_at_foreign_keys(older_than, step, rest, at - 1);
    }
}

/// The contents of lists of keys are those of each key, in order.
pub proof fn lemma_keys_are_elementwise(keys: Seq<UserKey>)
    ensures
        key_views(keys).len() == keys.len(),
        forall|i: int| 0 <= i < keys.len() ==> #[trigger] key_views(keys)[i] == keys[i]@,
{
}

} // verus!
