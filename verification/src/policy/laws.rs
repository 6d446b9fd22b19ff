//! Laws of retention: compaction keeps the newest versions of each group.

use vstd::prelude::*;

use crate::composite::laws::key_less;
use crate::composite::{CompositeKey, KeyView};
use crate::error::Error;
use crate::order::lemma_lex_asymmetric;
use crate::policy::{
    next_state, removal, CompactionDeleteReason, GroupState, RetentionPolicy, Verdict,
};
use crate::scan::laws::lemma_same_fields;

verus! {

/// Where a fresh compaction is after the first `count` versions.
pub open spec fn state_after(keys: Seq<KeyView>, count: int) -> GroupState
    decreases count,
{
    if count <= 0 {
        GroupState { group: None, seen: 0 }
    } else {
        next_state(state_after(keys, count - 1), keys[count - 1])
    }
}

/// How many of the first `count` versions have the given fields.
pub open spec fn count_of(keys: Seq<KeyView>, fields: Seq<Seq<u8>>, count: int) -> nat
    decreases count,
{
    if count <= 0 {
        0
    } else {
        count_of(keys, fields, count - 1) + if keys[count - 1].fields() == fields {
            1nat
        } else {
            0
        }
    }
}

/// Whether versions stand in logical order.
pub open spec fn in_order(keys: Seq<KeyView>) -> bool {
    forall|i: int, j: int|
        0 <= i < j < keys.len() ==> key_less(#[trigger] keys[i], #[trigger] keys[j])
}

proof fn lemma_groups_are_contiguous(a: KeyView, b: KeyView, c: KeyView)
    requires
        key_less(a, b),
        key_less(b, c),
        a.fields() == c.fields(),
    ensures
        b.fields() == c.fields(),
{
    lemma_same_fields(a, c);
    if a.row != b.row {
        lemma_lex_asymmetric(a.row, b.row);
    } else if a.family != b.family {
        lemma_lex_asymmetric(a.family, b.family);
    } else if a.qualifier != b.qualifier {
        lemma_lex_asymmetric(a.qualifier, b.qualifier);
    } else if a.visibility != b.visibility {
        lemma_lex_asymmetric(a.visibility, b.visibility);
    }
}

proof fn lemma_count_of_none(keys: Seq<KeyView>, fields: Seq<Seq<u8>>, count: int)
    requires
        0 <= count <= keys.len(),
        forall|j: int| 0 <= j < count ==> (#[trigger] keys[j]).fields() != fields,
    ensures
        count_of(keys, fields, count) == 0,
    decreases count,
{
    if count > 0 {
        lemma_count_of_none(keys, fields, count - 1);
    }
}

proof fn lemma_state_after(keys: Seq<KeyView>, index: int)
    requires
        in_order(keys),
        0 <= index < keys.len(),
    ensures
        state_after(keys, index + 1).group == Some(keys[index].fields()),
        state_after(keys, index + 1).seen == count_of(keys, keys[index].fields(), index + 1),
    decreases index,
{
    let fields = keys[index].fields();
    if index == 0 {
        reveal_with_fuel(state_after, 2);
        reveal_with_fuel(count_of, 2);
    } else {
        lemma_state_after(keys, index - 1);
        if keys[index - 1].fields() != fields {
            assert forall|j: int| 0 <= j < index implies (#[trigger] keys[j]).fields() != fields by {
                if j < index - 1 && keys[j].fields() == fields {
                    assert(key_less(keys[j], keys[index - 1]));
                    assert(key_less(keys[index - 1], keys[index]));
                    lemma_groups_are_contiguous(keys[j], keys[index - 1], keys[index]);
                }
            }
            lemma_count_of_none(keys, fields, index);
        }
    }
}

/// A compaction that visits versions in key order deletes a version for its
/// number exactly if more newer versions of its group precede it than are to
/// be retained, so that the newest ones stay; and any other exactly if it is
/// too old.
pub proof fn lemma_newest_are_retained(
    retention: RetentionPolicy,
    now: i64,
    keys: Seq<KeyView>,
    index: int,
)
    requires
        in_order(keys),
        0 <= index < keys.len(),
    ensures
        retention.delete_reason(now, state_after(keys, index + 1).seen, keys[index].timestamp)
            == if retention.max_versions matches Some(max) && count_of(
            keys,
            keys[index].fields(),
            index,
        ) >= max {
            Some(CompactionDeleteReason::MaxVersions)
        } else if retention.expires(now, keys[index].timestamp) {
            Some(CompactionDeleteReason::Ttl)
        } else {
            None
        },
        forall|j: int|
            0 <= j < index && (#[trigger] keys[j]).fields() == keys[index].fields()
                ==> keys[j].timestamp > keys[index].timestamp,
{
    lemma_state_after(keys, index);
    assert forall|j: int|
        0 <= j < index && (#[trigger] keys[j]).fields() == keys[index].fields() implies keys[j].timestamp
        > keys[index].timestamp by {
        assert(key_less(keys[j], keys[index]));
        lemma_same_fields(keys[j], keys[index]);
    }
}

/// Once a version is too old it stays so, and every older one is too old too.
pub proof fn lemma_expiry_is_monotone(
    retention: RetentionPolicy,
    now: i64,
    later: i64,
    timestamp: i64,
    older: i64,
)
    requires
        now <= later,
        older <= timestamp,
        retention.expires(now, timestamp),
    ensures
        retention.expires(later, older),
{
}

// ---------------------------------------------------------------------------
// Age and number as inequalities
// ---------------------------------------------------------------------------
/// With a span of `seconds` whole seconds a version is too old at a time exactly
/// if its timestamp is at most that time less the span, which does not go below
/// the least timestamp. Without a span, or with one longer than all timestamps,
/// no version is too old.
pub proof fn lemma_expiry_cutoff(
    retention: RetentionPolicy,
    now: i64,
    timestamp: i64,
    seconds: nat,
    nanos: nat,
)
    requires
        nanos < 1_000_000_000,
        retention.ttl matches Some(ttl) ==> ttl@ == seconds * 1_000_000_000 + nanos,
    ensures
        retention.ttl is None ==> !retention.expires(now, timestamp),
        retention.ttl is Some && seconds > 0x7fff_ffff_ffff_ffff ==> !retention.expires(
            now,
            timestamp,
        ),
        retention.ttl is Some && seconds <= 0x7fff_ffff_ffff_ffff && now - seconds
            >= -0x8000_0000_0000_0000 ==> (retention.expires(now, timestamp) <==> timestamp <= now
            - seconds),
        retention.ttl is Some && seconds <= 0x7fff_ffff_ffff_ffff && now - seconds
            < -0x8000_0000_0000_0000 ==> (retention.expires(now, timestamp) <==> timestamp
            == -0x8000_0000_0000_0000),
{
    if let Some(ttl) = retention.ttl {
        assert(ttl@ / 1_000_000_000 == seconds) by (nonlinear_arith)
            requires
                ttl@ == seconds * 1_000_000_000 + nanos,
                nanos < 1_000_000_000,
        ;
    }
}

/// A version that is younger than the span is never removed for its age, and one
/// that is at least as old never stays, as far as timestamps reach.
pub proof fn lemma_age_decides(
    retention: RetentionPolicy,
    now: i64,
    seen: nat,
    timestamp: i64,
    seconds: nat,
    nanos: nat,
)
    requires
        retention.ttl matches Some(ttl) && ttl@ == seconds * 1_000_000_000 + nanos,
        nanos < 1_000_000_000,
        timestamp > -0x8000_0000_0000_0000,
        seconds <= 0x7fff_ffff_ffff_ffff,
    ensures
        now - timestamp < seconds ==> retention.delete_reason(now, seen, timestamp) != Some(
            CompactionDeleteReason::Ttl,
        ),
        now - timestamp >= seconds ==> retention.delete_reason(now, seen, timestamp) is Some,
{
    lemma_expiry_cutoff(retention, now, timestamp, seconds, nanos);
}

/// A version is removed for its number exactly if more versions than are to be
/// retained have been seen with it, and the number is decided before the age.
pub proof fn lemma_number_decides(
    retention: RetentionPolicy,
    now: i64,
    seen: nat,
    timestamp: i64,
)
    ensures
        retention.delete_reason(now, seen, timestamp) == Some(CompactionDeleteReason::MaxVersions)
            <==> retention.max_versions is Some && seen > retention.max_versions->Some_0,
        retention.max_versions is None && retention.ttl is None ==> retention.delete_reason(
            now,
            seen,
            timestamp,
        ) is None,
{
}

/// A policy is refused exactly if it would retain no version at all: none by
/// number, or none by age.
pub proof fn lemma_validation_refuses_empty_retention(retention: RetentionPolicy)
    ensures
        retention.validation() is Err <==> (retention.max_versions is Some
            && retention.max_versions->Some_0 == 0) || (retention.ttl is Some
            && retention.ttl->Some_0@ == 0),
        retention.max_versions is Some && retention.max_versions->Some_0 == 0
            ==> retention.validation() == Err::<(), Error>(
            Error::InvalidPolicy("max_versions must be greater than zero"),
        ),
        retention.validation() is Err && retention.max_versions != Some(0usize)
            ==> retention.validation() == Err::<(), Error>(
            Error::InvalidPolicy("ttl must be greater than zero"),
        ),
{
}

/// A compaction counts the versions of a group one by one, starts again at one
/// with each other group, and knows groups by all four fields.
pub proof fn lemma_counting(state: GroupState, key: CompositeKey, other: CompositeKey)
    ensures
        ({
            let first = next_state(state, key@);
            let second = next_state(first, other@);
            let same_group = key.row@ == other.row@ && key.family@ == other.family@
                && key.qualifier@ == other.qualifier@ && key.visibility@ == other.visibility@;
            &&& first.seen >= 1
            &&& same_group ==> second.seen == first.seen + 1
            &&& !same_group ==> second.seen == 1
        }),
{
    let a = key@.fields();
    let b = other@.fields();
    if a == b {
        lemma_same_fields(key@, other@);
    }
    if key.row@ == other.row@ && key.family@ == other.family@ && key.qualifier@ == other.qualifier@
        && key.visibility@ == other.visibility@ {
        assert(a =~= b);
    }
}

/// A version is removed only if the removal was audited, and if it was.
pub proof fn lemma_removals_are_audited(audited: Result<(), Error>)
    ensures
        removal(audited) == Ok::<Verdict, Error>(Verdict::Remove) <==> audited is Ok,
        audited matches Err(error) ==> removal(audited) == Err::<Verdict, Error>(error),
{
}

} // verus!
