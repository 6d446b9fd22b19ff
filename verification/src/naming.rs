//! Names of raw keyspaces.

use vstd::prelude::*;

use crate::visibility::text::chars_of;

verus! {

/// What the names of raw keyspaces that back secure ones begin with.
pub const RAW_KEYSPACE_PREFIX: &'static str = "$fjall.secure.";

/// Whether a raw keyspace name is reserved for secure keyspaces.
pub open spec fn reserved(name: Seq<char>) -> bool {
    &&& RAW_KEYSPACE_PREFIX@.len() <= name.len()
    &&& name.take(RAW_KEYSPACE_PREFIX@.len() as int) == RAW_KEYSPACE_PREFIX@
}

/// The name of the raw keyspace that backs a secure one.
pub open spec fn physical_name(name: Seq<char>) -> Seq<char> {
    RAW_KEYSPACE_PREFIX@ + name
}

/// Returns whether a raw keyspace name is reserved for secure keyspaces.
pub fn is_reserved_raw_keyspace_name(name: &str) -> (is_reserved: bool)
    ensures
        is_reserved == reserved(name@),
{
    let chars = chars_of(name);
    let prefix = chars_of(RAW_KEYSPACE_PREFIX);
    if chars.len() < prefix.len() {
        return false;
    }
    let mut i: usize = 0;
    while i < prefix.len()
        invariant
            i <= prefix.len() <= chars.len(),
            chars@ == name@,
            prefix@ == RAW_KEYSPACE_PREFIX@,
            forall|j: int| 0 <= j < i ==> chars@[j] == prefix@[j],
        decreases prefix.len() - i,
    {
        if chars[i] != prefix[i] {
            assert(name@.take(prefix@.len() as int)[i as int] != prefix@[i as int]);
            return false;
        }
        i += 1;
    }
    assert(name@.take(prefix@.len() as int) =~= prefix@);
    true
}

/// Returns the name of the raw keyspace that backs a secure one.
pub fn physical_keyspace_name(name: &str) -> (physical: String)
    ensures
        physical@ == physical_name(name@),
{
    let mut physical = RAW_KEYSPACE_PREFIX.to_owned();
    physical.append(name);
    physical
}

/// The raw keyspace behind a secure one has a reserved name, and different
/// secure keyspaces have different ones.
pub proof fn lemma_physical_names_are_reserved(a: Seq<char>, b: Seq<char>)
    ensures
        reserved(physical_name(a)),
        physical_name(a) == physical_name(b) <==> a == b,
{
    let len = RAW_KEYSPACE_PREFIX@.len() as int;
    assert(physical_name(a).take(len) =~= RAW_KEYSPACE_PREFIX@);
    assert(physical_name(a).skip(len) =~= a);
    assert(physical_name(b).skip(len) =~= b);
}

/// A name is reserved exactly if it is the prefix `$fjall.secure.` and something
/// more, and the raw keyspace behind a secure one is named by the prefix and the
/// name of the secure one.
pub proof fn lemma_reserved_names(name: Seq<char>)
    ensures
        reserved(name) <==> exists|rest: Seq<char>| name == #[trigger] ("$fjall.secure."@ + rest),
        physical_name(name) == "$fjall.secure."@ + name,
{
    let prefix = "$fjall.secure."@;
    if reserved(name) {
        assert(name =~= prefix + name.skip(prefix.len() as int));
    }
    if exists|rest: Seq<char>| name == #[trigger] (prefix + rest) {
        let rest = choose|rest: Seq<char>| name == #[trigger] (prefix + rest);
        assert(name.take(prefix.len() as int) =~= prefix);
    }
}

} // verus!
