//! The partition selector: a pure map from a key string and a partition
//! count to a 1-based partition id.
use vstd::prelude::*;
use vstd::std_specs::hash::DefaultHasherAdditionalSpecFns;
use vstd::string::StrSliceExecFns;
use vstd::utf8::encode_utf8;
use std::collections::hash_map::DefaultHasher;
use std::hash::Hasher;

verus! {

/// The stable hash of a key: what `DefaultHasher` yields after one write of
/// the key's UTF-8 bytes. A pure function of the characters alone.
pub open spec fn spec_key_hash(key: Seq<char>) -> u64 {
    DefaultHasher::spec_finish(seq![encode_utf8(key)])
}

/// The partition id for a key: the key's hash modulo the partition count,
/// shifted to the 1-based range `[1, total]`.
pub open spec fn spec_select_partition(key: Seq<char>, total: u64) -> nat
    recommends
        total > 0,
{
    (spec_key_hash(key) as nat % total as nat) + 1
}

/// Over any positive partition count the selector stays within
/// `[1, total]`, whatever the key hashes to.
pub proof fn lemma_select_partition_range(key: Seq<char>, total: u64)
    requires
        total > 0,
    ensures
        1 <= spec_select_partition(key, total) <= total,
{
    vstd::arithmetic::div_mod::lemma_mod_bound(
        spec_key_hash(key) as int,
        total as int,
    );
}

/// Maps a key to a deterministic partition id in `[1, total_partition_size]`
/// by hashing the key's bytes and reducing modulo the partition count. A
/// zero partition count has nothing to select from and is rejected up
/// front; the count is capped by what the 32-bit result can carry.
pub fn select_partition(input: String, total_partition_size: u64) -> (r: u32)
    requires
        1 <= total_partition_size <= 0xffff_ffff,
    ensures
        r as nat == spec_select_partition(input@, total_partition_size),
        1 <= r <= total_partition_size,
{
    let mut hasher = DefaultHasher::new();
    let bytes = input.as_str().as_bytes_vec();
    hasher.write(bytes.as_slice());
    let hash_value = hasher.finish();
    proof {
        assert(hasher@ =~= seq![encode_utf8(input@)]);
        lemma_select_partition_range(input@, total_partition_size);
    }
    let random_number = (hash_value % total_partition_size) + 1;
    random_number as u32
}

} // verus!
