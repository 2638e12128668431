//! Open addressing with linear probing over a fixed table of slots, as the
//! control plane's shards use it: a key's home slot is its hash modulo the
//! table length, and a key lives on the first slot of its probe path that was
//! free when it was inserted. Slots are never freed, so every slot between a
//! key's home and its own slot stays occupied.
use vstd::prelude::*;

verus! {

/// The home slot of a hash in a table of `len` slots.
pub open spec fn home(h: u64, len: int) -> int {
    ((h as usize) as int) % len
}

/// The slot `e` steps after `start` on a cyclic table of `len` slots
/// (for `0 <= start < len` and `0 <= e < len`).
pub open spec fn probe(start: int, e: int, len: int) -> int {
    if start + e < len {
        start + e
    } else {
        start + e - len
    }
}

/// How many steps after `start` the slot `j` comes on a cyclic table.
pub open spec fn offset(start: int, j: int, len: int) -> int {
    if j >= start {
        j - start
    } else {
        j + len - start
    }
}

pub proof fn lemma_offset_probe(start: int, j: int, len: int)
    requires
        0 <= start < len,
        0 <= j < len,
    ensures
        0 <= offset(start, j, len) < len,
        probe(start, offset(start, j, len), len) == j,
{
}

pub proof fn lemma_home_bounds(h: u64, len: int)
    requires
        len > 0,
    ensures
        0 <= home(h, len) < len,
{
}

/// Stepping from slot `idx` with `(idx + 1) % len` follows the probe path.
pub proof fn lemma_probe_step(start: int, e: int, len: int, idx: int)
    requires
        0 <= start < len,
        0 <= e,
        e + 1 < len,
        idx == probe(start, e, len),
    ensures
        (idx + 1) % len == probe(start, e + 1, len),
        0 <= probe(start, e + 1, len) < len,
{
    if idx + 1 < len {
        vstd::arithmetic::div_mod::lemma_small_mod((idx + 1) as nat, len as nat);
    } else {
        vstd::arithmetic::div_mod::lemma_mod_self_0(len);
    }
}

/// The probe path visits every slot within `len` steps.
pub proof fn lemma_probe_covers(start: int, len: int, j: int)
    requires
        0 <= start < len,
        0 <= j < len,
    ensures
        exists|e: int| 0 <= e < len && #[trigger] probe(start, e, len) == j,
{
    lemma_offset_probe(start, j, len);
    assert(probe(start, offset(start, j, len), len) == j);
}

} // verus!
