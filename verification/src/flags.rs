use vstd::prelude::*;
use vstd::std_specs::cmp::PartialEqSpec;
use vstd::std_specs::ops::BitAndSpec;

verus! {

/// True when every bit set in `flag` is also set in `flags`.
pub open spec fn spec_is_set(flags: u64, flag: u64) -> bool {
    flags & flag == flag
}

/// Tests whether the flag set `flags` contains `flag`: true exactly when
/// every bit set in `flag` is also set in `flags`, so multi-bit flags are
/// supported, not just single-bit ones. The flag type is any type with
/// bitwise and and equality; for every type whose two operators obey their
/// specifications — all primitive integers do — the result is exactly
/// `flags & flag == flag`.
pub fn is_set<T>(flags: T, flag: T) -> (r: bool) where
    T: core::ops::BitAnd<Output = T> + Eq + Copy,

    requires
        flags.bitand_req(flag),
    ensures
        T::obeys_bitand_spec() && T::obeys_eq_spec() ==> r == flags.bitand_spec(flag).eq_spec(
            &flag,
        ),
{
    flags & flag == flag
}

/// The containment test is exactly bitwise subset: `is_set` holds if and only
/// if each individual bit of `flag` also appears in `flags`.
pub proof fn lemma_is_set_bitwise(flags: u64, flag: u64)
    ensures
        spec_is_set(flags, flag) <==> (forall|i: u64|
            i < 64 && (flag >> i) & 1 == 1 ==> (flags >> i) & 1 == 1),
{
    if spec_is_set(flags, flag) {
        assert forall|i: u64| i < 64 && (flag >> i) & 1 == 1 implies (flags >> i) & 1 == 1 by {
            assert(flags & flag == flag && (flag >> i) & 1 == 1 ==> (flags >> i) & 1 == 1)
                by (bit_vector);
        }
    } else {
        let x = flag & !flags;
        assert(x != 0) by (bit_vector)
            requires
                flags & flag != flag && x == flag & !flags,
        ;
        assert(x >> 0u64 == x) by (bit_vector);
        lemma_nonzero_has_set_bit(x, 0);
        let i0 = choose|i: u64| i < 64 && (x >> i) & 1 == 1;
        assert((flag >> i0) & 1 == 1 && (flags >> i0) & 1 == 0) by (bit_vector)
            requires
                x == flag & !flags && i0 < 64 && (x >> i0) & 1 == 1,
        ;
    }
}

/// A nonzero word has at least one set bit at or above position `n`,
/// provided its bits from position `n` upward are not all zero.
proof fn lemma_nonzero_has_set_bit(x: u64, n: u64)
    requires
        n < 64,
        x >> n != 0,
    ensures
        exists|i: u64| i < 64 && (x >> i) & 1 == 1,
    decreases 64 - n,
{
    if (x >> n) & 1 == 1 {
        assert(n < 64 && (x >> n) & 1 == 1);
    } else {
        assert(n < 63) by (bit_vector)
            requires
                n < 64 && x >> n != 0 && (x >> n) & 1 != 1,
        ;
        let n1: u64 = (n + 1) as u64;
        assert(x >> n1 != 0) by (bit_vector)
            requires
                n1 == n + 1 && n < 63 && x >> n != 0 && (x >> n) & 1 != 1,
        ;
        lemma_nonzero_has_set_bit(x, n1);
    }
}

} // verus!
