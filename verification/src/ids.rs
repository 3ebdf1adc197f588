//! Keeping drawn ids apart: where two random ids happen to coincide, a later
//! one is replaced by an id that no earlier one has.
use vstd::prelude::*;
use crate::text::is_digit;
use crate::types::strs_view;
use crate::utils::is_uuid_text;

verus! {

/// No two of `ids` are equal.
pub open spec fn distinct_ids(ids: Seq<Seq<char>>) -> bool {
    forall|a: int, b: int| 0 <= a < b < ids.len() ==> #[trigger] ids[a] != #[trigger] ids[b]
}

/// The upper-case hex digit for `d` (0 to 15).
pub open spec fn hex_char(d: int) -> char {
    if d == 0 {
        '0'
    } else if d == 1 {
        '1'
    } else if d == 2 {
        '2'
    } else if d == 3 {
        '3'
    } else if d == 4 {
        '4'
    } else if d == 5 {
        '5'
    } else if d == 6 {
        '6'
    } else if d == 7 {
        '7'
    } else if d == 8 {
        '8'
    } else if d == 9 {
        '9'
    } else if d == 10 {
        'A'
    } else if d == 11 {
        'B'
    } else if d == 12 {
        'C'
    } else if d == 13 {
        'D'
    } else if d == 14 {
        'E'
    } else {
        'F'
    }
}

/// The last `len` hex digits of `k`, most significant first.
pub open spec fn hex_digits(k: nat, len: nat) -> Seq<char>
    decreases len,
{
    if len == 0 {
        Seq::empty()
    } else {
        hex_digits(k / 16, (len - 1) as nat).push(hex_char((k % 16) as int))
    }
}

pub open spec fn pow16(len: nat) -> nat
    decreases len,
{
    if len == 0 {
        1
    } else {
        16 * pow16((len - 1) as nat)
    }
}

/// The `k`-th spare id: a version-4 UUID text in upper case whose hex
/// digits, but for the fixed ones, spell `k`.
pub open spec fn spare_id(k: nat) -> Seq<char> {
    let h = hex_digits(k, 16);
    seq![
        h[0], h[1], h[2], h[3], h[4], h[5], h[6], h[7], '-',
        h[8], h[9], h[10], h[11], '-',
        '4', '0', '0', '0', '-',
        '8', h[12], h[13], h[14], '-',
        h[15], '0', '0', '0', '0', '0', '0', '0', '0', '0', '0', '0',
    ]
}

proof fn lemma_hex_digits_chars(k: nat, len: nat)
    ensures
        hex_digits(k, len).len() == len,
        forall|p: int|
            0 <= p < len ==> is_digit(#[trigger] hex_digits(k, len)[p]) || ('A' <= hex_digits(
                k,
                len,
            )[p] && hex_digits(k, len)[p] <= 'F'),
    decreases len,
{
    if len > 0 {
        lemma_hex_digits_chars(k / 16, (len - 1) as nat);
    }
}

proof fn lemma_hex_digits_injective(k1: nat, k2: nat, len: nat)
    requires
        k1 < pow16(len),
        k2 < pow16(len),
        hex_digits(k1, len) == hex_digits(k2, len),
    ensures
        k1 == k2,
    decreases len,
{
    if len > 0 {
        let l1 = (len - 1) as nat;
        let a = hex_digits(k1, len);
        let b = hex_digits(k2, len);
        assert(a.drop_last() =~= hex_digits(k1 / 16, l1));
        assert(b.drop_last() =~= hex_digits(k2 / 16, l1));
        assert(a.last() == hex_char((k1 % 16) as int));
        assert(b.last() == hex_char((k2 % 16) as int));
        assert(k1 % 16 == k2 % 16);
        assert(k1 / 16 < pow16(l1));
        assert(k2 / 16 < pow16(l1));
        lemma_hex_digits_injective(k1 / 16, k2 / 16, l1);
    }
}

proof fn lemma_spare_id(k: nat)
    ensures
        is_uuid_text(spare_id(k), true),
{
    lemma_hex_digits_chars(k, 16);
}

proof fn lemma_spare_id_injective(k1: nat, k2: nat)
    requires
        k1 < pow16(16),
        k2 < pow16(16),
        spare_id(k1) == spare_id(k2),
    ensures
        k1 == k2,
{
    let h1 = hex_digits(k1, 16);
    let h2 = hex_digits(k2, 16);
    lemma_hex_digits_chars(k1, 16);
    lemma_hex_digits_chars(k2, 16);
    let s1 = spare_id(k1);
    let s2 = spare_id(k2);
    assert(s1[0] == s2[0] && s1[1] == s2[1] && s1[2] == s2[2] && s1[3] == s2[3]);
    assert(s1[4] == s2[4] && s1[5] == s2[5] && s1[6] == s2[6] && s1[7] == s2[7]);
    assert(s1[9] == s2[9] && s1[10] == s2[10] && s1[11] == s2[11] && s1[12] == s2[12]);
    assert(s1[20] == s2[20] && s1[21] == s2[21] && s1[22] == s2[22] && s1[24] == s2[24]);
    assert(h1 =~= h2);
    lemma_hex_digits_injective(k1, k2, 16);
}

proof fn lemma_pow16_16()
    ensures
        pow16(16) == 0x1_0000_0000_0000_0000,
{
    reveal_with_fuel(pow16, 17);
}

/// Pigeonholes: where the first `n` spare ids all occur in `prev`, `prev`
/// has at least `n` entries.
proof fn lemma_spares_fit(prev: Seq<Seq<char>>, n: nat)
    requires
        n <= pow16(16),
        forall|k: nat| k < n ==> prev.contains(#[trigger] spare_id(k)),
    ensures
        n <= prev.len(),
    decreases prev.len(),
{
    if n > 0 {
        let top = (n - 1) as nat;
        assert(prev.contains(spare_id(top)));
        let j = choose|j: int| 0 <= j < prev.len() && prev[j] == spare_id(top);
        let rest = prev.subrange(0, j) + prev.subrange(j + 1, prev.len() as int);
        assert forall|k: nat| k < top implies rest.contains(#[trigger] spare_id(k)) by {
            assert(prev.contains(spare_id(k)));
            let m = choose|m: int| 0 <= m < prev.len() && prev[m] == spare_id(k);
            if m == j {
                lemma_spare_id_injective(k, top);
            }
            if m < j {
                assert(rest[m] == prev[m]);
            } else {
                assert(rest[m - 1] == prev[m]);
            }
        }
        lemma_spares_fit(rest, top);
    }
}

fn hex_char_of(d: u64) -> (c: char)
    requires
        d < 16,
    ensures
        c == hex_char(d as int),
{
    if d == 0 {
        '0'
    } else if d == 1 {
        '1'
    } else if d == 2 {
        '2'
    } else if d == 3 {
        '3'
    } else if d == 4 {
        '4'
    } else if d == 5 {
        '5'
    } else if d == 6 {
        '6'
    } else if d == 7 {
        '7'
    } else if d == 8 {
        '8'
    } else if d == 9 {
        '9'
    } else if d == 10 {
        'A'
    } else if d == 11 {
        'B'
    } else if d == 12 {
        'C'
    } else if d == 13 {
        'D'
    } else if d == 14 {
        'E'
    } else {
        'F'
    }
}

fn hex_digits_of(k: u64, len: usize) -> (v: Vec<char>)
    ensures
        v@ == hex_digits(k as nat, len as nat),
    decreases len,
{
    if len == 0 {
        Vec::new()
    } else {
        let mut v = hex_digits_of(k / 16, len - 1);
        v.push(hex_char_of(k % 16));
        v
    }
}

fn spare_id_of(k: u64) -> (s: String)
    ensures
        s@ == spare_id(k as nat),
{
    let h = hex_digits_of(k, 16);
    proof {
        lemma_hex_digits_chars(k as nat, 16);
    }
    let v: Vec<char> = vec![
        h[0], h[1], h[2], h[3], h[4], h[5], h[6], h[7], '-',
        h[8], h[9], h[10], h[11], '-',
        '4', '0', '0', '0', '-',
        '8', h[12], h[13], h[14], '-',
        h[15], '0', '0', '0', '0', '0', '0', '0', '0', '0', '0', '0',
    ];
    assert(v@ =~= spare_id(k as nat));
    crate::text::string_from_chars(&v)
}

/// Whether `x` is among the first `i` of `ids`.
fn among_first(ids: &Vec<String>, i: usize, x: &String) -> (r: bool)
    requires
        i <= ids.len(),
    ensures
        r == strs_view(ids@).subrange(0, i as int).contains(x@),
{
    let ghost pre = strs_view(ids@).subrange(0, i as int);
    let mut j: usize = 0;
    while j < i
        invariant
            j <= i <= ids.len(),
            pre == strs_view(ids@).subrange(0, i as int),
            forall|m: int| 0 <= m < j ==> pre[m] != x@,
        decreases i - j,
    {
        if ids[j] == *x {
            assert(pre[j as int] == x@);
            return true;
        }
        j = j + 1;
    }
    false
}

/// An upper-case version-4 UUID text that none of the first `i` of `ids` is.
fn unused_id(ids: &Vec<String>, i: usize) -> (r: String)
    requires
        i <= ids.len(),
    ensures
        is_uuid_text(r@, true),
        !strs_view(ids@).subrange(0, i as int).contains(r@),
{
    let ghost pre = strs_view(ids@).subrange(0, i as int);
    proof {
        lemma_pow16_16();
    }
    let mut k: usize = 0;
    loop
        invariant
            k <= i <= ids.len(),
            pre == strs_view(ids@).subrange(0, i as int),
            pow16(16) == 0x1_0000_0000_0000_0000,
            forall|m: nat| m < k ==> pre.contains(#[trigger] spare_id(m)),
        decreases i - k,
    {
        let cand = spare_id_of(k as u64);
        proof {
            lemma_spare_id(k as nat);
        }
        if !among_first(ids, i, &cand) {
            return cand;
        }
        if k == i {
            proof {
                lemma_spares_fit(pre, (k + 1) as nat);
            }
            assert(false);
            return cand;
        }
        k = k + 1;
    }
}

/// Keeps `ids` apart: an id equal to an earlier one is replaced by one that
/// no earlier id is; ids that are already apart are kept as they are.
pub fn make_ids_distinct(ids: &mut Vec<String>)
    requires
        forall|j: int| 0 <= j < old(ids).len() ==> is_uuid_text(#[trigger] old(ids)@[j]@, true),
    ensures
        final(ids).len() == old(ids).len(),
        forall|j: int| 0 <= j < final(ids).len() ==> is_uuid_text(#[trigger] final(ids)@[j]@, true),
        distinct_ids(strs_view(final(ids)@)),
        distinct_ids(strs_view(old(ids)@)) ==> strs_view(final(ids)@) == strs_view(old(ids)@),
{
    let ghost start = strs_view(ids@);
    let n = ids.len();
    let mut i: usize = 0;
    while i < n
        invariant
            i <= n == ids.len() == start.len(),
            forall|j: int| 0 <= j < n ==> is_uuid_text(#[trigger] ids@[j]@, true),
            forall|j: int| i <= j < n ==> #[trigger] strs_view(ids@)[j] == start[j],
            distinct_ids(strs_view(ids@).subrange(0, i as int)),
            distinct_ids(start) ==> strs_view(ids@) == start,
        decreases n - i,
    {
        let ghost before = strs_view(ids@);
        let ghost vbefore = ids@;
        let cur = ids[i].clone();
        if among_first(ids, i, &cur) {
            let fresh = unused_id(ids, i);
            proof {
                if distinct_ids(start) {
                    let m = choose|m: int|
                        0 <= m < i && before.subrange(0, i as int)[m] == cur@;
                    assert(before[m] == start[m]);
                    assert(before[i as int] == start[i as int]);
                }
            }
            ids.set(i, fresh);
            let ghost after = strs_view(ids@);
            assert forall|j: int| i + 1 <= j < n implies #[trigger] strs_view(ids@)[j] == start[j] by {
                assert(ids@[j] == vbefore[j]);
                assert(before[j] == vbefore[j]@);
            }
            assert forall|a: int, b: int|
                0 <= a < b < i + 1 implies #[trigger] after.subrange(0, i + 1)[a]
                != #[trigger] after.subrange(0, i + 1)[b] by {
                assert(after.subrange(0, i + 1)[a] == after[a]);
                assert(after.subrange(0, i + 1)[b] == after[b]);
                if b < i {
                    assert(before.subrange(0, i as int)[a] == before[a]);
                    assert(before.subrange(0, i as int)[b] == before[b]);
                } else {
                    assert(before.subrange(0, i as int)[a] == after[a]);
                }
            }
        } else {
            let ghost after = strs_view(ids@);
            assert forall|a: int, b: int|
                0 <= a < b < i + 1 implies #[trigger] after.subrange(0, i + 1)[a]
                != #[trigger] after.subrange(0, i + 1)[b] by {
                assert(after.subrange(0, i + 1)[a] == after[a]);
                assert(after.subrange(0, i + 1)[b] == after[b]);
                if b < i {
                    assert(before.subrange(0, i as int)[a] == before[a]);
                    assert(before.subrange(0, i as int)[b] == before[b]);
                } else {
                    assert(before.subrange(0, i as int)[a] == after[a]);
                }
            }
        }
        i = i + 1;
    }
    assert(strs_view(ids@).subrange(0, n as int) =~= strs_view(ids@));
}

} // verus!
