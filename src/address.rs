//! Ascending order of addresses: character by character, a proper prefix
//! first. On the UTF-8 bytes this is the byte order of the addresses.

use vstd::prelude::*;

verus! {

/// Compares `a` and `b` from position `i` on: -1, 0 or 1.
pub open spec fn cmp_from(a: Seq<char>, b: Seq<char>, i: nat) -> int
    decreases (if a.len() > b.len() { a.len() } else { b.len() }) - i,
{
    if i >= a.len() && i >= b.len() {
        0
    } else if i >= a.len() {
        -1
    } else if i >= b.len() {
        1
    } else if a[i as int] < b[i as int] {
        -1
    } else if a[i as int] > b[i as int] {
        1
    } else {
        cmp_from(a, b, i + 1)
    }
}

/// `a` comes strictly before `b`.
pub open spec fn addr_lt(a: Seq<char>, b: Seq<char>) -> bool {
    cmp_from(a, b, 0) < 0
}

proof fn lemma_cmp_from_antisymmetric(a: Seq<char>, b: Seq<char>, i: nat)
    requires
        i <= a.len(),
        i <= b.len(),
    ensures
        cmp_from(a, b, i) == -cmp_from(b, a, i),
        cmp_from(a, b, i) == 0 ==> a.subrange(i as int, a.len() as int) == b.subrange(i as int, b.len() as int),
    decreases (if a.len() > b.len() { a.len() } else { b.len() }) - i,
{
    if i < a.len() && i < b.len() && a[i as int] == b[i as int] {
        lemma_cmp_from_antisymmetric(a, b, i + 1);
        assert(cmp_from(a, b, i) == cmp_from(a, b, i + 1));
        assert(cmp_from(b, a, i) == cmp_from(b, a, i + 1));
        if cmp_from(a, b, i) == 0 {
            assert(a.subrange((i + 1) as int, a.len() as int) == b.subrange((i + 1) as int, b.len() as int));
            assert(a.subrange((i + 1) as int, a.len() as int).len() == a.len() - i - 1);
            assert(a[i as int] == b[i as int]);
            let sa = a.subrange(i as int, a.len() as int);
            let sb = b.subrange(i as int, b.len() as int);
            assert(sa.len() == sb.len());
            assert forall|k: int| 0 <= k < sa.len() implies sa[k] == sb[k] by {
                if k > 0 {
                    assert(sa[k] == a.subrange((i + 1) as int, a.len() as int)[k - 1]);
                    assert(sb[k] == b.subrange((i + 1) as int, b.len() as int)[k - 1]);
                }
            }
            assert(sa =~= sb);
        }
    }
}

proof fn lemma_cmp_from_transitive(a: Seq<char>, b: Seq<char>, c: Seq<char>, i: nat)
    requires
        i <= a.len(),
        i <= b.len(),
        i <= c.len(),
        cmp_from(a, b, i) < 0,
        cmp_from(b, c, i) < 0,
    ensures
        cmp_from(a, c, i) < 0,
    decreases (if a.len() > b.len() { a.len() } else { b.len() }) - i,
{
    if i < a.len() && i < b.len() && i < c.len() && a[i as int] == b[i as int]
        && b[i as int] == c[i as int] {
        lemma_cmp_from_transitive(a, b, c, i + 1);
    }
}

/// `addr_lt` is a strict total order.
pub proof fn lemma_addr_order(a: Seq<char>, b: Seq<char>, c: Seq<char>)
    ensures
        !addr_lt(a, a),
        addr_lt(a, b) ==> !addr_lt(b, a),
        a != b ==> addr_lt(a, b) || addr_lt(b, a),
        addr_lt(a, b) && addr_lt(b, c) ==> addr_lt(a, c),
{
    lemma_cmp_from_antisymmetric(a, a, 0);
    lemma_cmp_from_antisymmetric(a, b, 0);
    if cmp_from(a, b, 0) == 0 {
        assert(a.subrange(0, a.len() as int) =~= a);
        assert(b.subrange(0, b.len() as int) =~= b);
    }
    if addr_lt(a, b) && addr_lt(b, c) {
        lemma_cmp_from_transitive(a, b, c, 0);
    }
}

/// Whether address `a` comes strictly before address `b`.
pub fn addr_less(a: &String, b: &String) -> (r: bool)
    ensures
        r == addr_lt(a@, b@),
{
    let la = a.as_str().unicode_len();
    let lb = b.as_str().unicode_len();
    let mut i: usize = 0;
    while i < la && i < lb
        invariant
            la == a@.len(),
            lb == b@.len(),
            i <= la,
            i <= lb,
            cmp_from(a@, b@, 0) == cmp_from(a@, b@, i as nat),
        decreases la - i,
    {
        let ca = a.as_str().get_char(i);
        let cb = b.as_str().get_char(i);
        if ca < cb {
            return true;
        }
        if ca > cb {
            return false;
        }
        i = i + 1;
    }
    i >= la && i < lb
}

} // verus!
