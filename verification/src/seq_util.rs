use vstd::prelude::*;

verus! {

/// Position of the first occurrence of `x` in `s`.
pub open spec fn first_index<A>(s: Seq<A>, x: A) -> int {
    choose|k: int| 0 <= k < s.len() && s[k] == x && forall|j: int| 0 <= j < k ==> s[j] != x
}

/// `s` with its first occurrence of `x` taken out (unchanged if `x` is absent).
pub open spec fn without<A>(s: Seq<A>, x: A) -> Seq<A> {
    if s.contains(x) {
        s.remove(first_index(s, x))
    } else {
        s
    }
}

/// The slice `[offset, offset + limit)` of a sequence of length `len`, both
/// ends clamped to `len`; `offset + limit` saturates.
pub open spec fn page_start(len: int, offset: u32) -> int {
    if offset < len {
        offset as int
    } else {
        len
    }
}

/// See [`page_start`].
pub open spec fn page_end(len: int, offset: u32, limit: u32) -> int {
    let end = if offset + limit > u32::MAX {
        u32::MAX as int
    } else {
        offset + limit
    };
    if end < len {
        end
    } else {
        len
    }
}

/// The first occurrence found at position `k` is the one `first_index` names.
pub proof fn lemma_first_index<A>(s: Seq<A>, x: A, k: int)
    requires
        0 <= k < s.len(),
        s[k] == x,
        forall|j: int| 0 <= j < k ==> s[j] != x,
    ensures
        first_index(s, x) == k,
        s.contains(x),
        without(s, x) == s.remove(k),
{
    let f = first_index(s, x);
    assert(0 <= f < s.len() && s[f] == x && forall|j: int| 0 <= j < f ==> s[j] != x);
    if f < k {
        assert(s[f] != x);
    }
    if f > k {
        assert(s[k] != x);
    }
}

/// Taking out an element of a duplicate-free sequence.
pub proof fn lemma_without<A>(s: Seq<A>, x: A)
    requires
        s.no_duplicates(),
    ensures
        without(s, x).no_duplicates(),
        s.contains(x) ==> without(s, x).len() == s.len() - 1,
        !s.contains(x) ==> without(s, x) == s,
        forall|y: A| #[trigger] without(s, x).contains(y) <==> (s.contains(y) && y != x),
{
    if s.contains(x) {
        let k = choose|k: int| 0 <= k < s.len() && s[k] == x;
        assert forall|j: int| 0 <= j < k implies s[j] != x by {
            if s[j] == x {
                assert(s[j] == s[k]);
            }
        }
        lemma_first_index(s, x, k);
        let r = s.remove(k);
        s.remove_ensures(k);
        assert forall|i: int, j: int| 0 <= i < r.len() && 0 <= j < r.len() && i != j implies r[i]
            != r[j] by {
            let si = if i < k { i } else { i + 1 };
            let sj = if j < k { j } else { j + 1 };
            assert(r[i] == s[si]);
            assert(r[j] == s[sj]);
        }
        assert forall|y: A| #[trigger] r.contains(y) <==> (s.contains(y) && y != x) by {
            if r.contains(y) {
                let i = choose|i: int| 0 <= i < r.len() && r[i] == y;
                let si = if i < k { i } else { i + 1 };
                assert(s[si] == y);
                assert(si != k);
            }
            if s.contains(y) && y != x {
                let i = choose|i: int| 0 <= i < s.len() && s[i] == y;
                assert(i != k);
                if i < k {
                    assert(r[i] == y);
                } else {
                    assert(r[i - 1] == y);
                }
            }
        }
    }
}

/// Appending a fresh element keeps a sequence duplicate-free.
pub proof fn lemma_push_fresh<A>(s: Seq<A>, x: A)
    requires
        s.no_duplicates(),
        !s.contains(x),
    ensures
        s.push(x).no_duplicates(),
        forall|y: A| #[trigger] s.push(x).contains(y) <==> (s.contains(y) || y == x),
{
    let t = s.push(x);
    assert forall|i: int, j: int| 0 <= i < t.len() && 0 <= j < t.len() && i != j implies t[i]
        != t[j] by {
        if i == s.len() as int {
            assert(t[j] == s[j]);
        } else if j == s.len() as int {
            assert(t[i] == s[i]);
        }
    }
    assert forall|y: A| #[trigger] t.contains(y) <==> (s.contains(y) || y == x) by {
        if t.contains(y) {
            let i = choose|i: int| 0 <= i < t.len() && t[i] == y;
            if i < s.len() {
                assert(s[i] == y);
            }
        }
        if s.contains(y) {
            let i = choose|i: int| 0 <= i < s.len() && s[i] == y;
            assert(t[i] == y);
        }
        if y == x {
            assert(t[s.len() as int] == y);
        }
    }
}

/// A duplicate-free sequence of ids below `bound` has at most `bound` entries.
pub proof fn lemma_distinct_ids_below(s: Seq<u64>, bound: u64)
    requires
        s.no_duplicates(),
        forall|i: int| 0 <= i < s.len() ==> #[trigger] s[i] < bound,
    ensures
        s.len() <= bound,
{
    let t = s.map_values(|x: u64| x as int);
    assert forall|i: int, j: int| 0 <= i < t.len() && 0 <= j < t.len() && i != j implies t[i] != t[j] by {
        assert(s[i] != s[j]);
    }
    t.unique_seq_to_set();
    vstd::set_lib::lemma_int_range(0, bound as int);
    assert forall|x: int| #[trigger] t.to_set().contains(x) implies vstd::set_lib::set_int_range(0, bound as int).contains(x) by {
        let i = choose|i: int| 0 <= i < t.len() && t[i] == x;
        assert(s[i] < bound);
    }
    vstd::set_lib::lemma_len_subset(t.to_set(), vstd::set_lib::set_int_range(0, bound as int));
}

/// Pages read one after the other fit together: the page of `l1` items at
/// `offset` followed by the page of `l2` items right after it is the page
/// of `l1 + l2` items at `offset`, in the same order.
pub proof fn law_consecutive_pages_concatenate<A>(s: Seq<A>, offset: u32, l1: u32, l2: u32)
    requires
        offset + l1 + l2 <= u32::MAX,
    ensures
        s.subrange(page_start(s.len() as int, offset), page_end(s.len() as int, offset, l1)) + s.subrange(
            page_start(s.len() as int, (offset + l1) as u32),
            page_end(s.len() as int, (offset + l1) as u32, l2),
        ) == s.subrange(
            page_start(s.len() as int, offset),
            page_end(s.len() as int, offset, (l1 + l2) as u32),
        ),
{
    let n = s.len() as int;
    let a = page_start(n, offset);
    let b = page_end(n, offset, l1);
    let c = page_start(n, (offset + l1) as u32);
    let d = page_end(n, (offset + l1) as u32, l2);
    assert(b == c);
    assert(a <= b <= d);
    assert(s.subrange(a, b) + s.subrange(b, d) =~= s.subrange(a, d));
}

} // verus!
