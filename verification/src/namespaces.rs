//! The output of `list-namespace`: the raft groups of a WAL directory, in ascending order.
use vstd::prelude::*;
use vstd::string::StringExecFns;
use crate::decimal::{decimal_digits, u64_decimal};

verus! {

/// Whether `s` is in ascending order.
pub open spec fn is_ascending(s: Seq<u64>) -> bool {
    forall|i: int, j: int| 0 <= i <= j < s.len() ==> s[i] <= s[j]
}

/// One line per namespace: its decimal number, then a line feed.
pub open spec fn namespace_lines(namespaces: Seq<u64>) -> Seq<char>
    decreases namespaces.len(),
{
    if namespaces.len() == 0 {
        Seq::empty()
    } else {
        namespace_lines(namespaces.drop_last()) + decimal_digits(namespaces.last() as nat)
            + "\n"@
    }
}

/// Sorts namespaces in ascending order.
///
/// Calls `slice::sort_unstable`, which reorders the items of the slice, keeping each of them,
/// so that they ascend.
#[verifier::external_body]
fn sort_ascending(v: &mut Vec<u64>)
    ensures
        final(v)@.to_multiset() == old(v)@.to_multiset(),
        is_ascending(final(v)@),
{
    v.sort_unstable();
}

/// The listing of the namespaces, sorted ascending, one per line.
pub fn namespace_listing(namespaces: Vec<u64>) -> (res: String)
    ensures
        exists|sorted: Seq<u64>|
            {
                &&& sorted.to_multiset() == namespaces@.to_multiset()
                &&& is_ascending(sorted)
                &&& res@ == namespace_lines(sorted)
            },
{
    let ghost given = namespaces@;
    let mut sorted = namespaces;
    sort_ascending(&mut sorted);
    let mut out = String::new();
    let mut i: usize = 0;
    while i < sorted.len()
        invariant
            i <= sorted@.len(),
            out@ == namespace_lines(sorted@.take(i as int)),
        decreases sorted@.len() - i,
    {
        let ghost before = out@;
        out.append(u64_decimal(sorted[i]).as_str());
        out.append("\n");
        proof {
            let next = sorted@.take(i + 1);
            assert(next.drop_last() =~= sorted@.take(i as int));
            assert(out@ =~= before + decimal_digits(next.last() as nat) + "\n"@);
        }
        i = i + 1;
    }
    assert(sorted@.take(sorted@.len() as int) =~= sorted@);
    assert(sorted@.to_multiset() == given.to_multiset());
    out
}

/// The listing does not depend on the order in which the namespaces are given: two ascending
/// arrangements of the same namespaces are the same sequence, and so list the same.
pub proof fn law_listing_ignores_given_order(a: Seq<u64>, b: Seq<u64>)
    requires
        is_ascending(a),
        is_ascending(b),
        a.to_multiset() == b.to_multiset(),
    ensures
        a == b,
        namespace_lines(a) == namespace_lines(b),
    decreases a.len(),
{
    vstd::seq_lib::to_multiset_len(a);
    vstd::seq_lib::to_multiset_len(b);
    if a.len() == 0 {
        assert(a =~= b);
    } else {
        let n = a.len() - 1;
        let x = a[n];
        let y = b[n];
        vstd::seq_lib::to_multiset_contains(a, x);
        vstd::seq_lib::to_multiset_contains(b, x);
        vstd::seq_lib::to_multiset_contains(a, y);
        vstd::seq_lib::to_multiset_contains(b, y);
        assert(a.contains(x));
        assert(b.contains(y));
        let i = choose|i: int| 0 <= i < b.len() && b[i] == x;
        let j = choose|j: int| 0 <= j < a.len() && a[j] == y;
        assert(b[i] <= b[n]);
        assert(a[j] <= a[n]);
        assert(x == y);
        vstd::seq_lib::to_multiset_remove(a, n);
        vstd::seq_lib::to_multiset_remove(b, n);
        assert(a.remove(n) =~= a.drop_last());
        assert(b.remove(n) =~= b.drop_last());
        law_listing_ignores_given_order(a.drop_last(), b.drop_last());
        assert(a =~= a.drop_last().push(x));
        assert(b =~= b.drop_last().push(y));
    }
}

} // verus!
