//! Order: of texts by their bytes, and of lists.

use vstd::prelude::*;
use vstd::seq_lib::{to_multiset_build, to_multiset_insert};
use vstd::utf8::encode_utf8;
use crate::table::strings_view;

verus! {

/// The same items in the opposite order.
pub fn reversed<T>(items: Vec<T>) -> (r: Vec<T>)
    ensures
        r@ == items@.reverse(),
{
    let ghost all = items@;
    let mut rest = items;
    let mut out: Vec<T> = Vec::new();
    while rest.len() > 0
        invariant
            rest@.len() <= all.len(),
            rest@ == all.take(rest@.len() as int),
            out@ == all.skip(rest@.len() as int).reverse(),
        decreases rest.len(),
    {
        let ghost n = rest@.len() as int;
        let ghost before = out@;
        let item = rest.pop().unwrap();
        out.push(item);
        assert(rest@ =~= all.take(n - 1));
        assert(out@ =~= all.skip(n - 1).reverse());
    }
    assert(all.skip(0) =~= all);
    out
}

/// Whether the two byte strings agree in their first `k` bytes.
pub open spec fn common_prefix(a: Seq<u8>, b: Seq<u8>, k: int) -> bool {
    &&& 0 <= k <= a.len()
    &&& k <= b.len()
    &&& forall|i: int| 0 <= i < k ==> a[i] == b[i]
}

/// Lexicographic order on byte strings: `a` is a prefix of `b`, or is smaller
/// where the two first differ.
pub open spec fn bytes_le(a: Seq<u8>, b: Seq<u8>) -> bool {
    exists|k: int| #[trigger] common_prefix(a, b, k) && (k == a.len() || (k < b.len() && a[k] < b[k]))
}

/// The order of texts: that of their UTF-8 bytes.
pub open spec fn text_le(a: Seq<char>, b: Seq<char>) -> bool {
    bytes_le(encode_utf8(a), encode_utf8(b))
}

/// Of two byte strings one is below the other.
pub proof fn lemma_bytes_le_total(a: Seq<u8>, b: Seq<u8>)
    ensures
        bytes_le(a, b) || bytes_le(b, a),
    decreases a.len(),
{
    lemma_first_difference(a, b, 0);
}

/// From an agreed prefix on, two byte strings are ordered one way or the
/// other.
proof fn lemma_first_difference(a: Seq<u8>, b: Seq<u8>, k: int)
    requires
        common_prefix(a, b, k),
    ensures
        bytes_le(a, b) || bytes_le(b, a),
    decreases a.len() - k,
{
    if k == a.len() {
        assert(common_prefix(a, b, k));
    } else if k == b.len() {
        assert(common_prefix(b, a, k));
    } else if a[k] < b[k] {
        assert(common_prefix(a, b, k));
    } else if b[k] < a[k] {
        assert(common_prefix(b, a, k));
    } else {
        assert(common_prefix(a, b, k + 1));
        lemma_first_difference(a, b, k + 1);
    }
}

/// The order on byte strings is transitive.
pub proof fn lemma_bytes_le_transitive(a: Seq<u8>, b: Seq<u8>, c: Seq<u8>)
    requires
        bytes_le(a, b),
        bytes_le(b, c),
    ensures
        bytes_le(a, c),
{
    let k1 = choose|k: int| #[trigger] common_prefix(a, b, k) && (k == a.len() || (k < b.len() && a[k] < b[k]));
    let k2 = choose|k: int| #[trigger] common_prefix(b, c, k) && (k == b.len() || (k < c.len() && b[k] < c[k]));
    if k1 <= k2 {
        assert(common_prefix(a, c, k1));
    } else {
        assert(common_prefix(a, c, k2));
    }
}

/// Whether `a` comes before `b` or is equal to it.
pub fn text_before(a: &str, b: &str) -> (r: bool)
    ensures
        r == text_le(a@, b@),
{
    let x = a.as_bytes();
    let y = b.as_bytes();
    let mut k: usize = 0;
    while k < x.len() && k < y.len()
        invariant
            x@ == encode_utf8(a@),
            y@ == encode_utf8(b@),
            common_prefix(x@, y@, k as int),
        decreases x.len() - k,
    {
        if x[k] < y[k] {
            return true;
        }
        if x[k] > y[k] {
            assert forall|j: int| #[trigger] common_prefix(x@, y@, j) implies !(j == x@.len() || (j < y@.len()
                && x@[j] < y@[j])) by {
                if j > k {
                    assert(x@[k as int] == y@[k as int]);
                }
            }
            return false;
        }
        k += 1;
    }
    if k == x.len() {
        true
    } else {
        assert forall|j: int| #[trigger] common_prefix(x@, y@, j) implies !(j == x@.len() || (j < y@.len()
            && x@[j] < y@[j])) by {}
        false
    }
}

/// Each text is below or equal to every later one.
pub open spec fn ascending(names: Seq<Seq<char>>) -> bool {
    forall|i: int, j: int| 0 <= i < j < names.len() ==> text_le(#[trigger] names[i], #[trigger] names[j])
}

/// Each text is above or equal to every later one.
pub open spec fn descending(names: Seq<Seq<char>>) -> bool {
    forall|i: int, j: int| 0 <= i < j < names.len() ==> text_le(#[trigger] names[j], #[trigger] names[i])
}

/// Puts `name` into the ascending list `out`, after everything that is not
/// above it.
fn insert_sorted(out: &mut Vec<String>, name: String)
    requires
        ascending(strings_view(old(out)@)),
    ensures
        ascending(strings_view(final(out)@)),
        strings_view(final(out)@).to_multiset() == strings_view(old(out)@).to_multiset().insert(name@),
{
    let ghost before = strings_view(out@);
    let mut pos: usize = 0;
    while pos < out.len() && text_before(out[pos].as_str(), name.as_str())
        invariant
            pos <= out.len(),
            before == strings_view(out@),
            forall|i: int| 0 <= i < pos ==> text_le(#[trigger] before[i], name@),
        decreases out.len() - pos,
    {
        pos += 1;
    }
    proof {
        if pos < out.len() {
            assert(!text_le(before[pos as int], name@));
            lemma_bytes_le_total(encode_utf8(before[pos as int]), encode_utf8(name@));
            assert forall|j: int| pos <= j < before.len() implies text_le(name@, #[trigger] before[j]) by {
                if j > pos {
                    lemma_bytes_le_transitive(
                        encode_utf8(name@),
                        encode_utf8(before[pos as int]),
                        encode_utf8(before[j]),
                    );
                }
            }
        }
        to_multiset_insert(before, pos as int, name@);
    }
    out.insert(pos, name);
    proof {
        let after = strings_view(out@);
        assert(after =~= before.insert(pos as int, name@));
        assert forall|i: int, j: int| 0 <= i < j < after.len() implies text_le(
            #[trigger] after[i],
            #[trigger] after[j],
        ) by {
            if j < pos {
                assert(after[i] == before[i] && after[j] == before[j]);
            } else if j == pos {
                assert(after[i] == before[i]);
            } else if i < pos {
                assert(after[i] == before[i] && after[j] == before[j - 1]);
            } else if i == pos {
                assert(after[j] == before[j - 1]);
            } else {
                assert(after[i] == before[i - 1] && after[j] == before[j - 1]);
            }
        }
    }
}

/// The same names in ascending order.
pub fn sort_names(names: Vec<String>) -> (out: Vec<String>)
    ensures
        ascending(strings_view(out@)),
        strings_view(out@).to_multiset() == strings_view(names@).to_multiset(),
{
    let ghost all = strings_view(names@);
    let mut rest = names;
    let mut out: Vec<String> = Vec::new();
    assert(strings_view(out@) =~= Seq::empty());
    assert(strings_view(out@).to_multiset().add(all.to_multiset()) =~= all.to_multiset()) by {
        broadcast use vstd::seq_lib::group_to_multiset_ensures;
        assert(Seq::<Seq<char>>::empty().to_multiset().len() == 0);
    }
    while rest.len() > 0
        invariant
            ascending(strings_view(out@)),
            strings_view(out@).to_multiset().add(strings_view(rest@).to_multiset()) == all.to_multiset(),
        decreases rest.len(),
    {
        let ghost before_rest = strings_view(rest@);
        let ghost before_out = strings_view(out@);
        let name = rest.pop().unwrap();
        proof {
            assert(strings_view(rest@) =~= before_rest.drop_last());
            assert(before_rest =~= strings_view(rest@).push(name@));
            to_multiset_build(strings_view(rest@), name@);
        }
        insert_sorted(&mut out, name);
        assert(strings_view(out@).to_multiset().add(strings_view(rest@).to_multiset()) =~= before_out.to_multiset().add(
            before_rest.to_multiset(),
        ));
    }
    assert(strings_view(rest@) =~= Seq::empty());
    assert(strings_view(out@).to_multiset() =~= all.to_multiset()) by {
        broadcast use vstd::seq_lib::group_to_multiset_ensures;
        assert(Seq::<Seq<char>>::empty().to_multiset().len() == 0);
    }
    out
}

} // verus!
