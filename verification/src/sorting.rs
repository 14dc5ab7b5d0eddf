//! The order in which `ls` lists a directory: by lowercased name with one
//! leading dot ignored, ties kept in the order the directory gave them.

use vstd::prelude::*;
use vstd::string::*;
use crate::entry::EntryInfo;
use crate::text::{chars_of, lex_le, lex_less_or_equal, lowercase, push_char, to_lower};

verus! {

/// One name read from a directory, with what could be learned about it
/// or the text of the error met reading its metadata.
pub struct DirItem {
    pub name: String,
    pub metadata: Result<EntryInfo, String>,
}

/// `s` without one leading dot.
pub open spec fn strip_dot(s: Seq<char>) -> Seq<char> {
    if s.len() > 0 && s[0] == '.' {
        s.drop_first()
    } else {
        s
    }
}

/// The key a name is sorted by.
pub open spec fn sort_key(name: Seq<char>) -> Seq<char> {
    strip_dot(lowercase(name))
}

/// Computes `sort_key`.
pub fn name_sort_key(name: &str) -> (r: String)
    ensures
        r@ == sort_key(name@),
{
    let lower = to_lower(name);
    let cs = chars_of(lower.as_str());
    let first: usize = if cs.len() > 0 && cs[0] == '.' { 1 } else { 0 };
    let mut r = String::new();
    let mut i: usize = first;
    while i < cs.len()
        invariant
            cs@ == lower@,
            first <= i <= cs.len(),
            r@ =~= cs@.subrange(first as int, i as int),
        decreases cs.len() - i,
    {
        push_char(&mut r, cs[i]);
        i = i + 1;
    }
    proof {
        assert(r@ =~= strip_dot(lower@));
    }
    r
}

/// Item `i` of a listing with keys `keys` comes before item `j`: its key
/// is smaller, or the keys are equal and it came first.
pub open spec fn goes_before(keys: Seq<Seq<char>>, i: int, j: int) -> bool {
    (lex_le(keys[i], keys[j]) && keys[i] != keys[j]) || (keys[i] == keys[j] && i < j)
}

/// `perm` lists each index below `n` exactly once.
pub open spec fn is_permutation(perm: Seq<int>, n: nat) -> bool {
    &&& perm.len() == n
    &&& forall|k: int| 0 <= k < n ==> 0 <= #[trigger] perm[k] < n
    &&& forall|k: int, l: int| 0 <= k < l < n ==> perm[k] != perm[l]
}

/// `perm` orders the items by key, ties in the order given.
pub open spec fn sorts_stably(keys: Seq<Seq<char>>, perm: Seq<int>) -> bool {
    forall|k: int, l: int| 0 <= k < l < perm.len() ==> goes_before(keys, #[trigger] perm[k], #[trigger] perm[l])
}

pub open spec fn item_keys(items: Seq<DirItem>) -> Seq<Seq<char>> {
    Seq::new(items.len(), |i: int| sort_key(items[i].name@))
}

/// `res` is `items` sorted for listing.
pub open spec fn sorted_listing(items: Seq<DirItem>, res: Seq<DirItem>) -> bool {
    exists|perm: Seq<int>| {
        &&& is_permutation(perm, items.len())
        &&& sorts_stably(item_keys(items), perm)
        &&& res.len() == items.len()
        &&& forall|k: int| 0 <= k < res.len() ==> #[trigger] res[k] == items[perm[k]]
    }
}

pub proof fn lemma_lex_total(a: Seq<char>, b: Seq<char>)
    ensures
        lex_le(a, b) || lex_le(b, a),
    decreases a.len(),
{
    if a.len() > 0 && b.len() > 0 {
        if a[0] == b[0] {
            lemma_lex_total(a.drop_first(), b.drop_first());
        } else {
            vstd::utf8::char_u32_cast(a[0], a[0] as u32);
            vstd::utf8::char_u32_cast(b[0], b[0] as u32);
            assert((a[0] as u32) != (b[0] as u32));
        }
    }
}

pub proof fn lemma_lex_antisymmetric(a: Seq<char>, b: Seq<char>)
    requires
        lex_le(a, b),
        lex_le(b, a),
    ensures
        a == b,
    decreases a.len(),
{
    if a.len() > 0 && b.len() > 0 {
        if a[0] == b[0] {
            lemma_lex_antisymmetric(a.drop_first(), b.drop_first());
            assert(a =~= seq![a[0]] + a.drop_first());
            assert(b =~= seq![b[0]] + b.drop_first());
        } else {
            assert((a[0] as u32) != (b[0] as u32));
        }
    } else {
        assert(a.len() == 0 && b.len() == 0);
        assert(a =~= b);
    }
}

pub proof fn lemma_lex_transitive(a: Seq<char>, b: Seq<char>, c: Seq<char>)
    requires
        lex_le(a, b),
        lex_le(b, c),
    ensures
        lex_le(a, c),
    decreases a.len(),
{
    if a.len() > 0 && b.len() > 0 && c.len() > 0 {
        if a[0] == b[0] && b[0] == c[0] {
            lemma_lex_transitive(a.drop_first(), b.drop_first(), c.drop_first());
        }
    }
}

pub proof fn lemma_lex_reflexive(a: Seq<char>)
    ensures
        lex_le(a, a),
    decreases a.len(),
{
    if a.len() > 0 {
        lemma_lex_reflexive(a.drop_first());
    }
}

/// Sorts a directory's items for listing.
pub fn sort_items(items: Vec<DirItem>) -> (r: Vec<DirItem>)
    ensures
        sorted_listing(items@, r@),
{
    let ghost items0 = items@;
    let ghost keys0 = item_keys(items0);
    let mut items = items;
    let mut res: Vec<DirItem> = Vec::new();
    let mut keys: Vec<String> = Vec::new();
    let ghost mut perm: Seq<int> = Seq::empty();
    while items.len() > 0
        invariant
            items@ == items0.subrange(0, items@.len() as int),
            keys0 == item_keys(items0),
            res@.len() == perm.len(),
            keys@.len() == perm.len(),
            perm.len() + items@.len() == items0.len(),
            forall|k: int| 0 <= k < perm.len() ==> items@.len() <= #[trigger] perm[k] < items0.len(),
            forall|k: int, l: int| 0 <= k < l < perm.len() ==> perm[k] != perm[l],
            forall|k: int| 0 <= k < perm.len() ==> #[trigger] res@[k] == items0[perm[k]],
            forall|k: int| 0 <= k < perm.len() ==> #[trigger] keys@[k]@ == keys0[perm[k]],
            sorts_stably(keys0, perm),
        decreases items@.len(),
    {
        let item = items.pop().unwrap();
        let ghost idx: int = items@.len() as int;
        let key = name_sort_key(item.name.as_str());
        assert(item == items0[idx]);
        assert(key@ == keys0[idx]);
        let mut j: usize = 0;
        while j < keys.len() && !lex_less_or_equal(key.as_str(), keys[j].as_str())
            invariant
                j <= keys@.len(),
                keys@.len() == perm.len(),
                forall|k: int| 0 <= k < perm.len() ==> #[trigger] keys@[k]@ == keys0[perm[k]],
                forall|k: int| 0 <= k < j ==> !lex_le(key@, #[trigger] keys@[k]@),
            decreases keys@.len() - j,
        {
            j = j + 1;
        }
        proof {
            let old_perm = perm;
            let new_perm = old_perm.insert(j as int, idx);
            assert forall|k: int, l: int| 0 <= k < l < new_perm.len()
                implies goes_before(keys0, #[trigger] new_perm[k], #[trigger] new_perm[l]) by {
                if k < j && l < j {
                    assert(new_perm[k] == old_perm[k] && new_perm[l] == old_perm[l]);
                } else if k < j && l == j {
                    assert(new_perm[k] == old_perm[k]);
                    assert(!lex_le(key@, keys@[k]@));
                    lemma_lex_total(key@, keys0[old_perm[k]]);
                    lemma_lex_reflexive(key@);
                } else if k < j && l > j {
                    assert(new_perm[k] == old_perm[k] && new_perm[l] == old_perm[l - 1]);
                } else if k == j {
                    assert(new_perm[l] == old_perm[l - 1]);
                    let other = old_perm[l - 1];
                    assert(j < keys@.len());
                    assert(lex_le(key@, keys@[j as int]@));
                    if l - 1 > j {
                        assert(goes_before(keys0, old_perm[j as int], old_perm[l - 1]));
                        lemma_lex_reflexive(keys0[old_perm[j as int]]);
                        lemma_lex_transitive(key@, keys0[old_perm[j as int]], keys0[other]);
                    }
                    assert(lex_le(keys0[idx], keys0[other]));
                    assert(idx < other);
                } else {
                    assert(new_perm[k] == old_perm[k - 1] && new_perm[l] == old_perm[l - 1]);
                }
            }
            perm = new_perm;
        }
        res.insert(j, item);
        keys.insert(j, key);
        proof {
            assert forall|k: int| 0 <= k < perm.len() implies #[trigger] res@[k] == items0[perm[k]] by {
                if k < j {
                } else if k == j {
                } else {
                }
            }
            assert forall|k: int| 0 <= k < perm.len() implies #[trigger] keys@[k]@ == keys0[perm[k]] by {
                if k < j {
                } else if k == j {
                } else {
                }
            }
            assert(items@ =~= items0.subrange(0, items@.len() as int));
        }
    }
    proof {
        assert(is_permutation(perm, items0.len()));
        assert(sorted_listing(items0, res@));
    }
    res
}

/// A permutation of `0..n` takes every value below `n`.
proof fn lemma_permutation_onto(perm: Seq<int>, n: nat, i: int)
    requires
        is_permutation(perm, n),
        0 <= i < n,
    ensures
        exists|k: int| 0 <= k < n && perm[k] == i,
{
    broadcast use vstd::seq_lib::seq_to_set_is_finite;
    assert(perm.no_duplicates()) by {
        assert forall|a: int, b: int| 0 <= a < perm.len() && 0 <= b < perm.len() && a != b implies perm[a] != perm[b] by {
            if a < b {
            } else {
            }
        }
    }
    perm.unique_seq_to_set();
    let range = vstd::set_lib::set_int_range(0, n as int);
    vstd::set_lib::lemma_int_range(0, n as int);
    assert(perm.to_set().subset_of(range)) by {
        assert forall|v: int| perm.to_set().contains(v) implies range.contains(v) by {
            let k = choose|k: int| 0 <= k < perm.len() && perm[k] == v;
        }
    }
    vstd::set_lib::lemma_subset_equality(perm.to_set(), range);
    assert(range.contains(i));
    assert(perm.to_set().contains(i));
}

proof fn lemma_goes_before_asymmetric(keys: Seq<Seq<char>>, x: int, y: int)
    ensures
        !(goes_before(keys, x, y) && goes_before(keys, y, x)),
{
    if lex_le(keys[x], keys[y]) && lex_le(keys[y], keys[x]) {
        lemma_lex_antisymmetric(keys[x], keys[y]);
    }
}

/// Two stable sorting permutations of the same keys agree below `k`.
proof fn lemma_stable_sorts_agree(keys: Seq<Seq<char>>, p1: Seq<int>, p2: Seq<int>, k: int)
    requires
        is_permutation(p1, keys.len()),
        is_permutation(p2, keys.len()),
        sorts_stably(keys, p1),
        sorts_stably(keys, p2),
        0 <= k <= keys.len(),
    ensures
        forall|j: int| 0 <= j < k ==> p1[j] == p2[j],
    decreases k,
{
    if k > 0 {
        lemma_stable_sorts_agree(keys, p1, p2, k - 1);
        let c = k - 1;
        let x = p1[c];
        let y = p2[c];
        if x != y {
            lemma_permutation_onto(p2, keys.len(), x);
            let m = choose|m: int| 0 <= m < keys.len() && p2[m] == x;
            lemma_permutation_onto(p1, keys.len(), y);
            let l = choose|l: int| 0 <= l < keys.len() && p1[l] == y;
            if m < c {
                assert(p1[m] == p2[m]);
                assert(p1[m] != p1[c]);
            }
            if l < c {
                assert(p1[l] == p2[l]);
                assert(p2[l] != p2[c]);
            }
            assert(goes_before(keys, p2[c], p2[m]));
            assert(goes_before(keys, p1[c], p1[l]));
            lemma_goes_before_asymmetric(keys, x, y);
        }
    }
}

/// The listing order is determined by the names alone: any two results
/// that `sorted_listing` accepts for the same items are the same.
pub proof fn law_listing_order_is_unique(items: Seq<DirItem>, r1: Seq<DirItem>, r2: Seq<DirItem>)
    requires
        sorted_listing(items, r1),
        sorted_listing(items, r2),
    ensures
        r1 == r2,
{
    let p1 = choose|perm: Seq<int>| {
        &&& is_permutation(perm, items.len())
        &&& sorts_stably(item_keys(items), perm)
        &&& r1.len() == items.len()
        &&& forall|k: int| 0 <= k < r1.len() ==> #[trigger] r1[k] == items[perm[k]]
    };
    let p2 = choose|perm: Seq<int>| {
        &&& is_permutation(perm, items.len())
        &&& sorts_stably(item_keys(items), perm)
        &&& r2.len() == items.len()
        &&& forall|k: int| 0 <= k < r2.len() ==> #[trigger] r2[k] == items[perm[k]]
    };
    let keys = item_keys(items);
    lemma_stable_sorts_agree(keys, p1, p2, keys.len() as int);
    assert forall|k: int| 0 <= k < r1.len() implies r1[k] == r2[k] by {
        assert(p1[k] == p2[k]);
    }
    assert(r1 =~= r2);
}

} // verus!
